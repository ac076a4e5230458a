//! The mesh loader.
//!
//! Mesh source text is line-oriented: the first whitespace-delimited token
//! of each line selects the record kind (`v` position, `vt` texture
//! coordinate, `vn` normal, `f` face); anything else is ignored.  Numeric
//! fields become fixed-point scalars; face lines keep their 1-based indices
//! as one flat list, nine per triangular corner-attribute face.  A missing
//! or malformed numeric field aborts the whole load with [`ParseError`].
//!
//! The grammar is written out as spec functions over byte sequences, and
//! [`Module::new`] is proved to return exactly the mesh that the grammar
//! assigns to its input, or an error exactly when the grammar rejects it.

use vstd::prelude::*;

use crate::fixed::SCALE;
use crate::matrix::{V4t, V4x};
use crate::ParseError;

verus! {

/// ASCII whitespace accepted between tokens: space, tab, carriage return,
/// vertical tab, form feed.
pub open spec fn is_ws(c: u8) -> bool {
    c == 32 || c == 9 || c == 13 || c == 11 || c == 12
}

pub open spec fn is_digit(c: u8) -> bool {
    48 <= c <= 57
}

/// Length of the longest prefix of `s` free of the byte `c`.
pub open spec fn prefix_len(s: Seq<u8>, c: u8) -> int
    decreases s.len(),
{
    if s.len() == 0 || s[0] == c {
        0
    } else {
        1 + prefix_len(s.skip(1), c)
    }
}

pub proof fn lemma_prefix_len_bounds(s: Seq<u8>, c: u8)
    ensures
        0 <= prefix_len(s, c) <= s.len(),
        prefix_len(s, c) < s.len() ==> s[prefix_len(s, c)] == c,
        forall|i: int| 0 <= i < prefix_len(s, c) ==> s[i] != c,
    decreases s.len(),
{
    if s.len() == 0 || s[0] == c {
    } else {
        lemma_prefix_len_bounds(s.skip(1), c);
        assert forall|i: int| 0 <= i < prefix_len(s, c) implies s[i] != c by {
            if i > 0 {
                assert(s.skip(1)[i - 1] != c);
            }
        }
    }
}

/// With a `c`-free `t` in front, the `c`-free prefix extends through `t`.
pub proof fn lemma_prefix_len_concat(t: Seq<u8>, u: Seq<u8>, c: u8)
    requires
        forall|i: int| 0 <= i < t.len() ==> t[i] != c,
    ensures
        prefix_len(t + u, c) == t.len() + prefix_len(u, c),
    decreases t.len(),
{
    if t.len() == 0 {
        assert(t + u =~= u);
    } else {
        lemma_prefix_len_concat(t.skip(1), u, c);
        assert((t + u).skip(1) =~= t.skip(1) + u);
    }
}

/// `s` split on the byte `c`: the separators are dropped, empty segments
/// are kept, and one segment more than separators always comes out.
pub open spec fn split_on(s: Seq<u8>, c: u8) -> Seq<Seq<u8>>
    decreases s.len(),
{
    let n = prefix_len(s, c);
    if n < 0 || n >= s.len() {
        seq![s]
    } else {
        seq![s.take(n)] + split_on(s.skip(n + 1), c)
    }
}

/// A `c`-free sequence splits into itself alone.
pub proof fn lemma_split_on_cfree(t: Seq<u8>, c: u8)
    requires
        forall|i: int| 0 <= i < t.len() ==> t[i] != c,
    ensures
        split_on(t, c) =~= seq![t],
{
    lemma_prefix_len_bounds(t, c);
    if prefix_len(t, c) < t.len() {
        assert(t[prefix_len(t, c)] == c);
    }
}

/// Splitting a `c`-free segment, a separator, and a tail: the segment
/// comes off whole.
pub proof fn lemma_split_on_step(t: Seq<u8>, u: Seq<u8>, c: u8)
    requires
        forall|i: int| 0 <= i < t.len() ==> t[i] != c,
        u.len() > 0,
        u[0] == c,
    ensures
        split_on(t + u, c) =~= seq![t] + split_on(u.skip(1), c),
{
    lemma_prefix_len_concat(t, u, c);
    let s = t + u;
    let n = prefix_len(s, c);
    assert(prefix_len(u, c) == 0);
    assert(n == t.len());
    assert(n < s.len());
    assert(s.take(n) =~= t);
    assert(s.skip(n + 1) =~= u.skip(1));
}

/// Split a byte vector on a separator byte, keeping empty segments.
fn split_on_exec(s: &Vec<u8>, c: u8) -> (r: Vec<Vec<u8>>)
    ensures
        r.deep_view() == split_on(s@, c),
{
    let mut out: Vec<Vec<u8>> = Vec::new();
    let mut cur: Vec<u8> = Vec::new();
    let mut i: usize = 0;
    proof {
        assert(cur@ + s@.skip(0) =~= s@);
        assert(out.deep_view() + split_on(s@, c) =~= split_on(s@, c));
    }
    while i < s.len()
        invariant
            0 <= i <= s.len(),
            forall|k: int| 0 <= k < cur@.len() ==> cur@[k] != c,
            split_on(s@, c) == out.deep_view() + split_on(cur@ + s@.skip(i as int), c),
        decreases s.len() - i,
    {
        let b = s[i];
        if b == c {
            proof {
                lemma_split_on_step(cur@, s@.skip(i as int), c);
                assert(s@.skip(i as int).skip(1) =~= s@.skip(i as int + 1));
            }
            let ghost pre = out.deep_view();
            let ghost curv = cur@;
            out.push(cur);
            cur = Vec::new();
            proof {
                assert(out.deep_view() =~~= pre.push(curv));
                assert(cur@ + s@.skip(i as int + 1) =~= s@.skip(i as int + 1));
                assert(pre + (seq![curv] + split_on(s@.skip(i as int + 1), c)) =~= pre.push(
                    curv,
                ) + split_on(s@.skip(i as int + 1), c));
            }
        } else {
            let ghost curb = cur@;
            cur.push(b);
            proof {
                assert(curb + s@.skip(i as int) =~= cur@ + s@.skip(i as int + 1));
            }
        }
        i = i + 1;
    }
    proof {
        assert(cur@ + s@.skip(i as int) =~= cur@);
        lemma_split_on_cfree(cur@, c);
    }
    let ghost pre = out.deep_view();
    let ghost curv = cur@;
    out.push(cur);
    proof {
        assert(out.deep_view() =~~= pre.push(curv));
        assert(pre + seq![curv] =~= pre.push(curv));
    }
    out
}


/// Length of the longest whitespace-free prefix of `s`.
pub open spec fn tok_len(s: Seq<u8>) -> int
    decreases s.len(),
{
    if s.len() == 0 || is_ws(s[0]) {
        0
    } else {
        1 + tok_len(s.skip(1))
    }
}

/// With a whitespace-free `t` in front, the token prefix extends through `t`.
pub proof fn lemma_tok_len_concat(t: Seq<u8>, u: Seq<u8>)
    requires
        forall|i: int| 0 <= i < t.len() ==> !is_ws(t[i]),
    ensures
        tok_len(t + u) == t.len() + tok_len(u),
    decreases t.len(),
{
    if t.len() == 0 {
        assert(t + u =~= u);
    } else {
        lemma_tok_len_concat(t.skip(1), u);
        assert((t + u).skip(1) =~= t.skip(1) + u);
    }
}

/// `s` split into its whitespace-delimited tokens, in order; no token is
/// empty and no whitespace is kept.
pub open spec fn tokens_of(s: Seq<u8>) -> Seq<Seq<u8>>
    decreases s.len(),
{
    if s.len() == 0 {
        Seq::empty()
    } else if is_ws(s[0]) {
        tokens_of(s.skip(1))
    } else {
        let n = tok_len(s);
        if 1 <= n <= s.len() {
            seq![s.take(n)] + tokens_of(s.skip(n))
        } else {
            seq![s]
        }
    }
}

/// A non-empty whitespace-free token followed by whitespace (or the end)
/// comes off whole.
pub proof fn lemma_tokens_step(t: Seq<u8>, u: Seq<u8>)
    requires
        t.len() >= 1,
        forall|i: int| 0 <= i < t.len() ==> !is_ws(t[i]),
        u.len() == 0 || is_ws(u[0]),
    ensures
        tokens_of(t + u) == seq![t] + tokens_of(u),
    decreases t.len(),
{
    lemma_tok_len_concat(t, u);
    let s = t + u;
    let n = tok_len(s);
    assert(tok_len(u) == 0);
    assert(n == t.len());
    assert(s.take(n) =~= t);
    assert(s.skip(n) =~= u);
}

/// Split a byte vector into its whitespace-delimited tokens.
fn tokens_exec(s: &Vec<u8>) -> (r: Vec<Vec<u8>>)
    ensures
        r.deep_view() == tokens_of(s@),
{
    let mut out: Vec<Vec<u8>> = Vec::new();
    let mut cur: Vec<u8> = Vec::new();
    let mut i: usize = 0;
    proof {
        assert(cur@ + s@.skip(0) =~= s@);
        assert(out.deep_view() + tokens_of(s@) =~= tokens_of(s@));
    }
    while i < s.len()
        invariant
            0 <= i <= s.len(),
            forall|k: int| 0 <= k < cur@.len() ==> !is_ws(cur@[k]),
            tokens_of(s@) == out.deep_view() + tokens_of(cur@ + s@.skip(i as int)),
        decreases s.len() - i,
    {
        let b = s[i];
        if b == 32 || b == 9 || b == 13 || b == 11 || b == 12 {
            proof {
                assert(s@.skip(i as int).skip(1) =~= s@.skip(i as int + 1));
            }
            if cur.len() > 0 {
                proof {
                    lemma_tokens_step(cur@, s@.skip(i as int));
                }
                let ghost pre = out.deep_view();
                let ghost curv = cur@;
                out.push(cur);
                cur = Vec::new();
                proof {
                    assert(out.deep_view() =~~= pre.push(curv));
                    assert(cur@ + s@.skip(i as int + 1) =~= s@.skip(i as int + 1));
                    assert(pre + (seq![curv] + tokens_of(s@.skip(i as int + 1))) =~= pre.push(
                        curv,
                    ) + tokens_of(s@.skip(i as int + 1)));
                }
            } else {
                proof {
                    assert(cur@ + s@.skip(i as int) =~= s@.skip(i as int));
                    assert(cur@ + s@.skip(i as int + 1) =~= s@.skip(i as int + 1));
                }
            }
        } else {
            let ghost curb = cur@;
            cur.push(b);
            proof {
                assert(curb + s@.skip(i as int) =~= cur@ + s@.skip(i as int + 1));
            }
        }
        i = i + 1;
    }
    proof {
        assert(cur@ + s@.skip(i as int) =~= cur@);
    }
    if cur.len() > 0 {
        proof {
            lemma_tokens_step(cur@, Seq::<u8>::empty());
            assert(cur@ + Seq::<u8>::empty() =~= cur@);
        }
        let ghost pre = out.deep_view();
        let ghost curv = cur@;
        out.push(cur);
        proof {
            assert(out.deep_view() =~~= pre.push(curv));
            assert(pre + (seq![curv] + tokens_of(Seq::<u8>::empty())) =~= pre.push(curv));
        }
    }
    out
}


/// Numeric value of a digit string, most significant first.
pub open spec fn digits_val(s: Seq<u8>) -> int
    decreases s.len(),
{
    if s.len() == 0 {
        0
    } else {
        digits_val(s.drop_last()) * 10 + (s.last() - 48)
    }
}

pub open spec fn all_digits(s: Seq<u8>) -> bool {
    forall|i: int| 0 <= i < s.len() ==> is_digit(s[i])
}

/// Length of the longest prefix of `s` free of an exponent marker
/// (`e` or `E`).
pub open spec fn mant_len(s: Seq<u8>) -> int
    decreases s.len(),
{
    if s.len() == 0 || s[0] == 101 || s[0] == 69 {
        0
    } else {
        1 + mant_len(s.skip(1))
    }
}

pub proof fn lemma_mant_len_bounds(s: Seq<u8>)
    ensures
        0 <= mant_len(s) <= s.len(),
        mant_len(s) < s.len() ==> s[mant_len(s)] == 101 || s[mant_len(s)] == 69,
        forall|i: int| 0 <= i < mant_len(s) ==> s[i] != 101 && s[i] != 69,
    decreases s.len(),
{
    if s.len() == 0 || s[0] == 101 || s[0] == 69 {
    } else {
        lemma_mant_len_bounds(s.skip(1));
        assert forall|i: int| 0 <= i < mant_len(s) implies s[i] != 101 && s[i] != 69 by {
            if i > 0 {
                assert(s.skip(1)[i - 1] != 101 && s.skip(1)[i - 1] != 69);
            }
        }
    }
}

/// If the first `k` bytes avoid both exponent markers, the mantissa
/// reaches `k`.
pub proof fn lemma_mant_len_at_least(s: Seq<u8>, k: int)
    requires
        0 <= k <= s.len(),
        forall|i: int| 0 <= i < k ==> s[i] != 101 && s[i] != 69,
    ensures
        mant_len(s) >= k,
{
    lemma_mant_len_bounds(s);
    if mant_len(s) < k {
        assert(s[mant_len(s)] == 101 || s[mant_len(s)] == 69);
    }
}

pub open spec fn sign_len(s: Seq<u8>) -> int {
    if s.len() > 0 && (s[0] == 43 || s[0] == 45) {
        1
    } else {
        0
    }
}

pub open spec fn num_sign(s: Seq<u8>) -> int {
    if s.len() > 0 && s[0] == 45 {
        -1
    } else {
        1
    }
}

/// The token without its sign.
pub open spec fn num_body(s: Seq<u8>) -> Seq<u8> {
    s.skip(sign_len(s))
}

/// The mantissa: the body up to the first exponent marker.
pub open spec fn mant_of(s: Seq<u8>) -> Seq<u8> {
    let b = num_body(s);
    b.take(mant_len(b))
}

/// The mantissa digits before the first decimal point.
pub open spec fn int_part(s: Seq<u8>) -> Seq<u8> {
    mant_of(s).take(prefix_len(mant_of(s), 46))
}

/// The mantissa digits after the first decimal point, empty when there is
/// none.
pub open spec fn frac_part(s: Seq<u8>) -> Seq<u8> {
    let m = mant_of(s);
    let d = prefix_len(m, 46);
    if d >= m.len() {
        Seq::empty()
    } else {
        m.skip(d + 1)
    }
}

/// Whether the token carries an exponent marker.
pub open spec fn has_exp(s: Seq<u8>) -> bool {
    mant_len(num_body(s)) < num_body(s).len()
}

/// Everything after the exponent marker: an optional sign and digits.
pub open spec fn exp_body(s: Seq<u8>) -> Seq<u8> {
    let b = num_body(s);
    b.skip(mant_len(b) + 1)
}

/// The exponent's digits.
pub open spec fn exp_digits(s: Seq<u8>) -> Seq<u8> {
    exp_body(s).skip(sign_len(exp_body(s)))
}

/// Largest exponent magnitude a numeric field may carry; any larger
/// positive one would leave the fixed-point range for every non-zero
/// mantissa, and the bound is far beyond what mesh exporters write.
pub const MAX_EXP: i64 = 30;

/// The exponent part is well-formed: absent, or a signed digit string
/// within the accepted magnitude.
pub open spec fn exp_ok(s: Seq<u8>) -> bool {
    !has_exp(s) || (exp_digits(s).len() >= 1 && all_digits(exp_digits(s)) && digits_val(
        exp_digits(s),
    ) <= MAX_EXP as int)
}

/// The exponent's signed value, zero when absent.
pub open spec fn exp_val(s: Seq<u8>) -> int {
    if has_exp(s) {
        num_sign(exp_body(s)) * digits_val(exp_digits(s))
    } else {
        0
    }
}

/// How many digits the scaled magnitude has: the mantissa's whole digits,
/// six fixed-point places, and the exponent's shift.
pub open spec fn out_len(s: Seq<u8>) -> int {
    int_part(s).len() + 6 + exp_val(s)
}

/// The digit string of the fixed-point magnitude: the mantissa digits
/// shifted by the exponent and the six fixed-point places, padded with
/// zeros on the right and truncated past the end -- decimal shifts move
/// whole digits, so the truncated value is exact.
pub open spec fn out_digits(s: Seq<u8>) -> Seq<u8> {
    let md = int_part(s) + frac_part(s);
    if out_len(s) <= 0 {
        Seq::empty()
    } else {
        Seq::new(
            out_len(s) as nat,
            |i: int|
                if i < md.len() {
                    md[i]
                } else {
                    48
                },
        )
    }
}

/// A numeric field: an optional sign, digits with at most one decimal
/// point and at least one digit, an optional exponent (`e` or `E`, an
/// optional sign, digits up to [`MAX_EXP`]), with a scaled magnitude that
/// fits the fixed-point range.
pub open spec fn is_number(s: Seq<u8>) -> bool {
    all_digits(int_part(s)) && all_digits(frac_part(s)) && int_part(s).len() + frac_part(s).len()
        >= 1 && exp_ok(s) && digits_val(out_digits(s)) <= i64::MAX as int
}

/// The fixed-point value of a numeric field.
pub open spec fn num_val(s: Seq<u8>) -> int {
    num_sign(s) * digits_val(out_digits(s))
}

pub proof fn lemma_digits_val_nonneg(s: Seq<u8>)
    requires
        all_digits(s),
    ensures
        digits_val(s) >= 0,
    decreases s.len(),
{
    if s.len() > 0 {
        lemma_digits_val_nonneg(s.drop_last());
    }
}

/// Appending one more digit multiplies the value by ten and adds it.
pub proof fn lemma_digits_snoc(s: Seq<u8>, a: int, b: int)
    requires
        0 <= a <= b < s.len(),
    ensures
        digits_val(s.subrange(a, b + 1)) == digits_val(s.subrange(a, b)) * 10 + (s[b] - 48),
{
    assert(s.subrange(a, b + 1).drop_last() =~= s.subrange(a, b));
}

/// The same, for a one-longer prefix of a digit string.
pub proof fn lemma_digits_take_snoc(s: Seq<u8>, i: int)
    requires
        0 <= i < s.len(),
    ensures
        digits_val(s.take(i + 1)) == digits_val(s.take(i)) * 10 + (s[i] - 48),
{
    assert(s.take(i + 1).drop_last() =~= s.take(i));
}

/// A digit string is worth at least any of its prefixes.
pub proof fn lemma_digits_prefix(s: Seq<u8>, k: int)
    requires
        all_digits(s),
        0 <= k <= s.len(),
    ensures
        digits_val(s.take(k)) <= digits_val(s),
    decreases s.len() - k,
{
    if k == s.len() {
        assert(s.take(k) =~= s);
    } else {
        lemma_digits_prefix(s, k + 1);
        lemma_digits_val_nonneg(s.take(k));
        assert(s.take(k + 1).drop_last() =~= s.take(k));
        assert(digits_val(s.take(k + 1)) == digits_val(s.take(k)) * 10 + (s[k] - 48));
    }
}

/// If the first `k` bytes avoid `c`, the `c`-free prefix reaches `k`.
pub proof fn lemma_prefix_len_at_least(s: Seq<u8>, c: u8, k: int)
    requires
        0 <= k <= s.len(),
        forall|i: int| 0 <= i < k ==> s[i] != c,
    ensures
        prefix_len(s, c) >= k,
{
    lemma_prefix_len_bounds(s, c);
    if prefix_len(s, c) < k {
        assert(s[prefix_len(s, c)] == c);
    }
}

/// The mantissa of a token whose scanned region holds only digits and at
/// most one decimal point splits into exactly those regions.
proof fn lemma_mant_split(t: Seq<u8>, sl: int, iend: int, fstart: int, mend: int, dotted: bool)
    requires
        0 <= sl <= iend <= mend <= t.len(),
        sl == sign_len(t),
        forall|k: int| sl <= k < iend ==> is_digit(t[k]),
        dotted ==> fstart == iend + 1 && iend < t.len() && t[iend] == 46 && fstart <= mend,
        !dotted ==> fstart == iend && mend == iend,
        forall|k: int| fstart <= k < mend ==> is_digit(t[k]),
        mant_len(t.skip(sl)) == mend - sl,
    ensures
        int_part(t) == t.subrange(sl, iend),
        frac_part(t) == (if dotted {
            t.subrange(fstart, mend)
        } else {
            Seq::<u8>::empty()
        }),
        all_digits(int_part(t)),
        all_digits(frac_part(t)),
{
    let body = t.skip(sl);
    let m = mant_of(t);
    assert(m =~= t.subrange(sl, mend));
    if dotted {
        assert(forall|j: int| 0 <= j < iend - sl ==> m[j] != 46);
        lemma_prefix_len_at_least(m, 46, iend - sl);
        lemma_prefix_len_bounds(m, 46);
        if prefix_len(m, 46) > iend - sl {
            assert(m[iend - sl] != 46);
        }
        assert(prefix_len(m, 46) == iend - sl);
        assert(int_part(t) =~= t.subrange(sl, iend));
        assert(frac_part(t) =~= t.subrange(fstart, mend));
    } else {
        assert(forall|j: int| 0 <= j < m.len() ==> m[j] != 46);
        lemma_prefix_len_at_least(m, 46, m.len() as int);
        lemma_prefix_len_bounds(m, 46);
        assert(int_part(t) =~= t.subrange(sl, iend));
        assert(frac_part(t) =~= Seq::<u8>::empty());
    }
}

/// A non-digit byte (other than a first decimal point or an exponent
/// marker) inside the mantissa region makes the token malformed.
proof fn lemma_mant_junk(t: Seq<u8>, sl: int, iend: int, fstart: int, p: int, dotted: bool)
    requires
        0 <= sl <= iend <= p < t.len(),
        sl == sign_len(t),
        forall|k: int| sl <= k < iend ==> is_digit(t[k]),
        dotted ==> fstart == iend + 1 && t[iend] == 46 && fstart <= p,
        !dotted ==> fstart == iend && p == iend,
        forall|k: int| fstart <= k < p ==> is_digit(t[k]),
        !is_digit(t[p]),
        t[p] != 101 && t[p] != 69,
        !dotted ==> t[p] != 46,
    ensures
        !is_number(t),
{
    let body = t.skip(sl);
    let c = t[p];
    assert(forall|j: int| 0 <= j < p + 1 - sl ==> body[j] != 101 && body[j] != 69);
    lemma_mant_len_at_least(body, p + 1 - sl);
    lemma_mant_len_bounds(body);
    let m = mant_of(t);
    assert(m[p - sl] == c);
    if dotted {
        assert(forall|j: int| 0 <= j < iend - sl ==> m[j] != 46);
        lemma_prefix_len_at_least(m, 46, iend - sl);
        lemma_prefix_len_bounds(m, 46);
        if prefix_len(m, 46) > iend - sl {
            assert(m[iend - sl] != 46);
        }
        assert(prefix_len(m, 46) == iend - sl);
        assert(frac_part(t)[p - iend - 1] == c);
        assert(!all_digits(frac_part(t)));
    } else {
        assert(forall|j: int| 0 <= j < p + 1 - sl ==> m[j] != 46);
        lemma_prefix_len_at_least(m, 46, p + 1 - sl);
        lemma_prefix_len_bounds(m, 46);
        assert(int_part(t)[p - sl] == c);
        assert(!all_digits(int_part(t)));
    }
}

/// Scan the exponent part, whose marker stands at `start`: an optional
/// sign and digits up to [`MAX_EXP`] in magnitude.
#[verifier::loop_isolation(false)]
fn scan_exp(tok: &Vec<u8>, start: usize) -> (r: Result<i64, ParseError>)
    requires
        (start as int) < tok@.len(),
        sign_len(tok@) <= start as int,
        mant_len(num_body(tok@)) == start as int - sign_len(tok@),
    ensures
        r is Ok <==> exp_ok(tok@),
        r is Ok ==> r.unwrap() as int == exp_val(tok@) && -MAX_EXP <= r.unwrap() <= MAX_EXP,
{
    let n = tok.len();
    let ghost mend = start as int;
    proof {
        assert(has_exp(tok@));
        assert(exp_body(tok@) =~= tok@.subrange(mend + 1, n as int));
    }
    let mut i = start + 1;
    let mut eneg = false;
    if i < n && (tok[i] == 43 || tok[i] == 45) {
        eneg = tok[i] == 45;
        i = i + 1;
    }
    let es = i;
    proof {
        assert(sign_len(exp_body(tok@)) == es as int - (mend + 1));
        assert((if eneg {
            -1int
        } else {
            1int
        }) == num_sign(exp_body(tok@)));
        assert(exp_digits(tok@) =~= tok@.subrange(es as int, n as int));
    }
    if es == n {
        // an exponent marker with no digits
        return Err(ParseError);
    }
    let mut ev: i64 = 0;
    while i < n && 48 <= tok[i] && tok[i] <= 57
        invariant
            es <= i <= n,
            forall|k: int| es as int <= k < i ==> is_digit(tok@[k]),
            ev as int == digits_val(tok@.subrange(es as int, i as int)),
            0 <= ev <= MAX_EXP,
        decreases n - i,
    {
        proof {
            lemma_digits_snoc(tok@, es as int, i as int);
        }
        let ev2 = ev * 10 + (tok[i] - 48) as i64;
        if ev2 > MAX_EXP {
            proof {
                if all_digits(exp_digits(tok@)) {
                    assert(exp_digits(tok@).take(i as int + 1 - es as int) =~= tok@.subrange(
                        es as int,
                        i as int + 1,
                    ));
                    lemma_digits_prefix(exp_digits(tok@), i as int + 1 - es as int);
                }
            }
            return Err(ParseError);
        }
        ev = ev2;
        i = i + 1;
    }
    if i != n {
        proof {
            assert(exp_digits(tok@)[i as int - es as int] == tok@[i as int]);
            assert(!all_digits(exp_digits(tok@)));
        }
        return Err(ParseError);
    }
    proof {
        assert(all_digits(exp_digits(tok@)));
        assert(digits_val(exp_digits(tok@)) == ev as int);
        assert(exp_ok(tok@));
    }
    Ok(
        if eneg {
            -ev
        } else {
            ev
        },
    )
}

/// Accumulate the scaled magnitude: the mantissa digits shifted by the
/// exponent, read most significant first, rejecting a value past the
/// fixed-point range.
#[verifier::rlimit(100)]
#[verifier::loop_isolation(false)]
fn accum_mag(tok: &Vec<u8>, istart: usize, ilen: usize, fstart: usize, flen: usize, e: i64) -> (r:
    Result<i64, ParseError>)
    requires
        istart + ilen <= tok@.len(),
        fstart + flen <= tok@.len(),
        istart + ilen <= fstart,
        int_part(tok@) == tok@.subrange(istart as int, istart as int + ilen as int),
        frac_part(tok@) == tok@.subrange(fstart as int, fstart as int + flen as int),
        all_digits(int_part(tok@)),
        all_digits(frac_part(tok@)),
        ilen + flen >= 1,
        exp_ok(tok@),
        exp_val(tok@) == e as int,
        -MAX_EXP <= e <= MAX_EXP,
    ensures
        r is Ok <==> is_number(tok@),
        r is Ok ==> r.unwrap() as int == digits_val(out_digits(tok@)) && r.unwrap() >= 0,
{
    let n = tok.len();
    let ghost od = out_digits(tok@);
    proof {
        assert(n == tok@.len());
        assert(out_len(tok@) == ilen as int + 6 + e as int);
        if out_len(tok@) > 0 {
            assert(od.len() == out_len(tok@));
            assert forall|j: int| 0 <= j < od.len() implies is_digit(#[trigger] od[j]) by {
                let md = int_part(tok@) + frac_part(tok@);
                if j < md.len() {
                    if j < ilen as int {
                        assert(md[j] == int_part(tok@)[j]);
                    } else {
                        assert(md[j] == frac_part(tok@)[j - ilen as int]);
                    }
                }
            }
        }
    }
    let lint: i128 = ilen as i128 + 6 + e as i128;
    if lint <= 0 {
        proof {
            assert(od =~= Seq::<u8>::empty());
            assert(is_number(tok@));
        }
        return Ok(0);
    }
    let mut idx: i128 = 0;
    let mut val: u128 = 0;
    proof {
        assert(od.take(0) =~= Seq::<u8>::empty());
    }
    while idx < lint
        invariant
            0 <= idx <= lint,
            val as int == digits_val(od.take(idx as int)),
            val <= i64::MAX as u128,
        decreases lint - idx,
    {
        proof {
            if idx < ilen as i128 {
                assert(int_part(tok@)[idx as int] == tok@[istart as int + idx as int]);
                assert(is_digit(tok@[istart as int + idx as int]));
            } else if idx - (ilen as i128) < flen as i128 {
                assert(frac_part(tok@)[idx as int - ilen as int] == tok@[fstart as int + (idx as int
                    - ilen as int)]);
                assert(is_digit(tok@[fstart as int + (idx as int - ilen as int)]));
            }
        }
        let d: u8;
        if idx < ilen as i128 {
            d = tok[istart + idx as usize] - 48;
        } else if idx - (ilen as i128) < flen as i128 {
            let off: usize = (idx - ilen as i128) as usize;
            proof {
                assert(off as int == idx as int - ilen as int);
                assert(off < flen);
            }
            d = tok[fstart + off] - 48;
        } else {
            d = 0;
        }
        proof {
            let md = int_part(tok@) + frac_part(tok@);
            if idx < ilen as i128 {
                assert(md[idx as int] == int_part(tok@)[idx as int]);
            } else if idx - (ilen as i128) < flen as i128 {
                assert(md[idx as int] == frac_part(tok@)[idx as int - ilen as int]);
            }
            assert(od[idx as int] == d + 48);
            lemma_digits_take_snoc(od, idx as int);
        }
        let v2 = val * 10 + d as u128;
        if v2 > i64::MAX as u128 {
            proof {
                lemma_digits_prefix(od, idx as int + 1);
            }
            return Err(ParseError);
        }
        val = v2;
        idx = idx + 1;
    }
    proof {
        assert(od.take(lint as int) =~= od);
        assert(is_number(tok@));
    }
    Ok(val as i64)
}

/// Parse one numeric field into a fixed-point scalar: an optional sign,
/// digits with at most one decimal point, and an optional exponent.  The
/// value is read exactly, to six fixed-point places.
#[verifier::loop_isolation(false)]
pub fn parse_number(tok: &Vec<u8>) -> (r: Result<i64, ParseError>)
    ensures
        r is Ok <==> is_number(tok@),
        r is Ok ==> r.unwrap() as int == num_val(tok@),
{
    let n = tok.len();
    let mut i: usize = 0;
    let mut neg = false;
    if n > 0 && (tok[0] == 43 || tok[0] == 45) {
        neg = tok[0] == 45;
        i = 1;
    }
    let istart = i;
    let ghost sl = i as int;
    let ghost body = tok@.skip(sl);
    proof {
        assert(sl == sign_len(tok@));
        assert((if neg {
            -1int
        } else {
            1int
        }) == num_sign(tok@));
        assert(body == num_body(tok@));
    }
    while i < n && 48 <= tok[i] && tok[i] <= 57
        invariant
            istart <= i <= n,
            forall|k: int| sl <= k < i ==> is_digit(tok@[k]),
        decreases n - i,
    {
        i = i + 1;
    }
    let iend = i;
    let ilen = iend - istart;
    let mut fstart = i;
    let mut dotted = false;
    if i < n && tok[i] == 46 {
        dotted = true;
        i = i + 1;
        fstart = i;
        while i < n && 48 <= tok[i] && tok[i] <= 57
            invariant
                fstart <= i <= n,
                forall|k: int| fstart as int <= k < i ==> is_digit(tok@[k]),
            decreases n - i,
        {
            i = i + 1;
        }
    }
    let flen = i - fstart;
    // anything here other than the end or an exponent marker makes the
    // mantissa malformed
    if i < n && tok[i] != 101 && tok[i] != 69 {
        proof {
            lemma_mant_junk(tok@, sl, iend as int, fstart as int, i as int, dotted);
        }
        return Err(ParseError);
    }
    let ghost mend = i as int;
    proof {
        assert(forall|j: int| 0 <= j < mend - sl ==> body[j] != 101 && body[j] != 69);
        lemma_mant_len_at_least(body, mend - sl);
        lemma_mant_len_bounds(body);
        if mant_len(body) > mend - sl {
            assert(body[mend - sl] != 101 && body[mend - sl] != 69);
        }
        assert(mant_len(body) == mend - sl);
        lemma_mant_split(tok@, sl, iend as int, fstart as int, mend, dotted);
        assert(int_part(tok@) =~= tok@.subrange(istart as int, istart as int + ilen as int));
        assert(frac_part(tok@) =~= tok@.subrange(fstart as int, fstart as int + flen as int));
    }
    if ilen == 0 && flen == 0 {
        return Err(ParseError);
    }
    let e: i64 = if i < n {
        match scan_exp(tok, i) {
            Ok(v) => v,
            Err(err) => {
                return Err(err);
            },
        }
    } else {
        proof {
            assert(!has_exp(tok@));
            assert(exp_ok(tok@));
        }
        0
    };
    let mag = match accum_mag(tok, istart, ilen, fstart, flen, e) {
        Ok(v) => v,
        Err(err) => {
            return Err(err);
        },
    };
    proof {
        assert(num_val(tok@) == (if neg {
            -(mag as int)
        } else {
            mag as int
        }));
    }
    Ok(
        if neg {
            -mag
        } else {
            mag
        },
    )
}

/// Parse the next numeric field of a record; a missing field is a parse
/// error, as is a malformed one.
pub fn pnext(p: Option<&Vec<u8>>) -> (r: Result<i64, ParseError>)
    ensures
        match p {
            Some(t) => (r is Ok <==> is_number(t@)) && (r is Ok ==> r.unwrap() as int == num_val(
                t@,
            )),
            None => r is Err,
        },
{
    match p {
        Some(t) => parse_number(t),
        None => Err(ParseError),
    }
}


/// A face index field: one or more digits, small enough for `usize`.
pub open spec fn is_uint(s: Seq<u8>) -> bool {
    s.len() >= 1 && all_digits(s) && digits_val(s) <= usize::MAX as int
}

/// Parse one face index field.
pub fn parse_uint(tok: &Vec<u8>) -> (r: Result<usize, ParseError>)
    ensures
        r is Ok <==> is_uint(tok@),
        r is Ok ==> r.unwrap() as int == digits_val(tok@),
{
    let n = tok.len();
    if n == 0 {
        return Err(ParseError);
    }
    let mut i: usize = 0;
    let mut v: u128 = 0;
    while i < n
        invariant
            0 <= i <= n,
            n == tok.len(),
            forall|k: int| 0 <= k < i ==> is_digit(tok@[k]),
            v as int == digits_val(tok@.subrange(0, i as int)),
            v <= usize::MAX as u128,
        decreases n - i,
    {
        let b = tok[i];
        if b < 48 || b > 57 {
            return Err(ParseError);
        }
        proof {
            lemma_digits_snoc(tok@, 0, i as int);
        }
        let v2 = v * 10 + (b - 48) as u128;
        if v2 > usize::MAX as u128 {
            proof {
                if is_uint(tok@) {
                    lemma_digits_prefix(tok@, i as int + 1);
                    assert(tok@.take(i as int + 1) == tok@.subrange(0, i as int + 1));
                }
            }
            return Err(ParseError);
        }
        v = v2;
        i = i + 1;
    }
    proof {
        assert(tok@.subrange(0, n as int) =~= tok@);
    }
    Ok(v as usize)
}

/// The whole mesh as mathematical sequences: positions, flat face index
/// lists, texture coordinates, normals.
pub struct MeshView {
    pub v: Seq<V4x>,
    pub f: Seq<Seq<usize>>,
    pub vt: Seq<V4x>,
    pub vn: Seq<V4x>,
}

pub open spec fn empty_mesh() -> MeshView {
    MeshView { v: Seq::empty(), f: Seq::empty(), vt: Seq::empty(), vn: Seq::empty() }
}

/// A position, texture-coordinate or normal record: the kind token and at
/// least three numeric fields (any further tokens are ignored).
pub open spec fn vertex_ok(ts: Seq<Seq<u8>>) -> bool {
    ts.len() >= 4 && is_number(ts[1]) && is_number(ts[2]) && is_number(ts[3])
}

/// The vector a vertex record carries, with `w` forced to one.
pub open spec fn vertex_of(ts: Seq<Seq<u8>>) -> V4x {
    V4t {
        x: num_val(ts[1]) as i64,
        y: num_val(ts[2]) as i64,
        z: num_val(ts[3]) as i64,
        w: SCALE,
    }
}

/// Every `/`-separated field of one face token is an index.
pub open spec fn fields_ok(tok: Seq<u8>) -> bool {
    forall|j: int| 0 <= j < split_on(tok, 47).len() ==> is_uint(#[trigger] split_on(tok, 47)[j])
}

/// The indices of one face token, in order.
pub open spec fn fields_vals(tok: Seq<u8>) -> Seq<usize> {
    split_on(tok, 47).map_values(|fld: Seq<u8>| digits_val(fld) as usize)
}

/// Every token of a face record parses as index fields.
pub open spec fn face_ok(ts: Seq<Seq<u8>>) -> bool {
    forall|j: int| 1 <= j < ts.len() ==> fields_ok(#[trigger] ts[j])
}

/// The flat index list of a face record: all fields of all tokens after
/// the kind, corner-major.
pub open spec fn face_vals(ts: Seq<Seq<u8>>) -> Seq<usize>
    decreases ts.len(),
{
    if ts.len() <= 1 {
        Seq::empty()
    } else {
        face_vals(ts.drop_last()) + fields_vals(ts.last())
    }
}

/// One line folded into the mesh: `v`, `vt`, `vn` and `f` records extend
/// their arrays, anything else is ignored, and a bad record rejects the
/// whole mesh.
pub open spec fn apply_line(m: MeshView, line: Seq<u8>) -> Option<MeshView> {
    let ts = tokens_of(line);
    if ts.len() == 0 {
        Some(m)
    } else if ts[0] == seq![118u8] {
        if vertex_ok(ts) {
            Some(MeshView { v: m.v.push(vertex_of(ts)), ..m })
        } else {
            None
        }
    } else if ts[0] == seq![118u8, 116u8] {
        if vertex_ok(ts) {
            Some(MeshView { vt: m.vt.push(vertex_of(ts)), ..m })
        } else {
            None
        }
    } else if ts[0] == seq![118u8, 110u8] {
        if vertex_ok(ts) {
            Some(MeshView { vn: m.vn.push(vertex_of(ts)), ..m })
        } else {
            None
        }
    } else if ts[0] == seq![102u8] {
        if face_ok(ts) {
            Some(MeshView { f: m.f.push(face_vals(ts)), ..m })
        } else {
            None
        }
    } else {
        Some(m)
    }
}

/// The lines folded in order, starting from the empty mesh.
pub open spec fn parse_lines(ls: Seq<Seq<u8>>) -> Option<MeshView>
    decreases ls.len(),
{
    if ls.len() == 0 {
        Some(empty_mesh())
    } else {
        match parse_lines(ls.drop_last()) {
            Option::None => Option::None,
            Option::Some(m) => apply_line(m, ls.last()),
        }
    }
}

/// What mesh source text denotes: a mesh, or nothing when some record is
/// malformed.
pub open spec fn parse_spec(s: Seq<u8>) -> Option<MeshView> {
    parse_lines(split_on(s, 10))
}

/// Once a prefix of the lines fails, the whole text fails.
pub proof fn lemma_parse_none_prefix(ls: Seq<Seq<u8>>, k: int)
    requires
        0 <= k <= ls.len(),
        parse_lines(ls.take(k)) is None,
    ensures
        parse_lines(ls) is None,
    decreases ls.len() - k,
{
    if k == ls.len() {
        assert(ls.take(k) =~= ls);
    } else {
        assert(ls.take(k + 1).drop_last() =~= ls.take(k));
        assert(ls.take(k + 1).last() == ls[k]);
        lemma_parse_none_prefix(ls, k + 1);
    }
}

} // verus!

verus! {

/// A loaded mesh: positions, flat face index lists (1-based, exactly as
/// written in the source text), texture coordinates and normals.
#[derive(Debug, Clone)]
pub struct Module {
    v: Vec<V4x>,
    f: Vec<Vec<usize>>,
    vt: Vec<V4x>,
    vn: Vec<V4x>,
}

impl View for Module {
    type V = MeshView;

    closed spec fn view(&self) -> MeshView {
        MeshView { v: self.v@, f: self.f.deep_view(), vt: self.vt@, vn: self.vn@ }
    }
}

fn tok_is1(t: &Vec<u8>, w: u8) -> (r: bool)
    ensures
        r == (t@ == seq![w]),
{
    let r = t.len() == 1 && t[0] == w;
    proof {
        assert(seq![w].len() == 1);
        assert(seq![w][0] == w);
        if r {
            assert(t@ =~= seq![w]);
        }
    }
    r
}

fn tok_is2(t: &Vec<u8>, w0: u8, w1: u8) -> (r: bool)
    ensures
        r == (t@ == seq![w0, w1]),
{
    let r = t.len() == 2 && t[0] == w0 && t[1] == w1;
    proof {
        assert(seq![w0, w1].len() == 2);
        assert(seq![w0, w1][0] == w0);
        assert(seq![w0, w1][1] == w1);
        if r {
            assert(t@ =~= seq![w0, w1]);
        }
    }
    r
}

impl Module {
    /// Parse mesh source text into a mesh, or fail on the first malformed
    /// record.  The result is exactly what the grammar assigns to the text.
    pub fn new(obj_str: Vec<u8>) -> (r: Result<Module, ParseError>)
        ensures
            r is Ok <==> parse_spec(obj_str@) is Some,
            r is Ok ==> r.unwrap()@ == parse_spec(obj_str@).unwrap(),
    {
        let lines = split_on_exec(&obj_str, 10);
        let ghost lsv = lines.deep_view();
        let mut v: Vec<V4x> = Vec::new();
        let mut f: Vec<Vec<usize>> = Vec::new();
        let mut vt: Vec<V4x> = Vec::new();
        let mut vn: Vec<V4x> = Vec::new();
        let mut li: usize = 0;
        proof {
            assert(lsv.take(0) =~= Seq::<Seq<u8>>::empty());
            assert(f.deep_view() =~= Seq::<Seq<usize>>::empty());
            assert(parse_lines(lsv.take(0)) == Some(
                MeshView { v: v@, f: f.deep_view(), vt: vt@, vn: vn@ },
            ));
        }
        while li < lines.len()
            invariant
                0 <= li <= lines.len(),
                lsv == lines.deep_view(),
                lsv == split_on(obj_str@, 10),
                lsv.len() == lines.len(),
                parse_lines(lsv.take(li as int)) == Some(
                    MeshView { v: v@, f: f.deep_view(), vt: vt@, vn: vn@ },
                ),
            decreases lines.len() - li,
        {
            let ghost pre = MeshView { v: v@, f: f.deep_view(), vt: vt@, vn: vn@ };
            let ghost line = lsv[li as int];
            proof {
                assert(lines@[li as int].deep_view() =~= lines@[li as int]@);
                assert(lsv.take(li as int + 1).drop_last() =~= lsv.take(li as int));
                assert(lsv.take(li as int + 1).last() == line);
            }
            let ts = tokens_exec(&lines[li]);
            let ghost tsv = ts.deep_view();
            proof {
                assert(tsv == tokens_of(line));
                assert forall|q: int| 0 <= q < tsv.len() implies tsv[q] == ts@[q]@ by {
                    assert(ts@[q].deep_view() =~= ts@[q]@);
                }
            }
            if ts.len() == 0 {
                proof {
                    assert(apply_line(pre, line) == Some(pre));
                }
            } else if tok_is1(&ts[0], 118) {
                let x = match pnext(if ts.len() > 1 { Some(&ts[1]) } else { None }) {
                    Ok(a) => a,
                    Err(e) => {
                        proof {
                            assert(!vertex_ok(tsv));
                            lemma_parse_none_prefix(lsv, li as int + 1);
                        }
                        return Err(e);
                    },
                };
                let y = match pnext(if ts.len() > 2 { Some(&ts[2]) } else { None }) {
                    Ok(a) => a,
                    Err(e) => {
                        proof {
                            assert(!vertex_ok(tsv));
                            lemma_parse_none_prefix(lsv, li as int + 1);
                        }
                        return Err(e);
                    },
                };
                let z = match pnext(if ts.len() > 3 { Some(&ts[3]) } else { None }) {
                    Ok(a) => a,
                    Err(e) => {
                        proof {
                            assert(!vertex_ok(tsv));
                            lemma_parse_none_prefix(lsv, li as int + 1);
                        }
                        return Err(e);
                    },
                };
                v.push(V4t { x, y, z, w: SCALE });
                proof {
                    assert(vertex_ok(tsv));
                    assert(V4t { x, y, z, w: SCALE } == vertex_of(tsv));
                    assert(apply_line(pre, line) == Some(
                        MeshView { v: v@, f: f.deep_view(), vt: vt@, vn: vn@ },
                    ));
                }
            } else if tok_is2(&ts[0], 118, 116) {
                let x = match pnext(if ts.len() > 1 { Some(&ts[1]) } else { None }) {
                    Ok(a) => a,
                    Err(e) => {
                        proof {
                            assert(!vertex_ok(tsv));
                            lemma_parse_none_prefix(lsv, li as int + 1);
                        }
                        return Err(e);
                    },
                };
                let y = match pnext(if ts.len() > 2 { Some(&ts[2]) } else { None }) {
                    Ok(a) => a,
                    Err(e) => {
                        proof {
                            assert(!vertex_ok(tsv));
                            lemma_parse_none_prefix(lsv, li as int + 1);
                        }
                        return Err(e);
                    },
                };
                let z = match pnext(if ts.len() > 3 { Some(&ts[3]) } else { None }) {
                    Ok(a) => a,
                    Err(e) => {
                        proof {
                            assert(!vertex_ok(tsv));
                            lemma_parse_none_prefix(lsv, li as int + 1);
                        }
                        return Err(e);
                    },
                };
                vt.push(V4t { x, y, z, w: SCALE });
                proof {
                    assert(vertex_ok(tsv));
                    assert(V4t { x, y, z, w: SCALE } == vertex_of(tsv));
                    assert(apply_line(pre, line) == Some(
                        MeshView { v: v@, f: f.deep_view(), vt: vt@, vn: vn@ },
                    ));
                }
            } else if tok_is2(&ts[0], 118, 110) {
                let x = match pnext(if ts.len() > 1 { Some(&ts[1]) } else { None }) {
                    Ok(a) => a,
                    Err(e) => {
                        proof {
                            assert(!vertex_ok(tsv));
                            lemma_parse_none_prefix(lsv, li as int + 1);
                        }
                        return Err(e);
                    },
                };
                let y = match pnext(if ts.len() > 2 { Some(&ts[2]) } else { None }) {
                    Ok(a) => a,
                    Err(e) => {
                        proof {
                            assert(!vertex_ok(tsv));
                            lemma_parse_none_prefix(lsv, li as int + 1);
                        }
                        return Err(e);
                    },
                };
                let z = match pnext(if ts.len() > 3 { Some(&ts[3]) } else { None }) {
                    Ok(a) => a,
                    Err(e) => {
                        proof {
                            assert(!vertex_ok(tsv));
                            lemma_parse_none_prefix(lsv, li as int + 1);
                        }
                        return Err(e);
                    },
                };
                vn.push(V4t { x, y, z, w: SCALE });
                proof {
                    assert(vertex_ok(tsv));
                    assert(V4t { x, y, z, w: SCALE } == vertex_of(tsv));
                    assert(apply_line(pre, line) == Some(
                        MeshView { v: v@, f: f.deep_view(), vt: vt@, vn: vn@ },
                    ));
                }
            } else if tok_is1(&ts[0], 102) {
                let mut face: Vec<usize> = Vec::new();
                let mut j: usize = 1;
                proof {
                    assert(face@ =~= face_vals(tsv.take(1)));
                }
                while j < ts.len()
                    invariant
                        1 <= j <= ts.len(),
                        tsv == ts.deep_view(),
                        tsv.len() == ts.len(),
                        forall|q: int| 0 <= q < tsv.len() ==> tsv[q] == #[trigger] ts@[q]@,
                        forall|t: int| 1 <= t < j ==> fields_ok(#[trigger] tsv[t]),
                        face@ == face_vals(tsv.take(j as int)),
                        tsv[0] == seq![102u8],
                        lsv == split_on(obj_str@, 10),
                        lsv.len() == lines.len(),
                        li < lines.len(),
                        line == lsv[li as int],
                        tsv == tokens_of(line),
                        parse_lines(lsv.take(li as int)) == Some(pre),
                    decreases ts.len() - j,
                {
                    let fields = split_on_exec(&ts[j], 47);
                    let ghost fldv = fields.deep_view();
                    proof {
                        assert(fldv == split_on(tsv[j as int], 47));
                        assert forall|q: int| 0 <= q < fldv.len() implies fldv[q] == fields@[q]@
                            by {
                            assert(fields@[q].deep_view() =~= fields@[q]@);
                        }
                    }
                    let mut k: usize = 0;
                    proof {
                        assert(fields_vals(tsv[j as int]).take(0) =~= Seq::<usize>::empty());
                        assert(face@ + Seq::<usize>::empty() =~= face@);
                    }
                    while k < fields.len()
                        invariant
                            0 <= k <= fields.len(),
                            fldv == fields.deep_view(),
                            fldv.len() == fields.len(),
                            forall|q: int| 0 <= q < fldv.len() ==> fldv[q] == #[trigger] fields@[q]@,
                            fldv == split_on(tsv[j as int], 47),
                            1 <= j < tsv.len(),
                            forall|q: int| 0 <= q < k ==> is_uint(#[trigger] fldv[q]),
                            face@ == face_vals(tsv.take(j as int)) + fields_vals(
                                tsv[j as int],
                            ).take(k as int),
                            forall|t: int| 1 <= t < j ==> fields_ok(#[trigger] tsv[t]),
                            tsv == tokens_of(line),
                            tsv[0] == seq![102u8],
                            lsv == split_on(obj_str@, 10),
                            lsv.len() == lines.len(),
                            li < lines.len(),
                            line == lsv[li as int],
                            parse_lines(lsv.take(li as int)) == Some(pre),
                        decreases fields.len() - k,
                    {
                        match parse_uint(&fields[k]) {
                            Ok(u) => {
                                proof {
                                    assert(fields_vals(tsv[j as int])[k as int] == u);
                                    assert(fields_vals(tsv[j as int]).take(k as int + 1)
                                        =~= fields_vals(tsv[j as int]).take(k as int).push(
                                        u as usize,
                                    ));
                                    assert((face_vals(tsv.take(j as int)) + fields_vals(
                                        tsv[j as int],
                                    ).take(k as int)).push(u) =~= face_vals(tsv.take(j as int))
                                        + fields_vals(tsv[j as int]).take(k as int + 1));
                                }
                                face.push(u);
                            },
                            Err(e) => {
                                proof {
                                    assert(!is_uint(fldv[k as int]));
                                    assert(!fields_ok(tsv[j as int]));
                                    assert(!face_ok(tsv));
                                    assert(lsv.take(li as int + 1).drop_last() =~= lsv.take(
                                        li as int,
                                    ));
                                    assert(lsv.take(li as int + 1).last() == line);
                                    assert(seq![102u8][0] == 102u8);
                                    assert(seq![118u8][0] == 118u8);
                                    assert(seq![102u8].len() == 1);
                                    assert(seq![118u8, 116u8].len() == 2);
                                    assert(seq![118u8, 110u8].len() == 2);
                                    assert(tsv[0] != seq![118u8]);
                                    assert(tsv[0] != seq![118u8, 116u8]);
                                    assert(tsv[0] != seq![118u8, 110u8]);
                                    assert(apply_line(pre, line) is None);
                                    lemma_parse_none_prefix(lsv, li as int + 1);
                                }
                                return Err(e);
                            },
                        }
                        k = k + 1;
                    }
                    proof {
                        assert(fields_ok(tsv[j as int]));
                        assert(fields_vals(tsv[j as int]).take(fldv.len() as int) =~= fields_vals(
                            tsv[j as int],
                        ));
                        assert(tsv.take(j as int + 1).drop_last() =~= tsv.take(j as int));
                        assert(tsv.take(j as int + 1).last() == tsv[j as int]);
                        assert(face@ == face_vals(tsv.take(j as int + 1)));
                    }
                    j = j + 1;
                }
                proof {
                    assert(tsv.take(ts.len() as int) =~= tsv);
                    assert(face_ok(tsv));
                    assert(face@ == face_vals(tsv));
                }
                let ghost fpre = f.deep_view();
                f.push(face);
                proof {
                    assert(f.deep_view() =~~= fpre.push(face_vals(tsv)));
                    assert(apply_line(pre, line) == Some(
                        MeshView { v: v@, f: f.deep_view(), vt: vt@, vn: vn@ },
                    ));
                }
            } else {
                proof {
                    assert(apply_line(pre, line) == Some(pre));
                }
            }
            li = li + 1;
        }
        proof {
            assert(lsv.take(lines.len() as int) =~= lsv);
        }
        Ok(Module { v, f, vt, vn })
    }

    /// The position array.
    pub fn v(&self) -> (r: &Vec<V4x>)
        ensures
            r@ == self@.v,
    {
        &self.v
    }

    /// The face array: one flat list of 1-based indices per face.
    pub fn f(&self) -> (r: &Vec<Vec<usize>>)
        ensures
            r.deep_view() == self@.f,
    {
        &self.f
    }

    /// The texture-coordinate array.
    pub fn vt(&self) -> (r: &Vec<V4x>)
        ensures
            r@ == self@.vt,
    {
        &self.vt
    }

    /// The normal array.
    pub fn vn(&self) -> (r: &Vec<V4x>)
        ensures
            r@ == self@.vn,
    {
        &self.vn
    }
}

} // verus!
