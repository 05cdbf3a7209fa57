//! Exact decimal numbers for filter payloads.
//!
//! Every numeric payload of a filter condition is a finite decimal written
//! in the filter string. It is kept exactly, as a sign, a canonical run of
//! significant digits, and a power-of-ten exponent, so that the value
//! `(-1)^neg * digits * 10^exp` is precisely the number the user wrote.

use vstd::arithmetic::mul::{lemma_mul_inequality, lemma_mul_is_associative};
use vstd::arithmetic::power::{
    lemma_pow_adds,
    lemma_pow_increases,
    lemma_pow_positive,
    pow,
};
use vstd::prelude::*;

verus! {

/// The mathematical model of a [`Number`]: `(-1)^neg * digits * 10^exp`,
/// where `digits` is a base-10 digit string (most significant first).
pub struct NumV {
    pub neg: bool,
    pub digits: Seq<u8>,
    pub exp: int,
}

/// An exact decimal number: `(-1)^neg * digits * 10^exp`.
///
/// Canonical form: no leading or trailing zero digit, and zero itself is
/// represented as an empty digit run with `neg == false` and `exp == 0`.
#[derive(Debug, PartialEq)]
pub struct Number {
    pub neg: bool,
    pub digits: Vec<u8>,
    pub exp: i128,
}

impl View for Number {
    type V = NumV;

    open spec fn view(&self) -> NumV {
        NumV { neg: self.neg, digits: self.digits@, exp: self.exp as int }
    }
}

/// The integer denoted by a base-10 digit string, most significant first.
pub open spec fn digits_val(s: Seq<u8>) -> int
    decreases s.len(),
{
    if s.len() == 0 {
        0
    } else {
        digits_val(s.drop_last()) * 10 + s.last()
    }
}

/// Canonical form: see [`Number`].
pub open spec fn num_wf(n: NumV) -> bool {
    &&& forall|i: int| 0 <= i < n.digits.len() ==> n.digits[i] < 10
    &&& (n.digits.len() > 0 ==> n.digits[0] != 0 && n.digits.last() != 0)
    &&& (n.digits.len() == 0 ==> !n.neg && n.exp == 0)
}

impl Number {
    /// The canonical-form invariant of this number.
    pub open spec fn wf(&self) -> bool {
        num_wf(self@)
    }
}

/// How many zero digits the string starts with.
pub open spec fn leading_zeros(s: Seq<u8>) -> nat
    decreases s.len(),
{
    if s.len() > 0 && s[0] == 0 {
        1 + leading_zeros(s.drop_first())
    } else {
        0
    }
}

/// How many zero digits the string ends with.
pub open spec fn trailing_zeros(s: Seq<u8>) -> nat
    decreases s.len(),
{
    if s.len() > 0 && s.last() == 0 {
        1 + trailing_zeros(s.drop_last())
    } else {
        0
    }
}

/// The canonical number with value `(-1)^neg * all * 10^e0`: leading zeros
/// of `all` are dropped, and each trailing zero dropped raises the exponent
/// by one. An all-zero digit string canonicalizes to plain zero.
pub open spec fn canon(neg: bool, all: Seq<u8>, e0: int) -> NumV {
    let a = all.skip(leading_zeros(all) as int);
    let z = trailing_zeros(a);
    let d = a.take(a.len() - z);
    if d.len() == 0 {
        NumV { neg: false, digits: Seq::empty(), exp: 0 }
    } else {
        NumV { neg, digits: d, exp: e0 + z }
    }
}

proof fn lemma_leading_zeros(s: Seq<u8>)
    ensures
        leading_zeros(s) <= s.len(),
        forall|i: int| 0 <= i < leading_zeros(s) ==> s[i] == 0,
        leading_zeros(s) < s.len() ==> s[leading_zeros(s) as int] != 0,
    decreases s.len(),
{
    if s.len() > 0 && s[0] == 0 {
        lemma_leading_zeros(s.drop_first());
        assert forall|i: int| 0 <= i < leading_zeros(s) implies s[i] == 0 by {
            if i > 0 {
                assert(s.drop_first()[i - 1] == 0);
            }
        }
    }
}

proof fn lemma_trailing_zeros(s: Seq<u8>)
    ensures
        trailing_zeros(s) <= s.len(),
        forall|i: int| s.len() - trailing_zeros(s) <= i < s.len() ==> s[i] == 0,
        trailing_zeros(s) < s.len() ==> s[s.len() - trailing_zeros(s) - 1] != 0,
    decreases s.len(),
{
    if s.len() > 0 && s.last() == 0 {
        lemma_trailing_zeros(s.drop_last());
        assert(forall|i: int| 0 <= i < s.drop_last().len() ==> s.drop_last()[i] == s[i]);
    }
}

/// Builds the canonical [`Number`] with value `(-1)^neg * all * 10^e0`.
pub(crate) fn canon_exec(neg: bool, all: &Vec<u8>, e0: i128) -> (r: Number)
    requires
        forall|i: int| 0 <= i < all@.len() ==> all@[i] < 10,
        -0x40_0000_0000_0000_0000 <= e0 <= 0x40_0000_0000_0000_0000,
        all@.len() <= usize::MAX,
    ensures
        r@ == canon(neg, all@, e0 as int),
        r.wf(),
        r@.exp == 0 || (e0 <= r@.exp && r@.exp <= e0 + all@.len()),
{
    let n = all.len();
    proof {
        lemma_leading_zeros(all@);
        assert(all@.skip(0) =~= all@);
    }
    let mut lz: usize = 0;
    while lz < n && all[lz] == 0
        invariant
            lz <= n,
            n == all@.len(),
            forall|i: int| 0 <= i < all@.len() ==> all@[i] < 10,
            leading_zeros(all@) == lz + leading_zeros(all@.skip(lz as int)),
        decreases n - lz,
    {
        proof {
            assert(all@.skip(lz as int)[0] == all@[lz as int]);
            assert(all@.skip(lz as int).drop_first() =~= all@.skip(lz as int + 1));
        }
        lz = lz + 1;
    }
    proof {
        assert(leading_zeros(all@.skip(lz as int)) == 0);
        assert(leading_zeros(all@) == lz);
    }
    let ghost a = all@.skip(lz as int);
    proof {
        lemma_trailing_zeros(a);
        assert(a.take(a.len() as int) =~= a);
    }
    let mut tz: usize = 0;
    while n - lz - tz > 0 && all[n - 1 - tz] == 0
        invariant
            lz + tz <= n,
            n == all@.len(),
            a == all@.skip(lz as int),
            forall|i: int| 0 <= i < all@.len() ==> all@[i] < 10,
            trailing_zeros(a) == tz + trailing_zeros(a.take(a.len() - tz)),
        decreases n - lz - tz,
    {
        proof {
            let b = a.take(a.len() - tz);
            assert(b.last() == all@[n - 1 - tz as int]);
            assert(b.drop_last() =~= a.take(a.len() - (tz + 1)));
        }
        tz = tz + 1;
    }
    proof {
        let b = a.take(a.len() - tz);
        assert(trailing_zeros(b) == 0);
        assert(trailing_zeros(a) == tz);
    }
    let dlen = n - lz - tz;
    let mut digits: Vec<u8> = Vec::new();
    let mut i: usize = 0;
    while i < dlen
        invariant
            dlen == n - lz - tz,
            lz + tz <= n,
            n == all@.len(),
            forall|i: int| 0 <= i < all@.len() ==> all@[i] < 10,
            i <= dlen,
            digits@ =~= all@.subrange(lz as int, lz + i),
        decreases dlen - i,
    {
        digits.push(all[lz + i]);
        i = i + 1;
    }
    proof {
        assert(digits@ =~= a.take(a.len() - tz));
    }
    if dlen == 0 {
        let r = Number { neg: false, digits, exp: 0 };
        proof {
            assert(r@.digits =~= Seq::<u8>::empty());
            assert(r@ == canon(neg, all@, e0 as int));
        }
        r
    } else {
        let r = Number { neg, digits, exp: e0 + tz as i128 };
        proof {
            lemma_leading_zeros(all@);
            lemma_trailing_zeros(a);
            assert(r@.digits[0] == a[0]);
            assert(r@.digits.last() == a[a.len() - tz - 1]);
            assert(r@ == canon(neg, all@, e0 as int));
        }
        r
    }
}

/// Exponents read from the input saturate here; the value still names a
/// finite number far beyond any geographic bound.
pub const EXP_SAT: i128 = 1_000_000_000_000;

/// Whether `c` is an ASCII decimal digit.
pub open spec fn is_digit(c: char) -> bool {
    48 <= c as u32 && c as u32 <= 57
}

/// The value of an ASCII decimal digit character.
pub open spec fn char_digit(c: char) -> u8 {
    (c as u32 - 48) as u8
}

/// Length of the run of ASCII digits starting at `pos`.
pub open spec fn digit_count(s: Seq<char>, pos: int) -> nat
    decreases s.len() - pos,
{
    if 0 <= pos && pos < s.len() && is_digit(s[pos]) {
        1 + digit_count(s, pos + 1)
    } else {
        0
    }
}

/// The digit values of `n` characters starting at `pos`.
pub open spec fn run_digits(s: Seq<char>, pos: int, n: nat) -> Seq<u8> {
    Seq::new(n, |i: int| char_digit(s[pos + i]))
}

/// The integer denoted by an exponent digit string, saturating at
/// [`EXP_SAT`] so that it always fits in a machine word.
pub open spec fn exp_acc(ds: Seq<u8>) -> int
    decreases ds.len(),
{
    if ds.len() == 0 {
        0
    } else {
        let p = exp_acc(ds.drop_last());
        if p >= EXP_SAT as int {
            p
        } else {
            p * 10 + ds.last()
        }
    }
}

/// The exponent marker of a float literal at `pos`: `(e|E) (+|-)? digit+`.
/// Returns the signed exponent value and the position after it; if the
/// marker is absent or incomplete, nothing is consumed and the exponent
/// is zero.
pub open spec fn spec_lex_exp(s: Seq<char>, pos: int) -> (int, int) {
    if pos < s.len() && (s[pos] == 'e' || s[pos] == 'E') {
        let (eneg, q): (bool, int) = if pos + 1 < s.len() && (s[pos + 1] == '-' || s[pos + 1]
            == '+') {
            (s[pos + 1] == '-', pos + 2)
        } else {
            (false, pos + 1)
        };
        let ne = digit_count(s, q);
        if ne == 0 {
            (0, pos)
        } else {
            let v = exp_acc(run_digits(s, q, ne));
            (if eneg { -v } else { v }, q + ne)
        }
    } else {
        (0, pos)
    }
}

/// One float literal starting at `pos`:
/// `(+|-)? (digit+ (. digit*)? | . digit+) ((e|E) (+|-)? digit+)?`.
/// Returns its exact value and the position after it.
pub open spec fn spec_lex_float(s: Seq<char>, pos: int) -> Option<(NumV, int)> {
    let (neg, p1): (bool, int) = if pos < s.len() && (s[pos] == '-' || s[pos] == '+') {
        (s[pos] == '-', pos + 1)
    } else {
        (false, pos)
    };
    let ni = digit_count(s, p1);
    if ni > 0 {
        let p2 = p1 + ni;
        let (nf, fstart, p4): (nat, int, int) = if p2 < s.len() && s[p2] == '.' {
            let nf = digit_count(s, p2 + 1);
            (nf, p2 + 1, p2 + 1 + nf)
        } else {
            (0nat, p2, p2)
        };
        let (e, end) = spec_lex_exp(s, p4);
        Some((canon(neg, run_digits(s, p1, ni) + run_digits(s, fstart, nf), e - nf), end))
    } else if p1 < s.len() && s[p1] == '.' {
        let nf = digit_count(s, p1 + 1);
        if nf == 0 {
            None
        } else {
            let p4 = p1 + 1 + nf;
            let (e, end) = spec_lex_exp(s, p4);
            Some((canon(neg, run_digits(s, p1 + 1, nf), e - nf), end))
        }
    } else {
        None
    }
}

/// A whole token read as a number: the float-literal grammar must consume
/// every character of the token.
pub open spec fn spec_number(tok: Seq<char>) -> Option<NumV> {
    match spec_lex_float(tok, 0) {
        Some((n, end)) => if end == tok.len() {
            Some(n)
        } else {
            None
        },
        None => None,
    }
}

/// Scans the digit run starting at `from`, appending each digit value to
/// `out`; returns the position after the run.
fn scan_digits(input: &Vec<char>, from: usize, out: &mut Vec<u8>) -> (end: usize)
    requires
        from <= input@.len(),
    ensures
        from <= end <= input@.len(),
        end - from == digit_count(input@, from as int),
        final(out)@ == old(out)@ + run_digits(input@, from as int, digit_count(input@, from as int)),
        forall|i: int| old(out)@.len() <= i < final(out)@.len() ==> final(out)@[i] < 10,
{
    let ghost s = input@;
    let n = input.len();
    let mut p = from;
    proof {
        assert(out@ =~= old(out)@ + run_digits(s, from as int, 0));
    }
    while p < n && 48 <= input[p] as u32 && input[p] as u32 <= 57
        invariant
            from <= p <= n,
            n == s.len(),
            s == input@,
            digit_count(s, from as int) == (p - from) + digit_count(s, p as int),
            out@ == old(out)@ + run_digits(s, from as int, (p - from) as nat),
            forall|i: int| old(out)@.len() <= i < out@.len() ==> out@[i] < 10,
        decreases n - p,
    {
        proof {
            assert(is_digit(s[p as int]));
            assert(out@.push(char_digit(s[p as int])) =~= old(out)@ + run_digits(
                s,
                from as int,
                (p + 1 - from) as nat,
            ));
        }
        out.push((input[p] as u32 - 48) as u8);
        p = p + 1;
    }
    proof {
        assert(digit_count(s, p as int) == 0);
    }
    p
}

/// Reads an exponent marker at `pos` as [`spec_lex_exp`] describes.
fn lex_exp(input: &Vec<char>, pos: usize) -> (r: (i128, usize))
    requires
        pos <= input@.len(),
    ensures
        r.0 == spec_lex_exp(input@, pos as int).0,
        r.1 as int == spec_lex_exp(input@, pos as int).1,
        pos <= r.1 <= input@.len(),
        -10 * EXP_SAT < r.0 < 10 * EXP_SAT,
{
    let ghost s = input@;
    let n = input.len();
    if pos < n && (input[pos] == 'e' || input[pos] == 'E') {
        let (eneg, q): (bool, usize) = if pos + 1 < n && (input[pos + 1] == '-' || input[pos + 1]
            == '+') {
            (input[pos + 1] == '-', pos + 2)
        } else {
            (false, pos + 1)
        };
        let mut ds: Vec<u8> = Vec::new();
        let qe = scan_digits(input, q, &mut ds);
        if qe == q {
            (0, pos)
        } else {
            let ghost full = ds@;
            let ne = qe - q;
            let mut acc: i128 = 0;
            let mut i: usize = 0;
            proof {
                assert(full =~= run_digits(s, q as int, (ne) as nat));
                assert(full.take(0) =~= Seq::<u8>::empty());
            }
            while i < ne
                invariant
                    i <= ne,
                    ne == ds@.len(),
                    ds@ == full,
                    forall|j: int| 0 <= j < full.len() ==> full[j] < 10,
                    acc == exp_acc(full.take(i as int)),
                    0 <= acc < 10 * EXP_SAT,
                decreases ne - i,
            {
                proof {
                    assert(full.take(i + 1).drop_last() =~= full.take(i as int));
                    assert(full.take(i + 1).last() == full[i as int]);
                }
                if acc < EXP_SAT {
                    acc = acc * 10 + ds[i] as i128;
                }
                i = i + 1;
            }
            proof {
                assert(full.take(ne as int) =~= full);
            }
            (if eneg { -acc } else { acc }, qe)
        }
    } else {
        (0, pos)
    }
}

impl Number {
    /// Reads one float literal starting at `pos`, per [`spec_lex_float`].
    #[verifier::rlimit(50)]
    pub fn lex(input: &Vec<char>, pos: usize) -> (r: Option<(Number, usize)>)
        requires
            pos <= input@.len(),
        ensures
            match (r, spec_lex_float(input@, pos as int)) {
                (Some((num, end)), Some((nv, endv))) => {
                    &&& num@ == nv
                    &&& num.wf()
                    &&& end as int == endv
                    &&& pos < end <= input@.len()
                    &&& -0x2_0000_0000_0000_0000 <= nv.exp <= 0x2_0000_0000_0000_0000
                },
                (None, None) => true,
                _ => false,
            },
    {
        let ghost s = input@;
        let n = input.len();
        let (neg, p1): (bool, usize) = if pos < n && (input[pos] == '-' || input[pos] == '+') {
            (input[pos] == '-', pos + 1)
        } else {
            (false, pos)
        };
        let mut all: Vec<u8> = Vec::new();
        let p2 = scan_digits(input, p1, &mut all);
        let ni = p2 - p1;
        if ni > 0 {
            let (nf, p4): (usize, usize) = if p2 < n && input[p2] == '.' {
                let p3 = scan_digits(input, p2 + 1, &mut all);
                (p3 - (p2 + 1), p3)
            } else {
                (0, p2)
            };
            let (e, end) = lex_exp(input, p4);
            let num = canon_exec(neg, &all, e - nf as i128);
            Some((num, end))
        } else if p1 < n && input[p1] == '.' {
            let p3 = scan_digits(input, p1 + 1, &mut all);
            let nf = p3 - (p1 + 1);
            if nf == 0 {
                None
            } else {
                let (e, end) = lex_exp(input, p3);
                let num = canon_exec(neg, &all, e - nf as i128);
                Some((num, end))
            }
        } else {
            None
        }
    }

    /// Reads a whole token as a number, per [`spec_number`].
    pub fn parse(tok: &Vec<char>) -> (r: Option<Number>)
        ensures
            match (r, spec_number(tok@)) {
                (Some(num), Some(nv)) => num@ == nv && num.wf() && -0x2_0000_0000_0000_0000
                    <= nv.exp <= 0x2_0000_0000_0000_0000,
                (None, None) => true,
                _ => false,
            },
    {
        match Self::lex(tok, 0) {
            Some((num, end)) => if end == tok.len() {
                Some(num)
            } else {
                None
            },
            None => None,
        }
    }
}

/// Whether the magnitude of `n` is at most the non-negative integer `b`,
/// stated exactly over the value `digits * 10^exp`.
pub open spec fn abs_le(n: NumV, b: int) -> bool {
    if n.exp >= 0 {
        digits_val(n.digits) * pow(10, n.exp as nat) <= b
    } else {
        digits_val(n.digits) <= b * pow(10, (-n.exp) as nat)
    }
}

/// A valid latitude: `-90 <= value <= 90`.
pub open spec fn in_lat_range(n: NumV) -> bool {
    abs_le(n, 90)
}

/// A valid longitude: `-180 <= value <= 180`.
pub open spec fn in_lng_range(n: NumV) -> bool {
    abs_le(n, 180)
}

proof fn lemma_digits_val_bounds(s: Seq<u8>)
    requires
        forall|i: int| 0 <= i < s.len() ==> s[i] < 10,
    ensures
        0 <= digits_val(s) < pow(10, s.len()),
    decreases s.len(),
{
    reveal(pow);
    if s.len() == 0 {
        assert(pow(10, 0) == 1);
    } else {
        let b = s.drop_last();
        lemma_digits_val_bounds(b);
        assert(pow(10, s.len()) == 10 * pow(10, b.len())) by {
            lemma_pow_adds(10, 1, b.len());
            assert(pow(10, 1) == 10 * pow(10, 0));
        }
    }
}

proof fn lemma_digits_val_first(s: Seq<u8>)
    requires
        forall|i: int| 0 <= i < s.len() ==> s[i] < 10,
        s.len() > 0,
        s[0] != 0,
    ensures
        digits_val(s) >= pow(10, (s.len() - 1) as nat),
    decreases s.len(),
{
    reveal(pow);
    let b = s.drop_last();
    if s.len() == 1 {
        assert(digits_val(b) == 0);
        assert(pow(10, 0) == 1);
    } else {
        lemma_digits_val_first(b);
        lemma_digits_val_bounds(b);
        assert(pow(10, (s.len() - 1) as nat) == 10 * pow(10, (b.len() - 1) as nat)) by {
            lemma_pow_adds(10, 1, (b.len() - 1) as nat);
            assert(pow(10, 1) == 10 * pow(10, 0));
        }
    }
}

proof fn lemma_digits_val_split(a: Seq<u8>, b: Seq<u8>)
    ensures
        digits_val(a + b) == digits_val(a) * pow(10, b.len()) + digits_val(b),
    decreases b.len(),
{
    reveal(pow);
    if b.len() == 0 {
        assert(a + b =~= a);
        assert(pow(10, 0) == 1);
    } else {
        let b2 = b.drop_last();
        lemma_digits_val_split(a, b2);
        assert((a + b).drop_last() =~= a + b2);
        assert((a + b).last() == b.last());
        assert(pow(10, b.len()) == pow(10, b2.len()) * 10) by {
            lemma_pow_adds(10, b2.len(), 1);
            assert(pow(10, 1) == 10 * pow(10, 0));
        }
        lemma_mul_is_associative(digits_val(a), pow(10, b2.len()), 10);
    }
}

proof fn lemma_digits_val_last_pos(s: Seq<u8>)
    requires
        forall|i: int| 0 <= i < s.len() ==> s[i] < 10,
        s.len() > 0,
        s.last() != 0,
    ensures
        digits_val(s) >= 1,
{
    lemma_digits_val_bounds(s.drop_last());
}

proof fn lemma_zeros_val(s: Seq<u8>)
    requires
        forall|i: int| 0 <= i < s.len() ==> s[i] == 0,
    ensures
        digits_val(s) == 0,
    decreases s.len(),
{
    if s.len() > 0 {
        lemma_zeros_val(s.drop_last());
    }
}

/// Magnitude exceeds the bound when there are more integer digits than the
/// bound has.
proof fn lemma_abs_le_big(n: NumV, b: int, k: nat)
    requires
        num_wf(n),
        n.digits.len() > 0,
        n.digits.len() + n.exp > k,
        0 <= b < pow(10, k),
    ensures
        !abs_le(n, b),
{
    let len = n.digits.len();
    let d = digits_val(n.digits);
    lemma_digits_val_first(n.digits);
    lemma_pow_positive(10, k);
    if n.exp >= 0 {
        let e = n.exp as nat;
        lemma_pow_positive(10, e);
        lemma_mul_inequality(pow(10, (len - 1) as nat), d, pow(10, e));
        lemma_pow_adds(10, (len - 1) as nat, e);
        lemma_pow_increases(10, k, (len - 1 + e) as nat);
        assert(pow(10, ((len - 1) as nat + e) as nat) == pow(10, (len - 1 + e) as nat));
        assert(d * pow(10, e) >= pow(10, k));
    } else {
        let m = (-n.exp) as nat;
        lemma_pow_positive(10, m);
        lemma_pow_adds(10, k, m);
        lemma_pow_increases(10, (k + m) as nat, (len - 1) as nat);
        lemma_mul_inequality(b + 1, pow(10, k), pow(10, m));
        assert((b + 1) * pow(10, m) == b * pow(10, m) + pow(10, m)) by (nonlinear_arith);
        assert(d > b * pow(10, m));
    }
}

/// Magnitude is within the bound when it has fewer integer digits than the
/// bound's lower limit.
proof fn lemma_abs_le_small(n: NumV, b: int, k: nat)
    requires
        num_wf(n),
        k >= 1,
        n.digits.len() + n.exp < k,
        pow(10, (k - 1) as nat) <= b,
    ensures
        abs_le(n, b),
{
    let len = n.digits.len();
    let d = digits_val(n.digits);
    lemma_digits_val_bounds(n.digits);
    if n.exp >= 0 {
        let e = n.exp as nat;
        lemma_pow_positive(10, e);
        lemma_mul_inequality(d, pow(10, len) - 1, pow(10, e));
        lemma_pow_adds(10, len, e);
        lemma_pow_increases(10, (len + e) as nat, (k - 1) as nat);
        assert((pow(10, len) - 1) * pow(10, e) == pow(10, len) * pow(10, e) - pow(10, e))
            by (nonlinear_arith);
        assert(d * pow(10, e) <= pow(10, (len + e) as nat) - 1);
    } else {
        let m = (-n.exp) as nat;
        lemma_pow_positive(10, m);
        lemma_pow_adds(10, (k - 1) as nat, m);
        lemma_pow_increases(10, len, ((k - 1) as nat + m) as nat);
        lemma_mul_inequality(pow(10, (k - 1) as nat), b, pow(10, m));
        assert(d < pow(10, len));
        assert(pow(10, len) <= pow(10, ((k - 1) as nat + m) as nat));
        assert(d <= b * pow(10, m));
    }
}

/// The first `k` digit positions of `n`, padded with zeros on the right.
spec fn lead_digits(n: NumV, k: nat) -> Seq<u8> {
    Seq::new(k, |i: int| if i < n.digits.len() { n.digits[i] } else { 0 })
}

/// With exactly `k` integer digits, comparing against a `k`-digit bound
/// comes down to the padded leading digits and, at equality, to whether
/// any significant digit remains beyond them.
#[verifier::rlimit(50)]
proof fn lemma_abs_le_edge(n: NumV, b: int, k: nat)
    requires
        num_wf(n),
        n.digits.len() > 0,
        n.digits.len() + n.exp == k,
        0 <= b < pow(10, k),
    ensures
        abs_le(n, b) == ({
            let p = digits_val(lead_digits(n, k));
            if p < b {
                true
            } else if p > b {
                false
            } else {
                n.digits.len() <= k
            }
        }),
{
    let len = n.digits.len();
    let d = digits_val(n.digits);
    let p = digits_val(lead_digits(n, k));
    if n.exp >= 0 {
        // len <= k: the padded digits are exactly digits * 10^exp.
        let e = n.exp as nat;
        let z = Seq::new(e, |i: int| 0u8);
        assert(lead_digits(n, k) =~= n.digits + z);
        lemma_digits_val_split(n.digits, z);
        lemma_zeros_val(z);
        assert(p == d * pow(10, e));
    } else {
        // len > k: digits split into the leading k and a nonzero remainder.
        let m = (-n.exp) as nat;
        let hi = n.digits.take(k as int);
        let lo = n.digits.skip(k as int);
        assert(n.digits =~= hi + lo);
        assert(lead_digits(n, k) =~= hi);
        lemma_digits_val_split(hi, lo);
        assert(lo.len() == m);
        lemma_digits_val_bounds(lo);
        assert(lo.last() == n.digits.last());
        lemma_digits_val_last_pos(lo);
        let r = digits_val(lo);
        assert(d == p * pow(10, m) + r);
        lemma_pow_positive(10, m);
        if p < b {
            lemma_mul_inequality(p, b - 1, pow(10, m));
            assert(d <= (b - 1) * pow(10, m) + (pow(10, m) - 1));
            assert((b - 1) * pow(10, m) + pow(10, m) == b * pow(10, m)) by {
                lemma_mul_basics_helper(b, pow(10, m));
            }
        } else {
            lemma_mul_inequality(b, p, pow(10, m));
        }
    }
}

proof fn lemma_mul_basics_helper(b: int, q: int)
    ensures
        (b - 1) * q + q == b * q,
{
    assert((b - 1) * q == b * q - q) by (nonlinear_arith);
}

impl Number {
    /// Whether the magnitude of this number is at most `b`, where `b` is a
    /// `k`-digit positive integer bound.
    pub fn abs_le_bound(&self, b: u32, k: usize) -> (r: bool)
        requires
            self.wf(),
            1 <= k <= 4,
            pow(10, (k - 1) as nat) <= b as int,
            (b as int) < pow(10, k as nat),
            -0x2_0000_0000_0000_0000 <= self@.exp <= 0x2_0000_0000_0000_0000,
        ensures
            r == abs_le(self@, b as int),
    {
        let len = self.digits.len();
        if len == 0 {
            proof {
                reveal(pow);
                lemma_pow_positive(10, (k - 1) as nat);
                assert(digits_val(self@.digits) == 0);
                assert(pow(10, 0) == 1);
            }
            return true;
        }
        let l: i128 = len as i128 + self.exp;
        if l > k as i128 {
            proof {
                lemma_abs_le_big(self@, b as int, k as nat);
            }
            false
        } else if l < k as i128 {
            proof {
                lemma_pow_positive(10, (k - 1) as nat);
                lemma_abs_le_small(self@, b as int, k as nat);
            }
            true
        } else {
            let ghost pad = lead_digits(self@, k as nat);
            proof {
                lemma_pow10_small();
                assert(pad.take(0) =~= Seq::<u8>::empty());
            }
            let mut p: u32 = 0;
            let mut i: usize = 0;
            while i < k
                invariant
                    i <= k <= 4,
                    len == self@.digits.len(),
                    self.wf(),
                    pad == lead_digits(self@, k as nat),
                    p == digits_val(pad.take(i as int)),
                    p < pow(10, i as nat),
                    pow(10, 3) == 1000,
                    pow(10, 4) == 10000,
                decreases k - i,
            {
                proof {
                    assert(pad.take(i + 1).drop_last() =~= pad.take(i as int));
                    assert(pad.take(i + 1).last() == pad[i as int]);
                    lemma_pow_increases(10, i as nat, 3);
                    assert(pow(10, (i + 1) as nat) == 10 * pow(10, i as nat)) by {
                        reveal(pow);
                        lemma_pow_adds(10, 1, i as nat);
                        assert(pow(10, 1) == 10 * pow(10, 0));
                    }
                }
                let d: u8 = if i < len {
                    self.digits[i]
                } else {
                    0
                };
                p = p * 10 + d as u32;
                i = i + 1;
            }
            proof {
                assert(pad.take(k as int) =~= pad);
                lemma_abs_le_edge(self@, b as int, k as nat);
            }
            if p < b {
                true
            } else if p > b {
                false
            } else {
                len <= k
            }
        }
    }

    /// Whether this number is a valid latitude: `-90 <= value <= 90`.
    pub fn lat_ok(&self) -> (r: bool)
        requires
            self.wf(),
            -0x2_0000_0000_0000_0000 <= self@.exp <= 0x2_0000_0000_0000_0000,
        ensures
            r == in_lat_range(self@),
    {
        proof {
            lemma_pow10_small();
        }
        self.abs_le_bound(90, 2)
    }

    /// Whether this number is a valid longitude: `-180 <= value <= 180`.
    pub fn lng_ok(&self) -> (r: bool)
        requires
            self.wf(),
            -0x2_0000_0000_0000_0000 <= self@.exp <= 0x2_0000_0000_0000_0000,
        ensures
            r == in_lng_range(self@),
    {
        proof {
            lemma_pow10_small();
        }
        self.abs_le_bound(180, 3)
    }
}

proof fn lemma_pow10_small()
    ensures
        pow(10, 0) == 1,
        pow(10, 1) == 10,
        pow(10, 2) == 100,
        pow(10, 3) == 1000,
        pow(10, 4) == 10000,
{
    reveal_with_fuel(pow, 5);
    assert(pow(10, 1) == 10 * pow(10, 0));
    assert(pow(10, 2) == 10 * pow(10, 1));
    assert(pow(10, 3) == 10 * pow(10, 2));
    assert(pow(10, 4) == 10 * pow(10, 3));
}

} // verus!
