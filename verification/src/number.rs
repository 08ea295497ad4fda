//! Exact decimal numbers as they are written in formula text.
//!
//! A formula's constants, interval bounds and probability thresholds are kept
//! as the decimal the author wrote: a sign, the significant digits, and a power
//! of ten. Two literals that denote the same value have the same
//! representation, because the digits carry neither leading nor trailing zeros.
use vstd::prelude::*;
use crate::text::{int_text, push_char, push_int};

verus! {

/// `10^e`.
pub open spec fn pow10(e: nat) -> nat
    decreases e,
{
    if e == 0 {
        1
    } else {
        10 * pow10((e - 1) as nat)
    }
}

/// The value of a big-endian sequence of decimal digits.
pub open spec fn digits_value(d: Seq<u8>) -> nat
    decreases d.len(),
{
    if d.len() == 0 {
        0
    } else {
        digits_value(d.drop_last()) * 10 + d.last() as nat
    }
}

/// Every entry is a decimal digit.
pub open spec fn all_digits(d: Seq<u8>) -> bool {
    forall|i: int| 0 <= i < d.len() ==> #[trigger] d[i] < 10
}

/// The largest exponent magnitude a literal's exponent part is read up to;
/// larger exponents are held at this bound.
pub const EXPONENT_CAP: u64 = 1_000_000_000_000;

/// The exponents a well-formed decimal may carry.
pub open spec fn exponent_in_range(e: int) -> bool {
    -0x1_0000_0000_0000_0000_0000_0000 < e < 0x1_0000_0000_0000_0000_0000_0000
}

/// The mathematical reading of a [`Decimal`]: `(-1)^negative * digits * 10^exponent`.
pub struct SpecDecimal {
    pub negative: bool,
    pub digits: Seq<u8>,
    pub exponent: int,
}

/// A decimal number: a sign, significant digits, and a power of ten.
#[derive(Debug, PartialEq, Eq)]
pub struct Decimal {
    negative: bool,
    digits: Vec<u8>,
    exponent: i128,
}

impl View for Decimal {
    type V = SpecDecimal;

    closed spec fn view(&self) -> SpecDecimal {
        SpecDecimal { negative: self.negative, digits: self.digits@, exponent: self.exponent as int }
    }
}

impl Decimal {
    /// Every decimal has the canonical shape.
    #[verifier::type_invariant]
    pub open spec fn shape(&self) -> bool {
        spec_decimal_wf(self@)
    }
}

impl Clone for Decimal {
    fn clone(&self) -> (r: Decimal)
        ensures
            r@ == self@,
    {
        proof {
            use_type_invariant(self);
        }
        Decimal { negative: self.negative, digits: self.digits.clone(), exponent: self.exponent }
    }
}

/// The canonical shape: digits only, no leading or trailing zero, and zero
/// written with no digits and exponent zero.
pub open spec fn spec_decimal_wf(d: SpecDecimal) -> bool {
    &&& all_digits(d.digits)
    &&& d.digits.len() > 0 ==> d.digits[0] != 0 && d.digits.last() != 0
    &&& d.digits.len() == 0 ==> d.exponent == 0
    &&& exponent_in_range(d.exponent)
}

/// Whether `|d| >= t` for a natural number `t`.
pub open spec fn magnitude_at_least(d: SpecDecimal, t: nat) -> bool {
    if d.exponent >= 0 {
        digits_value(d.digits) * pow10(d.exponent as nat) >= t
    } else {
        digits_value(d.digits) >= t * pow10((-d.exponent) as nat)
    }
}

/// The decimal digits of `2^1024 - 2^970`, the least value that a binary64
/// conversion with round-to-nearest-even carries to infinity.
pub const F64_OVERFLOW_DIGITS: [u8; 309] = [
    1, 7, 9, 7, 6, 9, 3, 1, 3, 4, 8, 6, 2, 3, 1, 5, 8, 0, 7, 9, 3, 7, 2, 8, 9, 7, 1, 4, 0, 5, 3,
    0, 3, 4, 1, 5, 0, 7, 9, 9, 3, 4, 1, 3, 2, 7, 1, 0, 0, 3, 7, 8, 2, 6, 9, 3, 6, 1, 7, 3, 7, 7,
    8, 9, 8, 0, 4, 4, 4, 9, 6, 8, 2, 9, 2, 7, 6, 4, 7, 5, 0, 9, 4, 6, 6, 4, 9, 0, 1, 7, 9, 7, 7,
    5, 8, 7, 2, 0, 7, 0, 9, 6, 3, 3, 0, 2, 8, 6, 4, 1, 6, 6, 9, 2, 8, 8, 7, 9, 1, 0, 9, 4, 6, 5,
    5, 5, 5, 4, 7, 8, 5, 1, 9, 4, 0, 4, 0, 2, 6, 3, 0, 6, 5, 7, 4, 8, 8, 6, 7, 1, 5, 0, 5, 8, 2,
    0, 6, 8, 1, 9, 0, 8, 9, 0, 2, 0, 0, 0, 7, 0, 8, 3, 8, 3, 6, 7, 6, 2, 7, 3, 8, 5, 4, 8, 4, 5,
    8, 1, 7, 7, 1, 1, 5, 3, 1, 7, 6, 4, 4, 7, 5, 7, 3, 0, 2, 7, 0, 0, 6, 9, 8, 5, 5, 5, 7, 1, 3,
    6, 6, 9, 5, 9, 6, 2, 2, 8, 4, 2, 9, 1, 4, 8, 1, 9, 8, 6, 0, 8, 3, 4, 9, 3, 6, 4, 7, 5, 2, 9,
    2, 7, 1, 9, 0, 7, 4, 1, 6, 8, 4, 4, 4, 3, 6, 5, 5, 1, 0, 7, 0, 4, 3, 4, 2, 7, 1, 1, 5, 5, 9,
    6, 9, 9, 5, 0, 8, 0, 9, 3, 0, 4, 2, 8, 8, 0, 1, 7, 7, 9, 0, 4, 1, 7, 4, 4, 9, 7, 7, 9, 2,
];

/// `2^1024 - 2^970`: a decimal literal whose magnitude reaches this value
/// reads as infinity in binary64.
pub open spec fn f64_overflow_bound() -> nat {
    digits_value(F64_OVERFLOW_DIGITS@)
}

// ---------------------------------------------------------------------------
// Facts about digit sequences.

pub proof fn lemma_pow10_positive(e: nat)
    ensures
        pow10(e) >= 1,
    decreases e,
{
    if e > 0 {
        lemma_pow10_positive((e - 1) as nat);
    }
}

pub proof fn lemma_pow10_add(a: nat, b: nat)
    ensures
        pow10(a + b) == pow10(a) * pow10(b),
    decreases b,
{
    if b == 0 {
        assert(pow10(a) * 1 == pow10(a));
    } else {
        lemma_pow10_add(a, (b - 1) as nat);
        assert((a + b - 1) as nat == (a + (b - 1) as nat));
        let pa = pow10(a);
        let pb1 = pow10((b - 1) as nat);
        assert(10 * (pa * pb1) == pa * (10 * pb1)) by (nonlinear_arith);
    }
}

pub proof fn lemma_pow10_monotone(a: nat, b: nat)
    requires
        a <= b,
    ensures
        pow10(a) <= pow10(b),
{
    lemma_pow10_add(a, (b - a) as nat);
    lemma_pow10_positive((b - a) as nat);
    lemma_pow10_positive(a);
    let pa = pow10(a);
    let pd = pow10((b - a) as nat);
    assert(pa <= pa * pd) by (nonlinear_arith)
        requires
            pd >= 1,
    ;
    assert((a + (b - a) as nat) as nat == b);
}

pub proof fn lemma_digits_value_append(a: Seq<u8>, b: Seq<u8>)
    ensures
        digits_value(a + b) == digits_value(a) * pow10(b.len()) + digits_value(b),
    decreases b.len(),
{
    if b.len() == 0 {
        assert(a + b =~= a);
        assert(digits_value(a) * 1 == digits_value(a));
    } else {
        let bd = b.drop_last();
        assert((a + b).drop_last() =~= a + bd);
        assert((a + b).last() == b.last());
        lemma_digits_value_append(a, bd);
        let va = digits_value(a);
        let vb = digits_value(bd);
        let p = pow10(bd.len());
        assert((va * p + vb) * 10 + b.last() as nat == va * (10 * p) + (vb * 10 + b.last() as nat))
            by (nonlinear_arith);
        assert(bd.len() + 1 == b.len());
    }
}

pub proof fn lemma_digits_value_bound(d: Seq<u8>)
    requires
        all_digits(d),
    ensures
        digits_value(d) < pow10(d.len()),
    decreases d.len(),
{
    if d.len() > 0 {
        let dd = d.drop_last();
        assert(all_digits(dd)) by {
            assert forall|i: int| 0 <= i < dd.len() implies #[trigger] dd[i] < 10 by {
                assert(dd[i] == d[i]);
            }
        }
        lemma_digits_value_bound(dd);
        assert(d.last() < 10) by {
            assert(d[d.len() - 1] < 10);
        }
    }
}

pub proof fn lemma_digits_value_lower(d: Seq<u8>)
    requires
        d.len() > 0,
        d[0] >= 1,
    ensures
        digits_value(d) >= pow10((d.len() - 1) as nat),
    decreases d.len(),
{
    if d.len() == 1 {
        assert(d.drop_last().len() == 0);
    } else {
        let dd = d.drop_last();
        assert(dd[0] == d[0]);
        lemma_digits_value_lower(dd);
    }
}

pub proof fn lemma_digits_value_zeros(n: nat)
    ensures
        digits_value(Seq::new(n, |i: int| 0u8)) == 0,
    decreases n,
{
    if n > 0 {
        let z = Seq::new(n, |i: int| 0u8);
        assert(z.drop_last() =~= Seq::new((n - 1) as nat, |i: int| 0u8));
        lemma_digits_value_zeros((n - 1) as nat);
    }
}

/// Two digit sequences of one length compare by value as they compare at
/// their first difference.
pub proof fn lemma_digits_value_first_difference(a: Seq<u8>, b: Seq<u8>, i: int)
    requires
        a.len() == b.len(),
        all_digits(a),
        all_digits(b),
        0 <= i < a.len(),
        forall|j: int| 0 <= j < i ==> a[j] == b[j],
        a[i] < b[i],
    ensures
        digits_value(a) < digits_value(b),
{
    let p = a.subrange(0, i);
    let ra = a.subrange(i + 1, a.len() as int);
    let rb = b.subrange(i + 1, b.len() as int);
    assert(p =~= b.subrange(0, i));
    assert(a =~= (p + seq![a[i]]) + ra);
    assert(b =~= (p + seq![b[i]]) + rb);
    lemma_digits_value_append(p + seq![a[i]], ra);
    lemma_digits_value_append(p + seq![b[i]], rb);
    lemma_digits_value_append(p, seq![a[i]]);
    lemma_digits_value_append(p, seq![b[i]]);
    assert(seq![a[i]].drop_last() =~= Seq::<u8>::empty());
    assert(seq![b[i]].drop_last() =~= Seq::<u8>::empty());
    reveal_with_fuel(digits_value, 2);
    reveal_with_fuel(pow10, 2);
    assert(digits_value(seq![a[i]]) == a[i] as nat);
    assert(digits_value(seq![b[i]]) == b[i] as nat);
    assert(pow10(1) == 10);
    assert(all_digits(ra)) by {
        assert forall|j: int| 0 <= j < ra.len() implies #[trigger] ra[j] < 10 by {
            assert(ra[j] == a[i + 1 + j]);
        }
    }
    lemma_digits_value_bound(ra);
    let k = pow10(ra.len());
    let vp = digits_value(p);
    let x = a[i] as nat;
    let y = b[i] as nat;
    let va = digits_value(ra);
    let vb = digits_value(rb);
    assert(ra.len() == rb.len());
    assert((vp * 10 + x) * k + va < (vp * 10 + y) * k + vb) by (nonlinear_arith)
        requires
            x < y,
            va < k,
    ;
}

proof fn lemma_overflow_digits_shape()
    ensures
        F64_OVERFLOW_DIGITS@.len() == 309,
        all_digits(F64_OVERFLOW_DIGITS@),
        F64_OVERFLOW_DIGITS@[0] == 1,
{
    assert(all_digits(F64_OVERFLOW_DIGITS@)) by {
        assert forall|i: int| 0 <= i < 309 implies #[trigger] F64_OVERFLOW_DIGITS@[i] < 10 by {
            assert(F64_OVERFLOW_DIGITS@[i] == F64_OVERFLOW_DIGITS[i]);
        }
    }
}

/// The overflow bound lies in `[10^308, 10^309)`.
pub proof fn lemma_overflow_bound_range()
    ensures
        pow10(308) <= f64_overflow_bound() < pow10(309),
{
    lemma_overflow_digits_shape();
    lemma_digits_value_bound(F64_OVERFLOW_DIGITS@);
    lemma_digits_value_lower(F64_OVERFLOW_DIGITS@);
}


/// The decimal digits of `5^1075`; times `10^-1075` they are `2^-1075`,
/// half the least positive binary64 value.
pub const F64_UNDERFLOW_DIGITS: [u8; 752] = [
    2, 4, 7, 0, 3, 2, 8, 2, 2, 9, 2, 0, 6, 2, 3, 2, 7, 2, 0, 8, 8, 2, 8, 4, 3, 9, 6, 4, 3, 4, 1,
    1, 0, 6, 8, 6, 1, 8, 2, 5, 2, 9, 9, 0, 1, 3, 0, 7, 1, 6, 2, 3, 8, 2, 2, 1, 2, 7, 9, 2, 8, 4,
    1, 2, 5, 0, 3, 3, 7, 7, 5, 3, 6, 3, 5, 1, 0, 4, 3, 7, 5, 9, 3, 2, 6, 4, 9, 9, 1, 8, 1, 8, 0,
    8, 1, 7, 9, 9, 6, 1, 8, 9, 8, 9, 8, 2, 8, 2, 3, 4, 7, 7, 2, 2, 8, 5, 8, 8, 6, 5, 4, 6, 3, 3,
    2, 8, 3, 5, 5, 1, 7, 7, 9, 6, 9, 8, 9, 8, 1, 9, 9, 3, 8, 7, 3, 9, 8, 0, 0, 5, 3, 9, 0, 9, 3,
    9, 0, 6, 3, 1, 5, 0, 3, 5, 6, 5, 9, 5, 1, 5, 5, 7, 0, 2, 2, 6, 3, 9, 2, 2, 9, 0, 8, 5, 8, 3,
    9, 2, 4, 4, 9, 1, 0, 5, 1, 8, 4, 4, 3, 5, 9, 3, 1, 8, 0, 2, 8, 4, 9, 9, 3, 6, 5, 3, 6, 1, 5,
    2, 5, 0, 0, 3, 1, 9, 3, 7, 0, 4, 5, 7, 6, 7, 8, 2, 4, 9, 2, 1, 9, 3, 6, 5, 6, 2, 3, 6, 6, 9,
    8, 6, 3, 6, 5, 8, 4, 8, 0, 7, 5, 7, 0, 0, 1, 5, 8, 5, 7, 6, 9, 2, 6, 9, 9, 0, 3, 7, 0, 6, 3,
    1, 1, 9, 2, 8, 2, 7, 9, 5, 5, 8, 5, 5, 1, 3, 3, 2, 9, 2, 7, 8, 3, 4, 3, 3, 8, 4, 0, 9, 3, 5,
    1, 9, 7, 8, 0, 1, 5, 5, 3, 1, 2, 4, 6, 5, 9, 7, 2, 6, 3, 5, 7, 9, 5, 7, 4, 6, 2, 2, 7, 6, 6,
    4, 6, 5, 2, 7, 2, 8, 2, 7, 2, 2, 0, 0, 5, 6, 3, 7, 4, 0, 0, 6, 4, 8, 5, 4, 9, 9, 9, 7, 7, 0,
    9, 6, 5, 9, 9, 4, 7, 0, 4, 5, 4, 0, 2, 0, 8, 2, 8, 1, 6, 6, 2, 2, 6, 2, 3, 7, 8, 5, 7, 3, 9,
    3, 4, 5, 0, 7, 3, 6, 3, 3, 9, 0, 0, 7, 9, 6, 7, 7, 6, 1, 9, 3, 0, 5, 7, 7, 5, 0, 6, 7, 4, 0,
    1, 7, 6, 3, 2, 4, 6, 7, 3, 6, 0, 0, 9, 6, 8, 9, 5, 1, 3, 4, 0, 5, 3, 5, 5, 3, 7, 4, 5, 8, 5,
    1, 6, 6, 6, 1, 1, 3, 4, 2, 2, 3, 7, 6, 6, 6, 7, 8, 6, 0, 4, 1, 6, 2, 1, 5, 9, 6, 8, 0, 4, 6,
    1, 9, 1, 4, 4, 6, 7, 2, 9, 1, 8, 4, 0, 3, 0, 0, 5, 3, 0, 0, 5, 7, 5, 3, 0, 8, 4, 9, 0, 4, 8,
    7, 6, 5, 3, 9, 1, 7, 1, 1, 3, 8, 6, 5, 9, 1, 6, 4, 6, 2, 3, 9, 5, 2, 4, 9, 1, 2, 6, 2, 3, 6,
    5, 3, 8, 8, 1, 8, 7, 9, 6, 3, 6, 2, 3, 9, 3, 7, 3, 2, 8, 0, 4, 2, 3, 8, 9, 1, 0, 1, 8, 6, 7,
    2, 3, 4, 8, 4, 9, 7, 6, 6, 8, 2, 3, 5, 0, 8, 9, 8, 6, 3, 3, 8, 8, 5, 8, 7, 9, 2, 5, 6, 2, 8,
    3, 0, 2, 7, 5, 5, 9, 9, 5, 6, 5, 7, 5, 2, 4, 4, 5, 5, 5, 0, 7, 2, 5, 5, 1, 8, 9, 3, 1, 3, 6,
    9, 0, 8, 3, 6, 2, 5, 4, 7, 7, 9, 1, 8, 6, 9, 4, 8, 6, 6, 7, 9, 9, 4, 9, 6, 8, 3, 2, 4, 0, 4,
    9, 7, 0, 5, 8, 2, 1, 0, 2, 8, 5, 1, 3, 1, 8, 5, 4, 5, 1, 3, 9, 6, 2, 1, 3, 8, 3, 7, 7, 2, 2,
    8, 2, 6, 1, 4, 5, 4, 3, 7, 6, 9, 3, 4, 1, 2, 5, 3, 2, 0, 9, 8, 5, 9, 1, 3, 2, 7, 6, 6, 7, 2,
    3, 6, 3, 2, 8, 1, 2, 5,
];

/// `5^1075`, so that `f64_underflow_digits_value() * 10^-1075 == 2^-1075`.
pub open spec fn f64_underflow_digits_value() -> nat {
    digits_value(F64_UNDERFLOW_DIGITS@)
}

/// Whether `0 < |d| <= 2^-1075`: a magnitude that binary64, rounding to
/// nearest with ties to even, reads as zero (the halfway point `2^-1075`
/// itself goes to the even zero).
pub open spec fn below_binary64_tiny(d: SpecDecimal) -> bool {
    &&& d.digits.len() > 0
    &&& d.exponent < 0
    &&& digits_value(d.digits) * pow10(1075) <= f64_underflow_digits_value() * pow10(
        (-d.exponent) as nat,
    )
}

/// The first 752 digits of `d`, padded with zeros.
pub open spec fn underflow_window(d: SpecDecimal) -> Seq<u8> {
    Seq::new(
        752,
        |j: int|
            if j < d.digits.len() {
                d.digits[j]
            } else {
                0u8
            },
    )
}

/// The character of a decimal digit.
pub open spec fn digit_char(d: u8) -> char {
    ((d as u32) + 48) as char
}

/// `n` zero characters.
pub open spec fn zero_chars(n: nat) -> Seq<char> {
    Seq::new(n, |i: int| '0')
}

/// The characters of a digit sequence.
pub open spec fn digit_chars(d: Seq<u8>) -> Seq<char> {
    d.map_values(|x: u8| digit_char(x))
}

/// The magnitude written out in plain positional notation, without exponent,
/// leading zeros (but one before the point), or trailing fractional zeros.
pub open spec fn render_magnitude(d: SpecDecimal) -> Seq<char> {
    let n = d.digits.len();
    let c = digit_chars(d.digits);
    if n == 0 {
        seq!['0']
    } else if d.exponent >= 0 {
        c + zero_chars(d.exponent as nat)
    } else {
        let k = -d.exponent;
        if k < n {
            c.subrange(0, n - k) + seq!['.'] + c.subrange(n - k, n as int)
        } else {
            seq!['0', '.'] + zero_chars((k - n) as nat) + c
        }
    }
}

/// The decimal written out: a `-` for a negative sign, then the magnitude.
pub open spec fn render_decimal(d: SpecDecimal) -> Seq<char> {
    if d.negative {
        seq!['-'] + render_magnitude(d)
    } else {
        render_magnitude(d)
    }
}

fn push_digit(out: &mut String, d: u8)
    requires
        d < 10,
    ensures
        final(out)@ == old(out)@.push(digit_char(d)),
{
    let c = (d + 48) as char;
    push_char(out, c);
}

fn push_zeros(out: &mut String, n: i128)
    requires
        n >= 0,
    ensures
        final(out)@ == old(out)@ + zero_chars(n as nat),
{
    let mut i: i128 = 0;
    while i < n
        invariant
            0 <= i <= n,
            out@ =~= old(out)@ + zero_chars(i as nat),
        decreases n - i,
    {
        push_char(out, '0');
        i = i + 1;
        assert(out@ =~= old(out)@ + zero_chars(i as nat));
    }
}

fn push_digits(out: &mut String, d: &Vec<u8>, from: usize, to: usize)
    requires
        from <= to <= d@.len(),
        all_digits(d@),
    ensures
        final(out)@ == old(out)@ + digit_chars(d@).subrange(from as int, to as int),
{
    let mut i = from;
    while i < to
        invariant
            from <= i <= to <= d@.len(),
            all_digits(d@),
            out@ =~= old(out)@ + digit_chars(d@).subrange(from as int, i as int),
        decreases to - i,
    {
        push_digit(out, d[i]);
        i = i + 1;
        assert(out@ =~= old(out)@ + digit_chars(d@).subrange(from as int, i as int));
    }
}

proof fn lemma_underflow_digits_shape()
    ensures
        F64_UNDERFLOW_DIGITS@.len() == 752,
        all_digits(F64_UNDERFLOW_DIGITS@),
        F64_UNDERFLOW_DIGITS@[0] == 2,
        pow10(751) <= f64_underflow_digits_value() < pow10(752),
{
    assert(all_digits(F64_UNDERFLOW_DIGITS@)) by {
        assert forall|i: int| 0 <= i < 752 implies #[trigger] F64_UNDERFLOW_DIGITS@[i] < 10 by {
            assert(F64_UNDERFLOW_DIGITS@[i] == F64_UNDERFLOW_DIGITS[i]);
        }
    }
    lemma_digits_value_bound(F64_UNDERFLOW_DIGITS@);
    lemma_digits_value_lower(F64_UNDERFLOW_DIGITS@);
}

/// A decimal whose leading digit sits below `10^-324` is tiny.
proof fn lemma_tiny_below(d: SpecDecimal, span: int)
    requires
        spec_decimal_wf(d),
        d.digits.len() > 0,
        span == d.digits.len() + d.exponent,
        span < -323,
    ensures
        below_binary64_tiny(d),
{
    let n = d.digits.len();
    let k = (-d.exponent) as nat;
    let v = digits_value(d.digits);
    let f = f64_underflow_digits_value();
    lemma_underflow_digits_shape();
    lemma_digits_value_bound(d.digits);
    // v * 10^1075 < 10^(n + 1075) <= 10^(751 + k) <= f * 10^k
    lemma_pow10_add(n, 1075);
    lemma_pow10_add(751, k);
    lemma_pow10_monotone(n + 1075, 751 + k);
    let pn = pow10(n);
    let p1075 = pow10(1075);
    let p751 = pow10(751);
    let pk = pow10(k);
    lemma_pow10_positive(1075);
    assert(v * p1075 < pn * p1075) by (nonlinear_arith)
        requires
            v < pn,
            p1075 >= 1,
    ;
    assert(p751 * pk <= f * pk) by (nonlinear_arith)
        requires
            p751 <= f,
    ;
}

/// A decimal whose leading digit sits at `10^-323` or above is not tiny.
proof fn lemma_tiny_above(d: SpecDecimal, span: int)
    requires
        spec_decimal_wf(d),
        d.digits.len() > 0,
        span == d.digits.len() + d.exponent,
        span > -323,
    ensures
        !below_binary64_tiny(d),
{
    if d.exponent < 0 {
        let n = d.digits.len();
        let n1 = (n - 1) as nat;
        let k = (-d.exponent) as nat;
        let v = digits_value(d.digits);
        let f = f64_underflow_digits_value();
        lemma_underflow_digits_shape();
        lemma_digits_value_lower(d.digits);
        // f * 10^k < 10^(752 + k) <= 10^(n1 + 1075) <= v * 10^1075
        lemma_pow10_add(752, k);
        lemma_pow10_add(n1, 1075);
        lemma_pow10_monotone(752 + k, n1 + 1075);
        let p752 = pow10(752);
        let pk = pow10(k);
        let pn1 = pow10(n1);
        let p1075 = pow10(1075);
        lemma_pow10_positive(k);
        assert(f * pk < p752 * pk) by (nonlinear_arith)
            requires
                f < p752,
                pk >= 1,
        ;
        assert(pn1 * p1075 <= v * p1075) by (nonlinear_arith)
            requires
                pn1 <= v,
        ;
    }
}

/// With the leading digit at `10^-324`, tininess is decided by the first 752
/// digits: below the table, or equal to it with nothing after them.
proof fn lemma_tiny_from_prefix(d: SpecDecimal)
    requires
        spec_decimal_wf(d),
        d.digits.len() > 0,
        d.digits.len() + d.exponent == -323,
    ensures
        below_binary64_tiny(d) == (digits_value(underflow_window(d)) < f64_underflow_digits_value()
            || (digits_value(underflow_window(d)) == f64_underflow_digits_value()
            && d.digits.len() <= 752)),
{
    let n = d.digits.len();
    let k = (-d.exponent) as nat;
    let v = digits_value(d.digits);
    let f = f64_underflow_digits_value();
    let w = underflow_window(d);
    let vw = digits_value(w);
    assert(k == n + 323);
    lemma_pow10_add(752, 323);
    lemma_pow10_add(n, 323);
    let p752 = pow10(752);
    let pn = pow10(n);
    let p323 = pow10(323);
    lemma_pow10_positive(323);
    // tiny <==> v * 10^752 <= f * 10^n
    assert((v * (p752 * p323) <= f * (pn * p323)) == (v * p752 <= f * pn)) by (nonlinear_arith)
        requires
            p323 >= 1,
    {
        assert(v * (p752 * p323) == (v * p752) * p323);
        assert(f * (pn * p323) == (f * pn) * p323);
        if v * p752 <= f * pn {
            assert((v * p752) * p323 <= (f * pn) * p323);
        } else {
            assert((f * pn) * p323 < (v * p752) * p323);
        }
    }
    if n <= 752 {
        let m = (752 - n) as nat;
        let z = Seq::new(m, |i: int| 0u8);
        assert(w =~= d.digits + z);
        lemma_digits_value_append(d.digits, z);
        lemma_digits_value_zeros(m);
        lemma_pow10_add(m, n);
        let pm = pow10(m);
        lemma_pow10_positive(n);
        // v * 10^752 == vw * 10^n
        assert(vw == v * pm);
        assert(v * p752 == vw * pn) by (nonlinear_arith)
            requires
                vw == v * pm,
                p752 == pm * pn,
        ;
        assert((vw * pn <= f * pn) == (vw <= f)) by (nonlinear_arith)
            requires
                pn >= 1,
        {
            if vw <= f {
                assert(vw * pn <= f * pn);
            } else {
                assert(f * pn < vw * pn);
            }
        }
    } else {
        let r = (n - 752) as nat;
        let rest = d.digits.subrange(752, n as int);
        assert(d.digits =~= w + rest);
        lemma_digits_value_append(w, rest);
        assert(all_digits(rest)) by {
            assert forall|j: int| 0 <= j < rest.len() implies #[trigger] rest[j] < 10 by {
                assert(rest[j] == d.digits[752 + j]);
            }
        }
        lemma_digits_value_bound(rest);
        let vr = digits_value(rest);
        assert(rest.last() == d.digits.last());
        assert(vr >= 1) by {
            assert(vr == digits_value(rest.drop_last()) * 10 + rest.last() as nat);
        }
        lemma_pow10_add(752, r);
        assert((752 + r) as nat == n);
        let pr = pow10(r);
        lemma_pow10_positive(752);
        // v == vw * 10^r + vr, 1 <= vr < 10^r; v * 10^752 <= f * 10^752 * 10^r <==> vw < f
        assert(v == vw * pr + vr);
        assert((v * p752 <= f * pn) == (vw < f)) by (nonlinear_arith)
            requires
                v == vw * pr + vr,
                1 <= vr < pr,
                pn == p752 * pr,
                p752 >= 1,
        {
            if vw < f {
                assert(vw + 1 <= f);
                assert(v < (vw + 1) * pr);
                assert((vw + 1) * pr <= f * pr);
                assert(v * p752 < f * pr * p752);
                assert(f * pn == f * pr * p752);
            } else {
                assert(f * pr <= vw * pr);
                assert(f * pr < v);
                assert(f * pr * p752 < v * p752);
                assert(f * pn == f * pr * p752);
            }
        }
    }
}

/// The number as Rust's `Debug` writes a binary64 with these digits:
/// positional with at least one fractional digit when the leading digit's
/// place is between `10^-4` and `10^15` (or the number is zero), otherwise a
/// mantissa with one digit before the point and a power of ten.
pub open spec fn debug_text(d: SpecDecimal) -> Seq<char> {
    let sign = if d.negative {
        seq!['-']
    } else {
        Seq::empty()
    };
    let n = d.digits.len();
    if n == 0 {
        sign + seq!['0', '.', '0']
    } else {
        let lead = n + d.exponent - 1;
        if -4 <= lead <= 15 {
            if d.exponent >= 0 {
                render_decimal(d) + seq!['.', '0']
            } else {
                render_decimal(d)
            }
        } else {
            let c = digit_chars(d.digits);
            let mantissa = if n > 1 {
                c.subrange(0, 1) + seq!['.'] + c.subrange(1, n as int)
            } else {
                c.subrange(0, 1)
            };
            sign + mantissa + seq!['e'] + int_text(lead)
        }
    }
}

/// The sign of a decimal's value: `-1`, `0` or `1`.
pub open spec fn sign_of(d: SpecDecimal) -> int {
    if d.digits.len() == 0 {
        0
    } else if d.negative {
        -1
    } else {
        1
    }
}

/// Whether `|a| > |b|`: both magnitudes scaled by the smaller power of ten.
pub open spec fn magnitude_greater(a: SpecDecimal, b: SpecDecimal) -> bool {
    let m = if a.exponent <= b.exponent {
        a.exponent
    } else {
        b.exponent
    };
    digits_value(a.digits) * pow10((a.exponent - m) as nat) > digits_value(b.digits) * pow10(
        (b.exponent - m) as nat,
    )
}

/// Whether the value of `a` is less than the value of `b`.
pub open spec fn value_less(a: SpecDecimal, b: SpecDecimal) -> bool {
    let sa = sign_of(a);
    let sb = sign_of(b);
    if sa != sb {
        sa < sb
    } else if sa == 0 {
        false
    } else if sa > 0 {
        magnitude_greater(b, a)
    } else {
        magnitude_greater(a, b)
    }
}

/// The decimal `1`.
pub open spec fn spec_one() -> SpecDecimal {
    SpecDecimal { negative: false, digits: seq![1u8], exponent: 0 }
}

/// Padding `d` with zeros to `len` digits scales its value by `10^(len - |d|)`.
proof fn lemma_padded_value(d: Seq<u8>, len: nat)
    requires
        d.len() <= len,
    ensures
        digits_value(
            Seq::new(
                len,
                |j: int|
                    if j < d.len() {
                        d[j]
                    } else {
                        0u8
                    },
            ),
        ) == digits_value(d) * pow10((len - d.len()) as nat),
{
    let z = Seq::new((len - d.len()) as nat, |i: int| 0u8);
    let p = Seq::new(
        len,
        |j: int|
            if j < d.len() {
                d[j]
            } else {
                0u8
            },
    );
    assert(p =~= d + z);
    lemma_digits_value_append(d, z);
    lemma_digits_value_zeros((len - d.len()) as nat);
}

proof fn lemma_padded_all_digits(d: Seq<u8>, len: nat)
    requires
        all_digits(d),
    ensures
        all_digits(
            Seq::new(
                len,
                |j: int|
                    if j < d.len() {
                        d[j]
                    } else {
                        0u8
                    },
            ),
        ),
{
    let p = Seq::new(
        len,
        |j: int|
            if j < d.len() {
                d[j]
            } else {
                0u8
            },
    );
    assert forall|j: int| 0 <= j < p.len() implies #[trigger] p[j] < 10 by {
        if j < d.len() {
            assert(d[j] < 10);
        }
    }
}

/// With unequal spans (digit count plus exponent), the larger span has the
/// larger magnitude.
proof fn lemma_span_order(a: SpecDecimal, b: SpecDecimal)
    requires
        spec_decimal_wf(a),
        spec_decimal_wf(b),
        a.digits.len() > 0,
        b.digits.len() > 0,
        a.digits.len() + a.exponent > b.digits.len() + b.exponent,
    ensures
        magnitude_greater(a, b),
{
    let m = if a.exponent <= b.exponent {
        a.exponent
    } else {
        b.exponent
    };
    let na = a.digits.len();
    let nb = b.digits.len();
    let ka = (a.exponent - m) as nat;
    let kb = (b.exponent - m) as nat;
    let va = digits_value(a.digits);
    let vb = digits_value(b.digits);
    lemma_digits_value_lower(a.digits);
    lemma_digits_value_bound(b.digits);
    let na1 = (na - 1) as nat;
    // va * 10^ka >= 10^(na - 1 + ka) >= 10^(nb + kb) > vb * 10^kb
    lemma_pow10_add(na1, ka);
    lemma_pow10_add(nb, kb);
    lemma_pow10_monotone((nb + kb) as nat, (na1 + ka) as nat);
    let pa = pow10(na1);
    let pka = pow10(ka);
    let pnb = pow10(nb);
    let pkb = pow10(kb);
    lemma_pow10_positive(kb);
    assert(va * pka >= pa * pka) by (nonlinear_arith)
        requires
            va >= pa,
    ;
    assert(vb * pkb < pnb * pkb) by (nonlinear_arith)
        requires
            vb < pnb,
            pkb >= 1,
    ;
}

/// With equal spans, the magnitudes compare as the digits padded to a
/// common length.
proof fn lemma_equal_span_padding(a: SpecDecimal, b: SpecDecimal, len: nat)
    requires
        spec_decimal_wf(a),
        spec_decimal_wf(b),
        a.digits.len() + a.exponent == b.digits.len() + b.exponent,
        len == if a.digits.len() >= b.digits.len() {
            a.digits.len()
        } else {
            b.digits.len()
        },
    ensures
        ({
            let m = if a.exponent <= b.exponent {
                a.exponent
            } else {
                b.exponent
            };
            &&& digits_value(a.digits) * pow10((a.exponent - m) as nat) == digits_value(
                Seq::new(
                    len,
                    |j: int|
                        if j < a.digits.len() {
                            a.digits[j]
                        } else {
                            0u8
                        },
                ),
            )
            &&& digits_value(b.digits) * pow10((b.exponent - m) as nat) == digits_value(
                Seq::new(
                    len,
                    |j: int|
                        if j < b.digits.len() {
                            b.digits[j]
                        } else {
                            0u8
                        },
                ),
            )
        }),
{
    lemma_padded_value(a.digits, len);
    lemma_padded_value(b.digits, len);
}

/// Digit sequences of one length and one value agree from `i` on, when they
/// agree before `i`.
proof fn lemma_equal_value_equal_digits(a: Seq<u8>, b: Seq<u8>, i: int)
    requires
        a.len() == b.len(),
        all_digits(a),
        all_digits(b),
        digits_value(a) == digits_value(b),
        0 <= i <= a.len(),
        forall|j: int| 0 <= j < i ==> a[j] == b[j],
    ensures
        a == b,
    decreases a.len() - i,
{
    if i < a.len() {
        if a[i] < b[i] {
            lemma_digits_value_first_difference(a, b, i);
        } else if b[i] < a[i] {
            lemma_digits_value_first_difference(b, a, i);
        }
        lemma_equal_value_equal_digits(a, b, i + 1);
    } else {
        assert(a =~= b);
    }
}

/// Two canonical decimals of equal value have the same digits and exponent,
/// and, unless they are zero, the same sign: a value has one canonical
/// representation.
pub proof fn lemma_canonical_unique(a: SpecDecimal, b: SpecDecimal)
    requires
        spec_decimal_wf(a),
        spec_decimal_wf(b),
        !value_less(a, b),
        !value_less(b, a),
    ensures
        a.digits == b.digits,
        a.exponent == b.exponent,
        a.digits.len() > 0 ==> a.negative == b.negative,
{
    if a.digits.len() > 0 && b.digits.len() > 0 {
        assert(!magnitude_greater(a, b) && !magnitude_greater(b, a));
        let na = a.digits.len();
        let nb = b.digits.len();
        if na + a.exponent > nb + b.exponent {
            lemma_span_order(a, b);
        } else if nb + b.exponent > na + a.exponent {
            lemma_span_order(b, a);
        } else {
            let len = if na >= nb {
                na
            } else {
                nb
            };
            lemma_equal_span_padding(a, b, len);
            lemma_padded_all_digits(a.digits, len);
            lemma_padded_all_digits(b.digits, len);
            let pa = Seq::new(
                len,
                |j: int|
                    if j < na {
                        a.digits[j]
                    } else {
                        0u8
                    },
            );
            let pb = Seq::new(
                len,
                |j: int|
                    if j < nb {
                        b.digits[j]
                    } else {
                        0u8
                    },
            );
            lemma_equal_value_equal_digits(pa, pb, 0);
            if na > nb {
                assert(pa[na - 1] == pb[na - 1]);
            } else if nb > na {
                assert(pa[nb - 1] == pb[nb - 1]);
            }
            assert(a.digits =~= pa);
            assert(b.digits =~= pb);
        }
    }
}

/// Compares the magnitudes of two canonical decimals with one span by their
/// zero-padded digits.
fn padded_greater(a: &Decimal, b: &Decimal) -> (r: bool)
    requires
        a.wf(),
        b.wf(),
        a@.digits.len() + a@.exponent == b@.digits.len() + b@.exponent,
    ensures
        r == magnitude_greater(a@, b@),
{
    let na = a.digits.len();
    let nb = b.digits.len();
    let len = if na >= nb {
        na
    } else {
        nb
    };
    let ghost pa = Seq::new(
        len as nat,
        |j: int|
            if j < na {
                a@.digits[j]
            } else {
                0u8
            },
    );
    let ghost pb = Seq::new(
        len as nat,
        |j: int|
            if j < nb {
                b@.digits[j]
            } else {
                0u8
            },
    );
    proof {
        lemma_equal_span_padding(a@, b@, len as nat);
        lemma_padded_all_digits(a@.digits, len as nat);
        lemma_padded_all_digits(b@.digits, len as nat);
    }
    let mut i: usize = 0;
    while i < len
        invariant
            0 <= i <= len,
            na == a@.digits.len(),
            nb == b@.digits.len(),
            len == pa.len(),
            len == pb.len(),
            pa == Seq::new(
                len as nat,
                |j: int|
                    if j < na {
                        a@.digits[j]
                    } else {
                        0u8
                    },
            ),
            pb == Seq::new(
                len as nat,
                |j: int|
                    if j < nb {
                        b@.digits[j]
                    } else {
                        0u8
                    },
            ),
            forall|j: int| 0 <= j < i ==> pa[j] == pb[j],
            all_digits(pa),
            all_digits(pb),
            magnitude_greater(a@, b@) == (digits_value(pa) > digits_value(pb)),
        decreases len - i,
    {
        let x: u8 = if i < na {
            a.digits[i]
        } else {
            0
        };
        let y: u8 = if i < nb {
            b.digits[i]
        } else {
            0
        };
        if x != y {
            proof {
                if x > y {
                    lemma_digits_value_first_difference(pb, pa, i as int);
                } else {
                    lemma_digits_value_first_difference(pa, pb, i as int);
                }
            }
            return x > y;
        }
        i = i + 1;
    }
    proof {
        assert(pa =~= pb);
    }
    false
}

impl Decimal {
    /// The decimal `1`.
    pub fn one() -> (r: Decimal)
        ensures
            r.wf(),
            r@ == spec_one(),
    {
        let mut digits: Vec<u8> = Vec::new();
        digits.push(1);
        Decimal { negative: false, digits, exponent: 0 }
    }

    /// Whether `|self| > |other|`.
    pub fn magnitude_exceeds(&self, other: &Decimal) -> (r: bool)
        ensures
            r == magnitude_greater(self@, other@),
    {
        proof {
            use_type_invariant(self);
            use_type_invariant(other);
        }
        let na = self.digits.len();
        let nb = other.digits.len();
        if na == 0 {
            proof {
                lemma_pow10_positive((other@.exponent - (if self@.exponent <= other@.exponent {
                    self@.exponent
                } else {
                    other@.exponent
                })) as nat);
                assert(digits_value(self@.digits) == 0);
            }
            return false;
        }
        if nb == 0 {
            proof {
                let m = if self@.exponent <= other@.exponent {
                    self@.exponent
                } else {
                    other@.exponent
                };
                lemma_pow10_positive((self@.exponent - m) as nat);
                lemma_digits_value_lower(self@.digits);
                lemma_pow10_positive((na - 1) as nat);
                assert(digits_value(other@.digits) == 0);
                let va = digits_value(self@.digits);
                let p = pow10((self@.exponent - m) as nat);
                assert(va * p >= 1) by (nonlinear_arith)
                    requires
                        va >= 1,
                        p >= 1,
                ;
            }
            return true;
        }
        let sa: i128 = na as i128 + self.exponent;
        let sb: i128 = nb as i128 + other.exponent;
        if sa > sb {
            proof {
                lemma_span_order(self@, other@);
            }
            return true;
        }
        if sa < sb {
            proof {
                lemma_span_order(other@, self@);
            }
            return false;
        }
        padded_greater(self, other)
    }

    /// Whether the value of `self` is less than the value of `other`.
    pub fn less_than(&self, other: &Decimal) -> (r: bool)
        ensures
            r == value_less(self@, other@),
    {
        proof {
            use_type_invariant(self);
            use_type_invariant(other);
        }
        let sa: i8 = if self.digits.len() == 0 {
            0
        } else if self.negative {
            -1
        } else {
            1
        };
        let sb: i8 = if other.digits.len() == 0 {
            0
        } else if other.negative {
            -1
        } else {
            1
        };
        if sa != sb {
            sa < sb
        } else if sa == 0 {
            false
        } else if sa > 0 {
            other.magnitude_exceeds(self)
        } else {
            self.magnitude_exceeds(other)
        }
    }

    /// The canonical-shape invariant.
    pub open spec fn wf(&self) -> bool {
        spec_decimal_wf(self@)
    }

    /// Zero.
    pub fn zero() -> (r: Decimal)
        ensures
            r.wf(),
            r@ == (SpecDecimal { negative: false, digits: Seq::empty(), exponent: 0 }),
    {
        let digits: Vec<u8> = Vec::new();
        assert(digits@ =~= Seq::<u8>::empty());
        Decimal { negative: false, digits, exponent: 0 }
    }

    /// Whether the sign is negative.
    pub fn is_negative(&self) -> (r: bool)
        ensures
            r == self@.negative,
    {
        self.negative
    }

    /// Whether the magnitude is zero.
    pub fn is_zero(&self) -> (r: bool)
        ensures
            r == (self@.digits.len() == 0),
    {
        self.digits.len() == 0
    }

    /// The significant digits.
    pub fn digits(&self) -> (r: &Vec<u8>)
        ensures
            r@ == self@.digits,
    {
        &self.digits
    }

    /// The power of ten the digits are scaled by.
    pub fn exponent(&self) -> (r: i128)
        ensures
            r == self@.exponent,
    {
        self.exponent
    }

    /// The same magnitude with the sign flipped.
    pub fn negated(&self) -> (r: Decimal)
        ensures
            r.wf(),
            r@ == (SpecDecimal { negative: !self@.negative, ..self@ }),
    {
        proof {
            use_type_invariant(self);
        }
        Decimal { negative: !self.negative, digits: self.digits.clone(), exponent: self.exponent }
    }

    /// Builds the canonical decimal `(-1)^negative * digits * 10^exponent` from
    /// any digit sequence, dropping leading and trailing zeros.
    pub fn from_parts(negative: bool, digits: &Vec<u8>, exponent: i128) -> (r: Decimal)
        requires
            all_digits(digits@),
            -0x1_0000_0000_0000_0000_0000 < exponent < 0x1_0000_0000_0000_0000_0000,
        ensures
            r.wf(),
            r@ == spec_normalize(negative, digits@, exponent as int),
    {
        let n = digits.len();
        let mut start: usize = 0;
        while start < n && digits[start] == 0
            invariant
                0 <= start <= n,
                n == digits@.len(),
                forall|i: int| 0 <= i < start ==> digits@[i] == 0,
            decreases n - start,
        {
            start = start + 1;
        }
        proof {
            lemma_leading_zeros_count(digits@, start as int);
        }
        if start == n {
            return Decimal { negative, digits: Vec::new(), exponent: 0 };
        }
        let mut end: usize = n;
        while end > start && digits[end - 1] == 0
            invariant
                start < n,
                start < end <= n,
                n == digits@.len(),
                digits@[start as int] != 0,
                forall|i: int| end <= i < n ==> digits@[i] == 0,
            decreases end,
        {
            end = end - 1;
        }
        proof {
            lemma_trailing_zeros_count(digits@.subrange(start as int, n as int), (end - start) as int);
            assert(digits@.subrange(start as int, n as int).subrange(0, (end - start) as int)
                =~= digits@.subrange(start as int, end as int));
        }
        let mut kept: Vec<u8> = Vec::new();
        let mut i = start;
        while i < end
            invariant
                start <= i <= end,
                end <= n,
                n == digits@.len(),
                kept@ =~= digits@.subrange(start as int, i as int),
            decreases end - i,
        {
            kept.push(digits[i]);
            i = i + 1;
        }
        let shift = (n - end) as i128;
        let r = Decimal { negative, digits: kept, exponent: exponent + shift };
        proof {
            assert(all_digits(r@.digits)) by {
                assert forall|j: int| 0 <= j < r@.digits.len() implies #[trigger] r@.digits[j]
                    < 10 by {
                    assert(r@.digits[j] == digits@[start + j]);
                }
            }
        }
        r
    }


    /// Whether `0 < |self| <= 2^-1075`, a magnitude that binary64 reads as
    /// zero.
    pub fn underflows_f64(&self) -> (r: bool)
        ensures
            r == below_binary64_tiny(self@),
    {
        proof {
            use_type_invariant(self);
        }
        let n = self.digits.len();
        if n == 0 {
            return false;
        }
        let span: i128 = n as i128 + self.exponent;
        if span < -323 {
            proof {
                lemma_tiny_below(self@, span as int);
            }
            return true;
        }
        if span > -323 {
            proof {
                lemma_tiny_above(self@, span as int);
            }
            return false;
        }
        let table = F64_UNDERFLOW_DIGITS;
        let ghost window = underflow_window(self@);
        proof {
            lemma_underflow_digits_shape();
            assert(all_digits(window)) by {
                assert forall|j: int| 0 <= j < 752 implies #[trigger] window[j] < 10 by {
                    if j < n {
                        assert(self@.digits[j] < 10);
                    }
                }
            }
            lemma_tiny_from_prefix(self@);
        }
        let mut i: usize = 0;
        while i < 752
            invariant
                0 <= i <= 752,
                self.wf(),
                n > 0,
                n == self@.digits.len(),
                table@ == F64_UNDERFLOW_DIGITS@,
                window == underflow_window(self@),
                all_digits(window),
                all_digits(F64_UNDERFLOW_DIGITS@),
                F64_UNDERFLOW_DIGITS@.len() == 752,
                forall|j: int| 0 <= j < i ==> window[j] == table@[j],
                below_binary64_tiny(self@) == (digits_value(window) < f64_underflow_digits_value()
                    || (digits_value(window) == f64_underflow_digits_value() && n <= 752)),
            decreases 752 - i,
        {
            let d: u8 = if i < n {
                self.digits[i]
            } else {
                0
            };
            if d != table[i] {
                proof {
                    if d > table[i as int] {
                        lemma_digits_value_first_difference(F64_UNDERFLOW_DIGITS@, window, i as int);
                    } else {
                        lemma_digits_value_first_difference(window, F64_UNDERFLOW_DIGITS@, i as int);
                    }
                }
                return d < table[i];
            }
            i = i + 1;
        }
        proof {
            assert(window =~= F64_UNDERFLOW_DIGITS@);
        }
        n <= 752
    }

    /// Appends the decimal, written out in positional notation, to `out`.
    pub fn write_to(&self, out: &mut String)
        ensures
            final(out)@ == old(out)@ + render_decimal(self@),
    {
        proof {
            use_type_invariant(self);
        }
        let ghost start = out@;
        if self.negative {
            push_char(out, '-');
        }
        let ghost signed = out@;
        let n = self.digits.len();
        if n == 0 {
            push_char(out, '0');
        } else if self.exponent >= 0 {
            push_digits(out, &self.digits, 0, n);
            push_zeros(out, self.exponent);
        } else {
            let k: i128 = -self.exponent;
            if k < n as i128 {
                let split = (n as i128 - k) as usize;
                push_digits(out, &self.digits, 0, split);
                push_char(out, '.');
                push_digits(out, &self.digits, split, n);
            } else {
                push_char(out, '0');
                push_char(out, '.');
                push_zeros(out, k - n as i128);
                push_digits(out, &self.digits, 0, n);
            }
        }
        proof {
            let c = digit_chars(self@.digits);
            assert(c.subrange(0, n as int) =~= c);
            assert(out@ =~= start + render_decimal(self@));
        }
    }

    /// The number as Rust's `Debug` writes the binary64 reading of it (for a
    /// literal of at most fifteen significant digits): positional with at
    /// least one fractional digit when `1e-4 <= |x| < 1e16` or `x` is zero,
    /// otherwise in scientific notation such as `1e-7` or `2.5e16`.
    pub fn write_debug(&self, out: &mut String)
        ensures
            final(out)@ == old(out)@ + debug_text(self@),
    {
        proof {
            use_type_invariant(self);
        }
        let ghost start = out@;
        let n = self.digits.len();
        if n == 0 {
            if self.negative {
                push_char(out, '-');
            }
            push_char(out, '0');
            push_char(out, '.');
            push_char(out, '0');
            proof {
                assert(out@ =~= start + debug_text(self@));
            }
            return;
        }
        let lead: i128 = n as i128 + self.exponent - 1;
        if -4 <= lead && lead <= 15 {
            self.write_to(out);
            if self.exponent >= 0 {
                push_char(out, '.');
                push_char(out, '0');
            }
            proof {
                assert(out@ =~= start + debug_text(self@));
            }
        } else {
            if self.negative {
                push_char(out, '-');
            }
            push_digits(out, &self.digits, 0, 1);
            if n > 1 {
                push_char(out, '.');
                push_digits(out, &self.digits, 1, n);
            }
            push_char(out, 'e');
            push_int(out, lead);
            proof {
                assert(out@ =~= start + debug_text(self@));
            }
        }
    }

    /// Whether the magnitude reaches `2^1024 - 2^970`, beyond which a
    /// binary64 reading is infinite.
    pub fn overflows_f64(&self) -> (r: bool)
        ensures
            r == magnitude_at_least(self@, f64_overflow_bound()),
    {
        proof {
            use_type_invariant(self);
        }
        let n = self.digits.len();
        if n == 0 {
            proof {
                assert(digits_value(self@.digits) == 0);
                lemma_overflow_bound_range();
                lemma_pow10_positive(308);
            }
            return false;
        }
        let span: i128 = n as i128 + self.exponent;
        proof {
            lemma_overflow_bound_range();
            lemma_digits_value_bound(self@.digits);
            lemma_digits_value_lower(self@.digits);
        }
        if span < 309 {
            proof {
                lemma_magnitude_below(self@, span as int);
            }
            return false;
        }
        if span > 309 {
            proof {
                lemma_magnitude_above_power(self@, span as int);
            }
            return true;
        }
        let table = F64_OVERFLOW_DIGITS;
        let ghost padded = Seq::new(
            309,
            |j: int|
                if j < n {
                    self@.digits[j]
                } else {
                    0u8
                },
        );
        proof {
            lemma_overflow_digits_shape();
        }
        let mut i: usize = 0;
        while i < 309
            invariant
                0 <= i <= 309,
                self.wf(),
                n > 0,
                span == 309,
                span == n + self@.exponent,
                n == self@.digits.len(),
                table@ == F64_OVERFLOW_DIGITS@,
                forall|j: int| 0 <= j < i ==> padded[j] == table@[j],
                padded == Seq::new(
                    309,
                    |j: int|
                        if j < n {
                            self@.digits[j]
                        } else {
                            0u8
                        },
                ),
            decreases 309 - i,
        {
            let d: u8 = if i < n {
                self.digits[i]
            } else {
                0
            };
            if d != table[i] {
                proof {
                    lemma_padded_digits(self@);
                    if d > table[i as int] {
                        lemma_digits_value_first_difference(F64_OVERFLOW_DIGITS@, padded, i as int);
                    } else {
                        lemma_digits_value_first_difference(padded, F64_OVERFLOW_DIGITS@, i as int);
                    }
                    lemma_magnitude_from_prefix(self@);
                }
                return d > table[i];
            }
            i = i + 1;
        }
        proof {
            assert(padded =~= F64_OVERFLOW_DIGITS@);
            lemma_magnitude_from_prefix(self@);
        }
        true
    }
}

/// The canonical decimal for a sign, a digit sequence, and a power of ten.
pub open spec fn spec_normalize(negative: bool, digits: Seq<u8>, exponent: int) -> SpecDecimal {
    let lead = leading_zeros(digits);
    let rest = digits.subrange(lead, digits.len() as int);
    if rest.len() == 0 {
        SpecDecimal { negative, digits: Seq::empty(), exponent: 0 }
    } else {
        let trail = trailing_zeros(rest);
        SpecDecimal {
            negative,
            digits: rest.subrange(0, rest.len() - trail),
            exponent: exponent + trail,
        }
    }
}

/// The number of zeros that open `d`.
pub open spec fn leading_zeros(d: Seq<u8>) -> int
    decreases d.len(),
{
    if d.len() == 0 || d[0] != 0 {
        0
    } else {
        1 + leading_zeros(d.drop_first())
    }
}

/// The number of zeros that close `d`.
pub open spec fn trailing_zeros(d: Seq<u8>) -> int
    decreases d.len(),
{
    if d.len() == 0 || d.last() != 0 {
        0
    } else {
        1 + trailing_zeros(d.drop_last())
    }
}

proof fn lemma_leading_zeros_count(d: Seq<u8>, k: int)
    requires
        0 <= k <= d.len(),
        forall|i: int| 0 <= i < k ==> d[i] == 0,
        k == d.len() || d[k] != 0,
    ensures
        leading_zeros(d) == k,
    decreases k,
{
    if k > 0 {
        let t = d.drop_first();
        assert forall|i: int| 0 <= i < k - 1 implies t[i] == 0 by {
            assert(t[i] == d[i + 1]);
        }
        if k < d.len() {
            assert(t[k - 1] == d[k]);
        }
        lemma_leading_zeros_count(t, k - 1);
    }
}

proof fn lemma_trailing_zeros_count(d: Seq<u8>, k: int)
    requires
        0 <= k <= d.len(),
        forall|i: int| k <= i < d.len() ==> d[i] == 0,
        k == 0 || d[k - 1] != 0,
    ensures
        trailing_zeros(d) == d.len() - k,
    decreases d.len() - k,
{
    if k < d.len() {
        let t = d.drop_last();
        assert forall|i: int| k <= i < t.len() implies t[i] == 0 by {
            assert(t[i] == d[i]);
        }
        assert(d.last() == d[d.len() - 1]);
        lemma_trailing_zeros_count(t, k);
    } else if d.len() > 0 {
        assert(d.last() == d[k - 1]);
    }
}

proof fn lemma_magnitude_below(d: SpecDecimal, span: int)
    requires
        spec_decimal_wf(d),
        d.digits.len() > 0,
        span == d.digits.len() + d.exponent,
        span < 309,
    ensures
        !magnitude_at_least(d, f64_overflow_bound()),
{
    let n = d.digits.len();
    let v = digits_value(d.digits);
    let t = f64_overflow_bound();
    lemma_digits_value_bound(d.digits);
    lemma_overflow_bound_range();
    if d.exponent >= 0 {
        let e = d.exponent as nat;
        lemma_pow10_add(n, e);
        lemma_pow10_monotone((n + e) as nat, 308);
        let pn = pow10(n);
        let pe = pow10(e);
        lemma_pow10_positive(e);
        assert(v * pe < pn * pe) by (nonlinear_arith)
            requires
                v < pn,
                pe >= 1,
        ;
    } else {
        let k = (-d.exponent) as nat;
        // v < 10^n = 10^(span + k) <= 10^308 * 10^k <= t * 10^k
        if span >= 0 {
            lemma_pow10_add(span as nat, k);
            lemma_pow10_monotone(span as nat, 308);
            assert((span as nat + k) as nat == n);
            let ps = pow10(span as nat);
            let pk = pow10(k);
            lemma_pow10_positive(k);
            assert(ps * pk <= t * pk) by (nonlinear_arith)
                requires
                    ps <= t,
                    pk >= 1,
            ;
        } else {
            // n < k, so v < 10^n <= 10^k <= t * 10^k
            lemma_pow10_monotone(n, k);
            let pk = pow10(k);
            lemma_pow10_positive(308);
            assert(pk <= t * pk) by (nonlinear_arith)
                requires
                    t >= 1,
            ;
        }
    }
}

proof fn lemma_magnitude_above_power(d: SpecDecimal, span: int)
    requires
        spec_decimal_wf(d),
        d.digits.len() > 0,
        span == d.digits.len() + d.exponent,
        span > 309,
    ensures
        magnitude_at_least(d, f64_overflow_bound()),
{
    let n = d.digits.len();
    let v = digits_value(d.digits);
    let t = f64_overflow_bound();
    lemma_digits_value_lower(d.digits);
    lemma_overflow_bound_range();
    let n1 = (n - 1) as nat;
    if d.exponent >= 0 {
        let e = d.exponent as nat;
        lemma_pow10_add(n1, e);
        lemma_pow10_monotone(309, (n1 + e) as nat);
        let pn1 = pow10(n1);
        let pe = pow10(e);
        assert(v * pe >= pn1 * pe) by (nonlinear_arith)
            requires
                v >= pn1,
        ;
    } else {
        // v >= 10^(n-1) = 10^(span - 1 + k) >= 10^309 * 10^k > t * 10^k
        let k = (-d.exponent) as nat;
        let s1 = (span - 1) as nat;
        assert((s1 + k) as nat == n1);
        lemma_pow10_add(s1, k);
        lemma_pow10_monotone(309, s1);
        let ps = pow10(s1);
        let pk = pow10(k);
        assert(ps * pk >= t * pk) by (nonlinear_arith)
            requires
                ps >= t,
        ;
    }
}

proof fn lemma_padded_digits(d: SpecDecimal)
    requires
        spec_decimal_wf(d),
    ensures
        all_digits(
            Seq::new(
                309,
                |j: int|
                    if j < d.digits.len() {
                        d.digits[j]
                    } else {
                        0u8
                    },
            ),
        ),
{
    let p = Seq::new(
        309,
        |j: int|
            if j < d.digits.len() {
                d.digits[j]
            } else {
                0u8
            },
    );
    assert forall|j: int| 0 <= j < p.len() implies #[trigger] p[j] < 10 by {
        if j < d.digits.len() {
            assert(d.digits[j] < 10);
        }
    }
}

/// With `digits.len() + exponent == 309`, the magnitude reaches the bound
/// exactly when the first 309 digits (padded with zeros) do.
proof fn lemma_magnitude_from_prefix(d: SpecDecimal)
    requires
        spec_decimal_wf(d),
        d.digits.len() > 0,
        d.digits.len() + d.exponent == 309,
    ensures
        magnitude_at_least(d, f64_overflow_bound()) == (digits_value(
            Seq::new(
                309,
                |j: int|
                    if j < d.digits.len() {
                        d.digits[j]
                    } else {
                        0u8
                    },
            ),
        ) >= f64_overflow_bound()),
{
    let n = d.digits.len();
    let p = Seq::new(
        309,
        |j: int|
            if j < n {
                d.digits[j]
            } else {
                0u8
            },
    );
    let t = f64_overflow_bound();
    if d.exponent >= 0 {
        let e = d.exponent as nat;
        let z = Seq::new(e, |i: int| 0u8);
        assert(p =~= d.digits + z);
        lemma_digits_value_append(d.digits, z);
        lemma_digits_value_zeros(e);
    } else {
        let k = (-d.exponent) as nat;
        let r = d.digits.subrange(309, n as int);
        assert(d.digits =~= p + r);
        lemma_digits_value_append(p, r);
        assert(all_digits(r)) by {
            assert forall|j: int| 0 <= j < r.len() implies #[trigger] r[j] < 10 by {
                assert(r[j] == d.digits[309 + j]);
            }
        }
        lemma_digits_value_bound(r);
        assert(r.len() == k);
        let vp = digits_value(p);
        let vr = digits_value(r);
        let pk = pow10(k);
        assert((vp * pk + vr >= t * pk) == (vp >= t)) by (nonlinear_arith)
            requires
                vr < pk,
        {
            if vp >= t {
                assert(vp * pk >= t * pk);
            } else {
                assert(vp + 1 <= t);
                assert((vp + 1) * pk <= t * pk);
            }
        }
    }
}

} // verus!
