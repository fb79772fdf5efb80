use vstd::prelude::*;

verus! {

/// The one pattern that this library hands out for "not a number".
pub const NAN: u64 = 0x7ff8_0000_0000_0000;

/// The pattern of positive zero.
pub const ZERO: u64 = 0;

/// A binary64 pattern without its sign bit.
pub open spec fn magnitude(bits: u64) -> int {
    bits as int % 0x8000_0000_0000_0000
}

/// The pattern stands for no number: its exponent is all ones and its
/// fraction is not zero.
pub open spec fn is_nan(bits: u64) -> bool {
    magnitude(bits) > 0x7ff0_0000_0000_0000
}

/// The pattern stands for zero, of either sign.
pub open spec fn is_zero(bits: u64) -> bool {
    magnitude(bits) == 0
}

/// Every pattern that stands for no number is replaced by `NAN`; any other
/// pattern stays.
pub open spec fn canonical(bits: u64) -> u64 {
    if is_nan(bits) {
        NAN
    } else {
        bits
    }
}

/// Two patterns stand for the same thing: they are equal, or neither is a
/// number.
pub open spec fn same_number(a: u64, b: u64) -> bool {
    a == b || (is_nan(a) && is_nan(b))
}

/// The binary64 sum of `a` and `b`, rounded to nearest, ties to even.
pub uninterp spec fn float_sum(a: u64, b: u64) -> u64;

/// The binary64 difference `a - b`, rounded to nearest, ties to even.
pub uninterp spec fn float_difference(a: u64, b: u64) -> u64;

/// The binary64 product of `a` and `b`, rounded to nearest, ties to even.
pub uninterp spec fn float_product(a: u64, b: u64) -> u64;

/// The binary64 quotient `a / b`, rounded to nearest, ties to even.
pub uninterp spec fn float_quotient(a: u64, b: u64) -> u64;

/// Lane by lane sum, by `+` of `wide::f64x4`. Each lane of the result is the
/// binary64 sum of the two lanes at that place and of nothing else; where the
/// sum is no number, which of the patterns for that comes back is left open.
#[verifier::external_body]
fn lanes_add(a: &[u64; 4], b: &[u64; 4]) -> (r: [u64; 4])
    ensures
        forall|i: int| 0 <= i < 4 ==> same_number(#[trigger] r[i], float_sum(a[i], b[i])),
{
    let x: wide::f64x4 = bytemuck::cast(*a);
    let y: wide::f64x4 = bytemuck::cast(*b);
    bytemuck::cast(x + y)
}

/// Lane by lane difference, by `-` of `wide::f64x4`; stated as for the sum.
#[verifier::external_body]
fn lanes_sub(a: &[u64; 4], b: &[u64; 4]) -> (r: [u64; 4])
    ensures
        forall|i: int| 0 <= i < 4 ==> same_number(#[trigger] r[i], float_difference(a[i], b[i])),
{
    let x: wide::f64x4 = bytemuck::cast(*a);
    let y: wide::f64x4 = bytemuck::cast(*b);
    bytemuck::cast(x - y)
}

/// Lane by lane product, by `*` of `wide::f64x4`; stated as for the sum.
#[verifier::external_body]
fn lanes_mul(a: &[u64; 4], b: &[u64; 4]) -> (r: [u64; 4])
    ensures
        forall|i: int| 0 <= i < 4 ==> same_number(#[trigger] r[i], float_product(a[i], b[i])),
{
    let x: wide::f64x4 = bytemuck::cast(*a);
    let y: wide::f64x4 = bytemuck::cast(*b);
    bytemuck::cast(x * y)
}

/// Lane by lane quotient, by `/` of `wide::f64x4`; stated as for the sum. A
/// zero divisor does not stop it: the lane then holds an infinity or no number.
#[verifier::external_body]
fn lanes_div(a: &[u64; 4], b: &[u64; 4]) -> (r: [u64; 4])
    ensures
        forall|i: int| 0 <= i < 4 ==> same_number(#[trigger] r[i], float_quotient(a[i], b[i])),
{
    let x: wide::f64x4 = bytemuck::cast(*a);
    let y: wide::f64x4 = bytemuck::cast(*b);
    bytemuck::cast(x / y)
}

/// Whether the pattern stands for no number.
pub fn is_nan_bits(bits: u64) -> (r: bool)
    ensures
        r == is_nan(bits),
{
    bits % 0x8000_0000_0000_0000 > 0x7ff0_0000_0000_0000
}

/// Whether the pattern stands for zero, of either sign.
pub fn is_zero_bits(bits: u64) -> (r: bool)
    ensures
        r == is_zero(bits),
{
    bits % 0x8000_0000_0000_0000 == 0
}

/// Replaces every pattern for "not a number" by `NAN`.
pub fn canonicalize(bits: u64) -> (r: u64)
    ensures
        r == canonical(bits),
{
    if is_nan_bits(bits) {
        NAN
    } else {
        bits
    }
}

/// The four binary operators.
#[derive(Clone, Copy, Debug, PartialEq, Eq, Structural)]
pub enum Operator {
    Plus,
    Minus,
    Star,
    Slash,
}

/// What `op` makes of `l` and `r`. Division by a zero of either sign is not a
/// number; so is every result that is none, under the one pattern `NAN`.
pub open spec fn op_value(op: Operator, l: u64, r: u64) -> u64 {
    match op {
        Operator::Plus => canonical(float_sum(l, r)),
        Operator::Minus => canonical(float_difference(l, r)),
        Operator::Star => canonical(float_product(l, r)),
        Operator::Slash => if is_zero(r) {
            NAN
        } else {
            canonical(float_quotient(l, r))
        },
    }
}

/// Settles what the lanes unit returned for one lane: `raw` is the pattern that
/// came back, `divisor` the right operand of that lane.
pub fn settle(op: Operator, divisor: u64, raw: u64) -> (r: u64)
    ensures
        r == if op == Operator::Slash && is_zero(divisor) {
            NAN
        } else {
            canonical(raw)
        },
{
    match op {
        Operator::Slash => if is_zero_bits(divisor) {
            NAN
        } else {
            canonicalize(raw)
        },
        _ => canonicalize(raw),
    }
}

/// Applies `op` to four pairs of operands at once.
pub fn apply_lanes(op: Operator, l: &[u64; 4], r: &[u64; 4]) -> (out: [u64; 4])
    ensures
        forall|i: int| 0 <= i < 4 ==> #[trigger] out[i] == op_value(op, l[i], r[i]),
{
    let raw = match op {
        Operator::Plus => lanes_add(l, r),
        Operator::Minus => lanes_sub(l, r),
        Operator::Star => lanes_mul(l, r),
        Operator::Slash => lanes_div(l, r),
    };
    let mut out: [u64; 4] = [ZERO, ZERO, ZERO, ZERO];
    let mut i: usize = 0;
    while i < 4
        invariant
            i <= 4,
            forall|j: int| 0 <= j < 4 ==> same_number(
                #[trigger] raw[j],
                match op {
                    Operator::Plus => float_sum(l[j], r[j]),
                    Operator::Minus => float_difference(l[j], r[j]),
                    Operator::Star => float_product(l[j], r[j]),
                    Operator::Slash => float_quotient(l[j], r[j]),
                },
            ),
            forall|j: int| 0 <= j < i ==> #[trigger] out[j] == op_value(op, l[j], r[j]),
        decreases 4 - i,
    {
        out[i] = settle(op, r[i], raw[i]);
        i += 1;
    }
    out
}

/// Applies `op` to one pair of operands.
pub fn apply(op: Operator, l: u64, r: u64) -> (out: u64)
    ensures
        out == op_value(op, l, r),
{
    let out = apply_lanes(op, &[l, l, l, l], &[r, r, r, r]);
    out[0]
}

} // verus!
