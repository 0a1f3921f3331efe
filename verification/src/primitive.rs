use vstd::prelude::*;

verus! {

// Verus has no model of IEEE-754 arithmetic, so this library carries every
// double-precision value as its raw 64-bit pattern.  Arithmetic on such
// values goes through a small trusted surface in this module: each operation
// is named by an uninterpreted spec function over bit patterns, and a trusted
// wrapper performs the real operation and promises that its answer is that
// named function of the operands.  Predicates whose meaning the IEEE-754
// format fixes bit by bit (NaN-ness, the sign bit, equality of values) are
// written out exactly and implemented as verified integer code.
//
// Verus keeps floating-point types out of verified source, so even the
// trusted bodies never spell the scalar type: they decode the bits with
// `num::traits::FromBytes`, and the constructor of `num::complex::Complex64`
// fixes the scalar type of the decoded values.
//
// One caution on the named results: when an operation produces a NaN, the
// format leaves the NaN's sign and payload bits open, so the names pin more
// than the machine promises on those inputs.  The library reads NaN-ness only
// through the payload-agnostic `is_nan_bits`, so no contract downstream
// depends on which NaN bit pattern comes back.  A second caution: the
// documentation of the transcendental operations (ln, exp, powi, powf, and
// the complex exponential) leaves their precision platform-dependent, so
// naming their results asserts only that one build computes each as a fixed
// function of the operand bits - true of every real math library, but not a
// written promise.

/// One IEEE-754 binary64 value, carried as its raw bit pattern.
#[derive(Clone, Copy, PartialEq, Eq, Structural, Debug)]
pub struct Float {
    pub bits: u64,
}

/// A complex number made of two doubles, as the transform pipeline uses it.
#[derive(Clone, Copy, PartialEq, Eq, Structural, Debug)]
pub struct Complex {
    pub re: Float,
    pub im: Float,
}

/// The bit patterns of a sequence of doubles.
pub open spec fn bits_of_seq(s: Seq<Float>) -> Seq<u64> {
    s.map_values(|d: Float| d.bits)
}

// Bit patterns of the double constants the algorithms use.
pub const BITS_ZERO: u64 = 0x0;
pub const BITS_HALF: u64 = 0x3fe0000000000000;
pub const BITS_ONE: u64 = 0x3ff0000000000000;
pub const BITS_TWO: u64 = 0x4000000000000000;
pub const BITS_NEG_ONE: u64 = 0xbff0000000000000;
pub const BITS_THREE: u64 = 0x4008000000000000;
pub const BITS_FIVE: u64 = 0x4014000000000000;
pub const BITS_CENTI: u64 = 0x3f847ae147ae147b;
pub const BITS_MILLI: u64 = 0x3f50624dd2f1a9fc;
pub const BITS_THREE_AND_HALF: u64 = 0x400c000000000000;
pub const BITS_E: u64 = 0x4005bf0a8b145769;
pub const BITS_PI: u64 = 0x400921fb54442d18;

/// A double is NaN exactly when its exponent field is all ones and its
/// mantissa field is not zero.
pub open spec fn is_nan_bits(a: u64) -> bool {
    (a >> 52) & 0x7ff == 0x7ff && a & 0xf_ffff_ffff_ffff != 0
}

/// A double is a zero (of either sign) exactly when all bits below the sign
/// bit are clear.
pub open spec fn is_zero_bits(a: u64) -> bool {
    a & 0x7fff_ffff_ffff_ffff == 0
}

/// The sign bit of a double; set for negative values, negative zero and
/// negative NaNs.
pub open spec fn sign_bits(a: u64) -> bool {
    a >> 63 == 1
}

/// IEEE-754 equality of two doubles: NaN equals nothing, the two zeros are
/// equal, and every other value has exactly one bit pattern.
pub open spec fn eq_bits(a: u64, b: u64) -> bool {
    &&& !is_nan_bits(a)
    &&& !is_nan_bits(b)
    &&& (a == b || (is_zero_bits(a) && is_zero_bits(b)))
}

/// Whether `a` is NaN, decided on the bit pattern as `f64::is_nan` does.
pub fn float_is_nan(a: Float) -> (r: bool)
    ensures
        r == is_nan_bits(a.bits),
{
    (a.bits >> 52) & 0x7ff == 0x7ff && a.bits & 0xf_ffff_ffff_ffff != 0
}

/// Whether the sign bit of `a` is set, as `f64::is_sign_negative` decides it.
pub fn float_is_sign_negative(a: Float) -> (r: bool)
    ensures
        r == sign_bits(a.bits),
{
    a.bits >> 63 == 1
}

/// IEEE-754 equality test (`==` on doubles), decided on the bit patterns.
pub fn float_eq(a: Float, b: Float) -> (r: bool)
    ensures
        r == eq_bits(a.bits, b.bits),
{
    let a_nan = float_is_nan(a);
    let b_nan = float_is_nan(b);
    !a_nan && !b_nan && (a.bits == b.bits || (a.bits & 0x7fff_ffff_ffff_ffff == 0
        && b.bits & 0x7fff_ffff_ffff_ffff == 0))
}

pub uninterp spec fn add_bits(a: u64, b: u64) -> u64;

pub uninterp spec fn sub_bits(a: u64, b: u64) -> u64;

pub uninterp spec fn mul_bits(a: u64, b: u64) -> u64;

pub uninterp spec fn div_bits(a: u64, b: u64) -> u64;

pub uninterp spec fn neg_bits(a: u64) -> u64;

pub uninterp spec fn abs_bits(a: u64) -> u64;

pub uninterp spec fn sqrt_bits(a: u64) -> u64;

pub uninterp spec fn ln_bits(a: u64) -> u64;

pub uninterp spec fn exp_bits(a: u64) -> u64;

pub uninterp spec fn powi_bits(a: u64, e: i32) -> u64;

pub uninterp spec fn powf_bits(a: u64, b: u64) -> u64;

pub uninterp spec fn floor_bits(a: u64) -> u64;

pub uninterp spec fn ceil_bits(a: u64) -> u64;

pub uninterp spec fn round_bits(a: u64) -> u64;

pub uninterp spec fn max_bits(a: u64, b: u64) -> u64;

pub uninterp spec fn lt_bits(a: u64, b: u64) -> bool;

pub uninterp spec fn le_bits(a: u64, b: u64) -> bool;

pub uninterp spec fn from_usize_bits(n: usize) -> u64;

pub uninterp spec fn as_usize_bits(a: u64) -> usize;

pub uninterp spec fn to_usize_bits(a: u64) -> Option<usize>;

/// Relies on f64 addition: the sum of two doubles is a function of their bits.
#[verifier::external_body]
pub(crate) fn float_add(a: Float, b: Float) -> (r: Float)
    ensures
        r.bits == add_bits(a.bits, b.bits),
{
    let c = num::complex::Complex64::new(
        num::traits::FromBytes::from_ne_bytes(&a.bits.to_ne_bytes()),
        num::traits::FromBytes::from_ne_bytes(&b.bits.to_ne_bytes()),
    );
    Float { bits: (c.re + c.im).to_bits() }
}

/// Relies on f64 subtraction.
#[verifier::external_body]
pub(crate) fn float_sub(a: Float, b: Float) -> (r: Float)
    ensures
        r.bits == sub_bits(a.bits, b.bits),
{
    let c = num::complex::Complex64::new(
        num::traits::FromBytes::from_ne_bytes(&a.bits.to_ne_bytes()),
        num::traits::FromBytes::from_ne_bytes(&b.bits.to_ne_bytes()),
    );
    Float { bits: (c.re - c.im).to_bits() }
}

/// Relies on f64 multiplication.
#[verifier::external_body]
pub(crate) fn float_mul(a: Float, b: Float) -> (r: Float)
    ensures
        r.bits == mul_bits(a.bits, b.bits),
{
    let c = num::complex::Complex64::new(
        num::traits::FromBytes::from_ne_bytes(&a.bits.to_ne_bytes()),
        num::traits::FromBytes::from_ne_bytes(&b.bits.to_ne_bytes()),
    );
    Float { bits: (c.re * c.im).to_bits() }
}

/// Relies on f64 division.
#[verifier::external_body]
pub(crate) fn float_div(a: Float, b: Float) -> (r: Float)
    ensures
        r.bits == div_bits(a.bits, b.bits),
{
    let c = num::complex::Complex64::new(
        num::traits::FromBytes::from_ne_bytes(&a.bits.to_ne_bytes()),
        num::traits::FromBytes::from_ne_bytes(&b.bits.to_ne_bytes()),
    );
    Float { bits: (c.re / c.im).to_bits() }
}

/// Relies on f64 negation.
#[verifier::external_body]
pub(crate) fn float_neg(a: Float) -> (r: Float)
    ensures
        r.bits == neg_bits(a.bits),
{
    let c = num::complex::Complex64::new(
        num::traits::FromBytes::from_ne_bytes(&a.bits.to_ne_bytes()),
        num::traits::Zero::zero(),
    );
    Float { bits: (-c.re).to_bits() }
}

/// Relies on f64::abs.
#[verifier::external_body]
pub(crate) fn float_abs(a: Float) -> (r: Float)
    ensures
        r.bits == abs_bits(a.bits),
{
    let c = num::complex::Complex64::new(
        num::traits::FromBytes::from_ne_bytes(&a.bits.to_ne_bytes()),
        num::traits::Zero::zero(),
    );
    Float { bits: c.re.abs().to_bits() }
}

/// Relies on f64::sqrt.
#[verifier::external_body]
pub(crate) fn float_sqrt(a: Float) -> (r: Float)
    ensures
        r.bits == sqrt_bits(a.bits),
{
    let c = num::complex::Complex64::new(
        num::traits::FromBytes::from_ne_bytes(&a.bits.to_ne_bytes()),
        num::traits::Zero::zero(),
    );
    Float { bits: c.re.sqrt().to_bits() }
}

/// Relies on f64::ln.
#[verifier::external_body]
pub(crate) fn float_ln(a: Float) -> (r: Float)
    ensures
        r.bits == ln_bits(a.bits),
{
    let c = num::complex::Complex64::new(
        num::traits::FromBytes::from_ne_bytes(&a.bits.to_ne_bytes()),
        num::traits::Zero::zero(),
    );
    Float { bits: c.re.ln().to_bits() }
}

/// Relies on f64::exp.
#[verifier::external_body]
pub(crate) fn float_exp(a: Float) -> (r: Float)
    ensures
        r.bits == exp_bits(a.bits),
{
    let c = num::complex::Complex64::new(
        num::traits::FromBytes::from_ne_bytes(&a.bits.to_ne_bytes()),
        num::traits::Zero::zero(),
    );
    Float { bits: c.re.exp().to_bits() }
}

/// Relies on f64::powi.
#[verifier::external_body]
pub(crate) fn float_powi(a: Float, e: i32) -> (r: Float)
    ensures
        r.bits == powi_bits(a.bits, e),
{
    let c = num::complex::Complex64::new(
        num::traits::FromBytes::from_ne_bytes(&a.bits.to_ne_bytes()),
        num::traits::Zero::zero(),
    );
    Float { bits: c.re.powi(e).to_bits() }
}

/// Relies on f64::powf.
#[verifier::external_body]
pub(crate) fn float_powf(a: Float, b: Float) -> (r: Float)
    ensures
        r.bits == powf_bits(a.bits, b.bits),
{
    let c = num::complex::Complex64::new(
        num::traits::FromBytes::from_ne_bytes(&a.bits.to_ne_bytes()),
        num::traits::FromBytes::from_ne_bytes(&b.bits.to_ne_bytes()),
    );
    Float { bits: c.re.powf(c.im).to_bits() }
}

/// Relies on f64::floor.
#[verifier::external_body]
pub(crate) fn float_floor(a: Float) -> (r: Float)
    ensures
        r.bits == floor_bits(a.bits),
{
    let c = num::complex::Complex64::new(
        num::traits::FromBytes::from_ne_bytes(&a.bits.to_ne_bytes()),
        num::traits::Zero::zero(),
    );
    Float { bits: c.re.floor().to_bits() }
}

/// Relies on f64::ceil.
#[verifier::external_body]
pub(crate) fn float_ceil(a: Float) -> (r: Float)
    ensures
        r.bits == ceil_bits(a.bits),
{
    let c = num::complex::Complex64::new(
        num::traits::FromBytes::from_ne_bytes(&a.bits.to_ne_bytes()),
        num::traits::Zero::zero(),
    );
    Float { bits: c.re.ceil().to_bits() }
}

/// Relies on f64::round.
#[verifier::external_body]
pub(crate) fn float_round(a: Float) -> (r: Float)
    ensures
        r.bits == round_bits(a.bits),
{
    let c = num::complex::Complex64::new(
        num::traits::FromBytes::from_ne_bytes(&a.bits.to_ne_bytes()),
        num::traits::Zero::zero(),
    );
    Float { bits: c.re.round().to_bits() }
}

/// Relies on f64::max.
#[verifier::external_body]
pub(crate) fn float_max(a: Float, b: Float) -> (r: Float)
    ensures
        r.bits == max_bits(a.bits, b.bits),
{
    let c = num::complex::Complex64::new(
        num::traits::FromBytes::from_ne_bytes(&a.bits.to_ne_bytes()),
        num::traits::FromBytes::from_ne_bytes(&b.bits.to_ne_bytes()),
    );
    Float { bits: c.re.max(c.im).to_bits() }
}

/// Relies on f64 `<`.
#[verifier::external_body]
pub(crate) fn float_lt(a: Float, b: Float) -> (r: bool)
    ensures
        r == lt_bits(a.bits, b.bits),
{
    let c = num::complex::Complex64::new(
        num::traits::FromBytes::from_ne_bytes(&a.bits.to_ne_bytes()),
        num::traits::FromBytes::from_ne_bytes(&b.bits.to_ne_bytes()),
    );
    c.re < c.im
}

/// Relies on f64 `<=`.
#[verifier::external_body]
pub(crate) fn float_le(a: Float, b: Float) -> (r: bool)
    ensures
        r == le_bits(a.bits, b.bits),
{
    let c = num::complex::Complex64::new(
        num::traits::FromBytes::from_ne_bytes(&a.bits.to_ne_bytes()),
        num::traits::FromBytes::from_ne_bytes(&b.bits.to_ne_bytes()),
    );
    c.re <= c.im
}

/// Relies on `usize as f64` (num's ToPrimitive::to_f64 performs that cast).
/// An integer never converts to NaN.
#[verifier::external_body]
pub(crate) fn float_of_usize(n: usize) -> (r: Float)
    ensures
        r.bits == from_usize_bits(n),
        !is_nan_bits(r.bits),
{
    Float { bits: num::traits::ToPrimitive::to_f64(&n).unwrap().to_bits() }
}

/// Relies on `f64 as usize`, the saturating cast.
#[verifier::external_body]
pub(crate) fn float_as_usize(a: Float) -> (r: usize)
    ensures
        r == as_usize_bits(a.bits),
{
    let c = num::complex::Complex64::new(
        num::traits::FromBytes::from_ne_bytes(&a.bits.to_ne_bytes()),
        num::traits::Zero::zero(),
    );
    c.re as usize
}

/// Relies on num's ToPrimitive::to_usize on a double: `None` when the value
/// has no usize counterpart (negative, too large, or NaN).
#[verifier::external_body]
pub(crate) fn float_to_usize(a: Float) -> (r: Option<usize>)
    ensures
        r == to_usize_bits(a.bits),
{
    let c = num::complex::Complex64::new(
        num::traits::FromBytes::from_ne_bytes(&a.bits.to_ne_bytes()),
        num::traits::Zero::zero(),
    );
    num::traits::ToPrimitive::to_usize(&c.re)
}

/// The componentwise sum, as num's Complex addition computes it.
pub open spec fn complex_add_spec(a: Complex, b: Complex) -> Complex {
    Complex {
        re: Float { bits: add_bits(a.re.bits, b.re.bits) },
        im: Float { bits: add_bits(a.im.bits, b.im.bits) },
    }
}

/// The componentwise difference, as num's Complex subtraction computes it.
pub open spec fn complex_sub_spec(a: Complex, b: Complex) -> Complex {
    Complex {
        re: Float { bits: sub_bits(a.re.bits, b.re.bits) },
        im: Float { bits: sub_bits(a.im.bits, b.im.bits) },
    }
}

/// The product, as num's Complex multiplication computes it:
/// `(a.re*b.re - a.im*b.im, a.re*b.im + a.im*b.re)`.
pub open spec fn complex_mul_spec(a: Complex, b: Complex) -> Complex {
    Complex {
        re: Float { bits: sub_bits(mul_bits(a.re.bits, b.re.bits), mul_bits(a.im.bits, b.im.bits)) },
        im: Float { bits: add_bits(mul_bits(a.re.bits, b.im.bits), mul_bits(a.im.bits, b.re.bits)) },
    }
}

/// The conjugate, as num's Complex::conj computes it: the imaginary part
/// negated.
pub open spec fn complex_conj_spec(a: Complex) -> Complex {
    Complex { re: a.re, im: Float { bits: neg_bits(a.im.bits) } }
}

/// The quotient, as num's Complex division computes it: the product with the
/// conjugate, divided componentwise by the squared norm of the divisor.
pub open spec fn complex_div_spec(a: Complex, b: Complex) -> Complex {
    let norm = add_bits(mul_bits(b.re.bits, b.re.bits), mul_bits(b.im.bits, b.im.bits));
    Complex {
        re: Float {
            bits: div_bits(
                add_bits(mul_bits(a.re.bits, b.re.bits), mul_bits(a.im.bits, b.im.bits)),
                norm,
            ),
        },
        im: Float {
            bits: div_bits(
                sub_bits(mul_bits(a.im.bits, b.re.bits), mul_bits(a.re.bits, b.im.bits)),
                norm,
            ),
        },
    }
}

/// Relies on num's Complex64 addition.
#[verifier::external_body]
pub(crate) fn complex_add(a: Complex, b: Complex) -> (r: Complex)
    ensures
        r == complex_add_spec(a, b),
{
    let x = num::complex::Complex64::new(
        num::traits::FromBytes::from_ne_bytes(&a.re.bits.to_ne_bytes()),
        num::traits::FromBytes::from_ne_bytes(&a.im.bits.to_ne_bytes()),
    );
    let y = num::complex::Complex64::new(
        num::traits::FromBytes::from_ne_bytes(&b.re.bits.to_ne_bytes()),
        num::traits::FromBytes::from_ne_bytes(&b.im.bits.to_ne_bytes()),
    );
    let z = x + y;
    Complex { re: Float { bits: z.re.to_bits() }, im: Float { bits: z.im.to_bits() } }
}

/// Relies on num's Complex64 subtraction.
#[verifier::external_body]
pub(crate) fn complex_sub(a: Complex, b: Complex) -> (r: Complex)
    ensures
        r == complex_sub_spec(a, b),
{
    let x = num::complex::Complex64::new(
        num::traits::FromBytes::from_ne_bytes(&a.re.bits.to_ne_bytes()),
        num::traits::FromBytes::from_ne_bytes(&a.im.bits.to_ne_bytes()),
    );
    let y = num::complex::Complex64::new(
        num::traits::FromBytes::from_ne_bytes(&b.re.bits.to_ne_bytes()),
        num::traits::FromBytes::from_ne_bytes(&b.im.bits.to_ne_bytes()),
    );
    let z = x - y;
    Complex { re: Float { bits: z.re.to_bits() }, im: Float { bits: z.im.to_bits() } }
}

/// Relies on num's Complex64 multiplication.
#[verifier::external_body]
pub(crate) fn complex_mul(a: Complex, b: Complex) -> (r: Complex)
    ensures
        r == complex_mul_spec(a, b),
{
    let x = num::complex::Complex64::new(
        num::traits::FromBytes::from_ne_bytes(&a.re.bits.to_ne_bytes()),
        num::traits::FromBytes::from_ne_bytes(&a.im.bits.to_ne_bytes()),
    );
    let y = num::complex::Complex64::new(
        num::traits::FromBytes::from_ne_bytes(&b.re.bits.to_ne_bytes()),
        num::traits::FromBytes::from_ne_bytes(&b.im.bits.to_ne_bytes()),
    );
    let z = x * y;
    Complex { re: Float { bits: z.re.to_bits() }, im: Float { bits: z.im.to_bits() } }
}

/// Relies on num's Complex64 division.
#[verifier::external_body]
pub(crate) fn complex_div(a: Complex, b: Complex) -> (r: Complex)
    ensures
        r == complex_div_spec(a, b),
{
    let x = num::complex::Complex64::new(
        num::traits::FromBytes::from_ne_bytes(&a.re.bits.to_ne_bytes()),
        num::traits::FromBytes::from_ne_bytes(&a.im.bits.to_ne_bytes()),
    );
    let y = num::complex::Complex64::new(
        num::traits::FromBytes::from_ne_bytes(&b.re.bits.to_ne_bytes()),
        num::traits::FromBytes::from_ne_bytes(&b.im.bits.to_ne_bytes()),
    );
    let z = x / y;
    Complex { re: Float { bits: z.re.to_bits() }, im: Float { bits: z.im.to_bits() } }
}

/// Relies on num's Complex64::conj.
#[verifier::external_body]
pub(crate) fn complex_conj(a: Complex) -> (r: Complex)
    ensures
        r == complex_conj_spec(a),
{
    let x = num::complex::Complex64::new(
        num::traits::FromBytes::from_ne_bytes(&a.re.bits.to_ne_bytes()),
        num::traits::FromBytes::from_ne_bytes(&a.im.bits.to_ne_bytes()),
    );
    let z = x.conj();
    Complex { re: Float { bits: z.re.to_bits() }, im: Float { bits: z.im.to_bits() } }
}

pub uninterp spec fn cexp_re_bits(re: u64, im: u64) -> u64;

pub uninterp spec fn cexp_im_bits(re: u64, im: u64) -> u64;

/// Relies on num's Complex64::exp: the complex exponential is a function of
/// the two coordinates alone.
#[verifier::external_body]
pub(crate) fn complex_exp(a: Complex) -> (r: Complex)
    ensures
        r.re.bits == cexp_re_bits(a.re.bits, a.im.bits),
        r.im.bits == cexp_im_bits(a.re.bits, a.im.bits),
{
    let x = num::complex::Complex64::new(
        num::traits::FromBytes::from_ne_bytes(&a.re.bits.to_ne_bytes()),
        num::traits::FromBytes::from_ne_bytes(&a.im.bits.to_ne_bytes()),
    );
    let z = x.exp();
    Complex { re: Float { bits: z.re.to_bits() }, im: Float { bits: z.im.to_bits() } }
}

pub uninterp spec fn sorted_bits(s: Seq<u64>) -> Seq<u64>;

pub uninterp spec fn min_of_bits(s: Seq<u64>) -> u64;

pub uninterp spec fn max_of_bits(s: Seq<u64>) -> u64;

/// Relies on itertools::Itertools::sorted_by_key with unwrap_ord::UnwrapOrd
/// keys: a stable sort of the doubles into non-decreasing order.  The key
/// comparison unwraps `partial_cmp`, so NaN inputs are excluded.
#[verifier::external_body]
pub(crate) fn sorted_floats(v: &Vec<Float>) -> (r: Vec<Float>)
    requires
        forall|i: int| 0 <= i < v@.len() ==> !is_nan_bits(v@[i].bits),
    ensures
        bits_of_seq(r@) == sorted_bits(bits_of_seq(v@)),
        r@.len() == v@.len(),
        bits_of_seq(r@).to_multiset() == bits_of_seq(v@).to_multiset(),
        forall|i: int, j: int|
            0 <= i <= j < r@.len() ==> le_bits(r@[i].bits, r@[j].bits),
{
    let s: Vec<Float> = itertools::Itertools::sorted_by_key(
        v.iter().copied(),
        |d: &Float| unwrap_ord::UnwrapOrd(
            num::complex::Complex64::new(
                num::traits::FromBytes::from_ne_bytes(&d.bits.to_ne_bytes()),
                num::traits::Zero::zero(),
            ).re,
        ),
    ).collect();
    s
}

/// Relies on itertools::Itertools::minmax over the doubles: `None` only on an
/// empty input, one element yields itself twice, and otherwise the first
/// minimal and the last maximal element come back.
#[verifier::external_body]
pub(crate) fn float_minmax(v: &Vec<Float>) -> (r: Option<(Float, Float)>)
    ensures
        r is None <==> v@.len() == 0,
        r matches Some(p) ==> p.0.bits == min_of_bits(bits_of_seq(v@)) && p.1.bits
            == max_of_bits(bits_of_seq(v@)),
        r matches Some(p) ==> bits_of_seq(v@).contains(p.0.bits) && bits_of_seq(v@).contains(
            p.1.bits,
        ),
{
    let mm = itertools::Itertools::minmax(v.iter().map(
        |d: &Float| num::complex::Complex64::new(
            num::traits::FromBytes::from_ne_bytes(&d.bits.to_ne_bytes()),
            num::traits::Zero::zero(),
        ).re,
    ));
    match mm {
        itertools::MinMaxResult::NoElements => None,
        itertools::MinMaxResult::OneElement(x) => Some(
            (Float { bits: x.to_bits() }, Float { bits: x.to_bits() }),
        ),
        itertools::MinMaxResult::MinMax(a, b) => Some(
            (Float { bits: a.to_bits() }, Float { bits: b.to_bits() }),
        ),
    }
}

/// Relies on num's Float::nan, a quiet NaN.
#[verifier::external_body]
pub(crate) fn float_nan() -> (r: Float)
    ensures
        is_nan_bits(r.bits),
{
    let c = num::complex::Complex64::new(num::traits::Float::nan(), num::traits::Zero::zero());
    Float { bits: c.re.to_bits() }
}

} // verus!
