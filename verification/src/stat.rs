use vstd::prelude::*;

use crate::primitive::{
    add_bits, bits_of_seq, div_bits, eq_bits, float_add, float_div, float_eq, float_mul,
    float_powi, float_sub, from_usize_bits, mul_bits, powi_bits, sorted_bits, sorted_floats,
    sub_bits, Float, BITS_TWO, BITS_ZERO,
};
use crate::utility::has_nan_bits;

verus! {

/// The middle of the sorted copy: the central element on an odd length, the
/// mean of the two central elements on an even one.
pub open spec fn median_bits(s: Seq<u64>) -> u64 {
    let t = sorted_bits(s);
    let mid = s.len() as int / 2;
    if s.len() % 2 == 1 {
        t[mid]
    } else {
        div_bits(add_bits(t[mid - 1], t[mid]), BITS_TWO)
    }
}

/// The median of the samples, by sorting a copy.
pub fn median(y: &[Float]) -> (r: Float)
    requires
        y@.len() >= 1,
        !has_nan_bits(bits_of_seq(y@)),
    ensures
        r.bits == median_bits(bits_of_seq(y@)),
{
    let copy = vstd::slice::slice_to_vec(y);
    proof {
        assert forall|i: int|
            0 <= i < copy@.len() implies !crate::primitive::is_nan_bits(copy@[i].bits) by {
            assert(bits_of_seq(y@)[i] == y@[i].bits);
        }
    }
    let sorted = sorted_floats(&copy);
    let mid = y.len() / 2;
    if y.len() % 2 == 1 {
        sorted[mid]
    } else {
        float_div(float_add(sorted[mid - 1], sorted[mid]), Float { bits: BITS_TWO })
    }
}

/// The four running sums of the least-squares fit, folded left to right:
/// sum of x, of x*x, of x*y, and of y over the first `n` pairs.
pub open spec fn lr_fold_bits(xs: Seq<u64>, ys: Seq<u64>, n: int) -> (u64, u64, u64, u64)
    decreases n,
{
    if n <= 0 {
        (BITS_ZERO, BITS_ZERO, BITS_ZERO, BITS_ZERO)
    } else {
        let p = lr_fold_bits(xs, ys, n - 1);
        let x = xs[n - 1];
        let y = ys[n - 1];
        (
            add_bits(p.0, x),
            add_bits(p.1, mul_bits(x, x)),
            add_bits(p.2, mul_bits(x, y)),
            add_bits(p.3, y),
        )
    }
}

/// The least-squares slope and intercept over the paired samples; both zero
/// when the denominator vanishes.
pub open spec fn linreg_bits(xs: Seq<u64>, ys: Seq<u64>) -> (u64, u64) {
    let n = from_usize_bits(xs.len() as usize);
    let s = lr_fold_bits(xs, ys, xs.len() as int);
    let denom = sub_bits(mul_bits(n, s.1), mul_bits(s.0, s.0));
    if eq_bits(denom, BITS_ZERO) {
        (BITS_ZERO, BITS_ZERO)
    } else {
        (
            div_bits(sub_bits(mul_bits(n, s.2), mul_bits(s.0, s.3)), denom),
            div_bits(sub_bits(mul_bits(s.3, s.1), mul_bits(s.0, s.2)), denom),
        )
    }
}

/// The simple linear regression of `y` against `x`: returns the slope and
/// the intercept, or a pair of zeros when the fit is degenerate.
pub fn linear_regression(x: &[Float], y: &[Float]) -> (r: (Float, Float))
    requires
        x@.len() == y@.len(),
    ensures
        r.0.bits == linreg_bits(bits_of_seq(x@), bits_of_seq(y@)).0,
        r.1.bits == linreg_bits(bits_of_seq(x@), bits_of_seq(y@)).1,
{
    let ghost xs = bits_of_seq(x@);
    let ghost ys = bits_of_seq(y@);
    let len = x.len();
    let mut sumx = Float { bits: BITS_ZERO };
    let mut sumx2 = Float { bits: BITS_ZERO };
    let mut sumxy = Float { bits: BITS_ZERO };
    let mut sumy = Float { bits: BITS_ZERO };
    let mut i: usize = 0;
    while i < len
        invariant
            0 <= i <= len,
            len == x@.len() == y@.len(),
            xs == bits_of_seq(x@),
            ys == bits_of_seq(y@),
            sumx.bits == lr_fold_bits(xs, ys, i as int).0,
            sumx2.bits == lr_fold_bits(xs, ys, i as int).1,
            sumxy.bits == lr_fold_bits(xs, ys, i as int).2,
            sumy.bits == lr_fold_bits(xs, ys, i as int).3,
        decreases len - i,
    {
        let xv = x[i];
        let yv = y[i];
        sumx = float_add(sumx, xv);
        sumx2 = float_add(sumx2, float_mul(xv, xv));
        sumxy = float_add(sumxy, float_mul(xv, yv));
        sumy = float_add(sumy, yv);
        i += 1;
    }
    let nf = crate::primitive::float_of_usize(len);
    let denom = float_sub(float_mul(nf, sumx2), float_mul(sumx, sumx));
    if float_eq(denom, Float { bits: BITS_ZERO }) {
        (Float { bits: BITS_ZERO }, Float { bits: BITS_ZERO })
    } else {
        let a = float_div(float_sub(float_mul(nf, sumxy), float_mul(sumx, sumy)), denom);
        let b = float_div(float_sub(float_mul(sumy, sumx2), float_mul(sumx, sumxy)), denom);
        (a, b)
    }
}

/// The fitted value at `x[i]`: slope times the sample plus the intercept.
pub open spec fn lr_transform_at_bits(xs: Seq<u64>, ys: Seq<u64>, i: int) -> u64 {
    let ab = linreg_bits(xs, ys);
    add_bits(mul_bits(ab.0, xs[i]), ab.1)
}

/// Fits `y` against `x` and returns the fitted value at every `x[i]`.
pub fn linear_regression_and_transform(x: &[Float], y: &[Float]) -> (r: Vec<Float>)
    requires
        x@.len() == y@.len(),
    ensures
        r@.len() == x@.len(),
        forall|i: int|
            0 <= i < r@.len() ==> r@[i].bits == lr_transform_at_bits(
                bits_of_seq(x@),
                bits_of_seq(y@),
                i,
            ),
{
    let (a, b) = linear_regression(x, y);
    let mut r: Vec<Float> = Vec::new();
    let mut i: usize = 0;
    while i < x.len()
        invariant
            0 <= i <= x@.len(),
            x@.len() == y@.len(),
            a.bits == linreg_bits(bits_of_seq(x@), bits_of_seq(y@)).0,
            b.bits == linreg_bits(bits_of_seq(x@), bits_of_seq(y@)).1,
            r@.len() == i,
            forall|j: int|
                0 <= j < i ==> r@[j].bits == lr_transform_at_bits(
                    bits_of_seq(x@),
                    bits_of_seq(y@),
                    j,
                ),
        decreases x@.len() - i,
    {
        r.push(float_add(float_mul(a, x[i]), b));
        i += 1;
    }
    r
}

/// The left-to-right sum of the squared residuals of the fit over the first
/// `n` pairs.
pub open spec fn lr_sq_err_fold_bits(xs: Seq<u64>, ys: Seq<u64>, n: int) -> u64
    decreases n,
{
    if n <= 0 {
        BITS_ZERO
    } else {
        add_bits(
            lr_sq_err_fold_bits(xs, ys, n - 1),
            powi_bits(sub_bits(ys[n - 1], lr_transform_at_bits(xs, ys, n - 1)), 2),
        )
    }
}

/// The residual sum of squares of the simple linear regression of `y`
/// against `x`.
pub fn linear_regression_square_error(x: &[Float], y: &[Float]) -> (r: Float)
    requires
        x@.len() == y@.len(),
    ensures
        r.bits == lr_sq_err_fold_bits(bits_of_seq(x@), bits_of_seq(y@), x@.len() as int),
{
    let ghost xs = bits_of_seq(x@);
    let ghost ys = bits_of_seq(y@);
    let y_hat = linear_regression_and_transform(x, y);
    let mut acc = Float { bits: BITS_ZERO };
    let mut i: usize = 0;
    while i < y.len()
        invariant
            0 <= i <= y@.len(),
            x@.len() == y@.len(),
            xs == bits_of_seq(x@),
            ys == bits_of_seq(y@),
            y_hat@.len() == x@.len(),
            forall|j: int|
                0 <= j < y_hat@.len() ==> y_hat@[j].bits == lr_transform_at_bits(xs, ys, j),
            acc.bits == lr_sq_err_fold_bits(xs, ys, i as int),
        decreases y@.len() - i,
    {
        acc = float_add(acc, float_powi(float_sub(y[i], y_hat[i]), 2));
        i += 1;
    }
    acc
}

} // verus!
