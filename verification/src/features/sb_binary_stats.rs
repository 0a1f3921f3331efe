use vstd::prelude::*;

use crate::error::{Catch22Error, Catch22Result};
use crate::primitive::{
    bits_of_seq, float_is_sign_negative, float_le, float_nan, float_of_usize, float_sub,
    from_usize_bits, is_nan_bits, le_bits, sign_bits, sub_bits, Float,
};
use crate::utility::{any_nan, has_nan_bits, mean_bits, mean_iter};

verus! {

/// The run-length fold over the closing flags: scanning left to right, a run
/// ends where the flag is set or at the last position; the state is the best
/// length seen and the position that closed the previous run.
pub open spec fn stretch_fold(close: Seq<bool>, n: int) -> (int, int)
    decreases n,
{
    if n <= 0 {
        (0, 0)
    } else {
        let p = stretch_fold(close, n - 1);
        let i = n - 1;
        if close[i] || i == close.len() - 1 {
            let st = i - p.1;
            if st > p.0 {
                (st, i)
            } else {
                (p.0, i)
            }
        } else {
            p
        }
    }
}

/// The closing flags of the difference variant: position `i` closes a run
/// when the step from sample `i` to `i + 1` does not decrease.
pub open spec fn diff_close_seq(s: Seq<u64>) -> Seq<bool> {
    Seq::new((s.len() - 1) as nat, |i: int| !sign_bits(sub_bits(s[i + 1], s[i])))
}

/// The closing flags of the mean variant: position `i` closes a run when the
/// sample does not exceed the series mean.
pub open spec fn mean_close_seq(s: Seq<u64>) -> Seq<bool> {
    Seq::new((s.len() - 1) as nat, |i: int| le_bits(s[i], mean_bits(s)))
}

/// The longest stretch of consecutive decreasing steps of the series.
/// A series with NaN yields the NaN sentinel; shorter than two samples is a
/// structural failure.
pub fn sb_binarystats_diff_longstretch0(values: &[Float]) -> (r: Catch22Result<Float>)
    ensures
        values@.len() == 0 ==> (r matches Err(e) && e is EmptyInput),
        values@.len() == 1 ==> (r matches Err(e) && (e matches Catch22Error::SizeUnder {
            len,
            expect_minimum,
        } && len == 1 && expect_minimum == 2)),
        values@.len() >= 2 && has_nan_bits(bits_of_seq(values@)) ==> (r matches Ok(v)
            && is_nan_bits(v.bits)),
        values@.len() >= 2 && !has_nan_bits(bits_of_seq(values@)) ==> (r matches Ok(v)
            && v.bits == from_usize_bits(
            stretch_fold(
                diff_close_seq(bits_of_seq(values@)),
                values@.len() - 1,
            ).0 as usize,
        )),
{
    if values.len() == 0 {
        return Err(Catch22Error::EmptyInput);
    }
    if values.len() <= 1 {
        return Err(Catch22Error::SizeUnder { len: values.len(), expect_minimum: 2 });
    }
    if any_nan(values) {
        return Ok(float_nan());
    }
    let ghost s = bits_of_seq(values@);
    let ghost close = diff_close_seq(s);
    let m = values.len() - 1;
    let mut max_stretch: usize = 0;
    let mut last: usize = 0;
    let mut i: usize = 0;
    while i < m
        invariant
            0 <= i <= m,
            m == values@.len() - 1,
            m >= 1,
            s == bits_of_seq(values@),
            close == diff_close_seq(s),
            last <= i,
            (max_stretch as int, last as int) == stretch_fold(close, i as int),
        decreases m - i,
    {
        let c = !float_is_sign_negative(float_sub(values[i + 1], values[i]));
        proof {
            assert(close[i as int] == c);
        }
        if c || i == m - 1 {
            let st = i - last;
            if st > max_stretch {
                max_stretch = st;
            }
            last = i;
        }
        i += 1;
    }
    Ok(float_of_usize(max_stretch))
}

/// The longest stretch of consecutive samples above the series mean.
/// A series with NaN yields the NaN sentinel; shorter than two samples is a
/// structural failure.
pub fn sb_binarystats_mean_longstretch1(values: &[Float]) -> (r: Catch22Result<Float>)
    ensures
        values@.len() == 0 ==> (r matches Err(e) && e is EmptyInput),
        values@.len() == 1 ==> (r matches Err(e) && (e matches Catch22Error::SizeUnder {
            len,
            expect_minimum,
        } && len == 1 && expect_minimum == 2)),
        values@.len() >= 2 && has_nan_bits(bits_of_seq(values@)) ==> (r matches Ok(v)
            && is_nan_bits(v.bits)),
        values@.len() >= 2 && !has_nan_bits(bits_of_seq(values@)) ==> (r matches Ok(v)
            && v.bits == from_usize_bits(
            stretch_fold(
                mean_close_seq(bits_of_seq(values@)),
                values@.len() - 1,
            ).0 as usize,
        )),
{
    if values.len() == 0 {
        return Err(Catch22Error::EmptyInput);
    }
    if values.len() <= 1 {
        return Err(Catch22Error::SizeUnder { len: values.len(), expect_minimum: 2 });
    }
    if any_nan(values) {
        return Ok(float_nan());
    }
    let ghost s = bits_of_seq(values@);
    let ghost close = mean_close_seq(s);
    let mean = mean_iter(values).unwrap();
    let m = values.len() - 1;
    let mut max_stretch: usize = 0;
    let mut last: usize = 0;
    let mut i: usize = 0;
    while i < m
        invariant
            0 <= i <= m,
            m == values@.len() - 1,
            m >= 1,
            s == bits_of_seq(values@),
            close == mean_close_seq(s),
            mean.bits == mean_bits(s),
            last <= i,
            (max_stretch as int, last as int) == stretch_fold(close, i as int),
        decreases m - i,
    {
        let c = float_le(values[i], mean);
        proof {
            assert(close[i as int] == c);
        }
        if c || i == m - 1 {
            let st = i - last;
            if st > max_stretch {
                max_stretch = st;
            }
            last = i;
        }
        i += 1;
    }
    Ok(float_of_usize(max_stretch))
}

} // verus!
