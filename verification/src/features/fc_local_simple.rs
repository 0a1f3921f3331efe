use vstd::prelude::*;

use crate::error::{Catch22Error, Catch22Result};
use crate::features::co_auto_corr::{co_firstzero, firstzero_spec};
use crate::primitive::{
    bits_of_seq, div_bits, float_div, float_nan, float_of_usize, float_sub, from_usize_bits,
    is_nan_bits, sub_bits, Float,
};
use crate::utility::{any_nan, has_nan_bits, mean, mean_bits, next_pow2_spec, stddev, stddev_bits};

verus! {

/// The local-forecast residual at position `i`: the sample one window past
/// `i` minus the mean of the window of length `train_length` starting at `i`.
pub open spec fn train_resid_bits(s: Seq<u64>, train_length: int, i: int) -> u64 {
    sub_bits(s[i + train_length], mean_bits(s.subrange(i, i + train_length)))
}

/// The residual series of the local mean forecast.
pub open spec fn train_seq(s: Seq<u64>, train_length: int) -> Seq<u64> {
    Seq::new((s.len() - train_length) as nat, |i: int| train_resid_bits(s, train_length, i))
}

/// The residuals of forecasting each sample by the mean of the
/// `train_length` samples before it; a zero window length is rejected as an
/// invalid parameter.
pub fn train_mean(values: &[Float], train_length: usize) -> (r: Catch22Result<Vec<Float>>)
    requires
        values@.len() >= train_length,
    ensures
        r is Err <==> train_length == 0,
        r matches Err(e) ==> (e matches Catch22Error::InvalidUsizeParameter { name, value }
            && name@ == "train_length"@ && value == 0),
        r matches Ok(res) ==> bits_of_seq(res@) =~= train_seq(
            bits_of_seq(values@),
            train_length as int,
        ),
{
    if train_length == 0 {
        return Err(
            Catch22Error::InvalidUsizeParameter { name: "train_length", value: train_length },
        );
    }
    let ghost s = bits_of_seq(values@);
    let n = values.len() - train_length;
    let mut res: Vec<Float> = Vec::new();
    let mut i: usize = 0;
    while i < n
        invariant
            0 <= i <= n,
            n == values@.len() - train_length,
            train_length >= 1,
            s == bits_of_seq(values@),
            res@.len() == i,
            forall|j: int|
                0 <= j < i ==> res@[j].bits == train_resid_bits(s, train_length as int, j),
        decreases n - i,
    {
        let window = &values[i..i + train_length];
        proof {
            assert(bits_of_seq(window@) =~= s.subrange(i as int, i + train_length));
        }
        let m = mean(window).unwrap();
        res.push(float_sub(values[i + train_length], m));
        i += 1;
    }
    Ok(res)
}

/// Whether both transform sizes of the ratio statistic fit in a usize.
pub open spec fn tauresrat_fits(len: int, train_length: int) -> bool {
    &&& 2 * next_pow2_spec((len - train_length) as nat) <= usize::MAX
    &&& 2 * next_pow2_spec(len as nat) <= usize::MAX
}

/// The ratio of the residual series' first autocorrelation zero crossing to
/// that of the series itself.
pub open spec fn tauresrat_bits(s: Seq<u64>, train_length: int) -> u64 {
    let res = train_seq(s, train_length);
    div_bits(
        from_usize_bits(firstzero_spec(res, s.len() - train_length) as usize),
        from_usize_bits(firstzero_spec(s, s.len() as int) as usize),
    )
}

/// The ratio of the first autocorrelation zero crossing of the local-mean
/// forecast residuals to that of the series itself.  NaN anywhere in the
/// input yields the NaN sentinel; a zero window length or a series not
/// longer than the window is a structural failure.
pub fn fc_local_simple_mean_tauresrat(values: &[Float], train_length: usize) -> (r: Catch22Result<
    Float,
>)
    requires
        train_length < usize::MAX,
    ensures
        has_nan_bits(bits_of_seq(values@)) ==> (r matches Ok(v) && is_nan_bits(v.bits)),
        !has_nan_bits(bits_of_seq(values@)) && train_length == 0 ==> (r matches Err(e) && (
        e matches Catch22Error::InvalidUsizeParameter { name, value } && name@ == "train_length"@
            && value == 0)),
        !has_nan_bits(bits_of_seq(values@)) && train_length >= 1 && values@.len() <= train_length
            ==> (r matches Err(e) && e is SizeUnder),
        !has_nan_bits(bits_of_seq(values@)) && train_length >= 1 && values@.len() > train_length
            && !tauresrat_fits(values@.len() as int, train_length as int) ==> (r matches Err(e)
            && e is SizeOver),
        !has_nan_bits(bits_of_seq(values@)) && train_length >= 1 && values@.len() > train_length
            && tauresrat_fits(values@.len() as int, train_length as int) ==> (r matches Ok(v)
            && v.bits == tauresrat_bits(bits_of_seq(values@), train_length as int)),
{
    if any_nan(values) {
        return Ok(float_nan());
    }
    if train_length == 0 {
        return Err(
            Catch22Error::InvalidUsizeParameter { name: "train_length", value: train_length },
        );
    }
    if values.len() <= train_length {
        return Err(
            Catch22Error::SizeUnder { len: values.len(), expect_minimum: train_length + 1 },
        );
    }
    let res = match train_mean(values, train_length) {
        Ok(res) => res,
        Err(e) => {
            return Err(e);
        },
    };
    let res_ac_1st_z = match co_firstzero(res.as_slice(), values.len() - train_length) {
        Ok(z) => z,
        Err(e) => {
            return Err(e);
        },
    };
    let y_ac_1st_x = match co_firstzero(values, values.len()) {
        Ok(z) => z,
        Err(e) => {
            return Err(e);
        },
    };
    Ok(float_div(float_of_usize(res_ac_1st_z), float_of_usize(y_ac_1st_x)))
}

/// The standard deviation of the local-mean forecast residuals.
pub open spec fn local_simple_stderr_bits(s: Seq<u64>, train_length: int) -> u64 {
    stddev_bits(train_seq(s, train_length))
}

/// The standard deviation of the residuals of forecasting each sample by the
/// mean of the window before it.  NaN anywhere in the input yields the NaN
/// sentinel; a zero window or a series shorter than the window plus two is a
/// structural failure.
pub fn fc_local_simple_mean_stderr(values: &[Float], train_length: usize) -> (r: Catch22Result<
    Float,
>)
    requires
        train_length < usize::MAX - 1,
    ensures
        has_nan_bits(bits_of_seq(values@)) ==> (r matches Ok(v) && is_nan_bits(v.bits)),
        !has_nan_bits(bits_of_seq(values@)) && train_length == 0 ==> (r matches Err(e) && (
        e matches Catch22Error::InvalidUsizeParameter { name, value } && name@ == "train_length"@
            && value == 0)),
        !has_nan_bits(bits_of_seq(values@)) && train_length >= 1 && values@.len() < train_length
            + 2 ==> (r matches Err(e) && e is SizeUnder),
        !has_nan_bits(bits_of_seq(values@)) && train_length >= 1 && values@.len() >= train_length
            + 2 ==> (r matches Ok(v) && v.bits == local_simple_stderr_bits(
            bits_of_seq(values@),
            train_length as int,
        )),
{
    if any_nan(values) {
        return Ok(float_nan());
    }
    if train_length == 0 {
        return Err(
            Catch22Error::InvalidUsizeParameter { name: "train_length", value: train_length },
        );
    }
    if values.len() < train_length + 2 {
        return Err(
            Catch22Error::SizeUnder { len: values.len(), expect_minimum: train_length + 2 },
        );
    }
    let res = match train_mean(values, train_length) {
        Ok(res) => res,
        Err(e) => {
            return Err(e);
        },
    };
    Ok(stddev(res.as_slice()).unwrap())
}

/// The zero-crossing ratio statistic with a training window of one sample.
pub fn fc_local_simple_mean1_tauresrat(values: &[Float]) -> (r: Catch22Result<Float>)
    ensures
        has_nan_bits(bits_of_seq(values@)) ==> (r matches Ok(v) && is_nan_bits(v.bits)),
        !has_nan_bits(bits_of_seq(values@)) && values@.len() <= 1 ==> (r matches Err(e)
            && e is SizeUnder),
        !has_nan_bits(bits_of_seq(values@)) && values@.len() > 1 && !tauresrat_fits(
            values@.len() as int,
            1,
        ) ==> (r matches Err(e) && e is SizeOver),
        !has_nan_bits(bits_of_seq(values@)) && values@.len() > 1 && tauresrat_fits(
            values@.len() as int,
            1,
        ) ==> (r matches Ok(v) && v.bits == tauresrat_bits(bits_of_seq(values@), 1)),
{
    fc_local_simple_mean_tauresrat(values, 1)
}

/// The forecast-residual spread statistic with a training window of three.
pub fn fc_localsimple_mean3_stderr(values: &[Float]) -> (r: Catch22Result<Float>)
    ensures
        has_nan_bits(bits_of_seq(values@)) ==> (r matches Ok(v) && is_nan_bits(v.bits)),
        !has_nan_bits(bits_of_seq(values@)) && values@.len() < 5 ==> (r matches Err(e)
            && e is SizeUnder),
        !has_nan_bits(bits_of_seq(values@)) && values@.len() >= 5 ==> (r matches Ok(v) && v.bits
            == local_simple_stderr_bits(bits_of_seq(values@), 3)),
{
    fc_local_simple_mean_stderr(values, 3)
}

} // verus!
