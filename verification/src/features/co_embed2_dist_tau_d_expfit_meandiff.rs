use vstd::prelude::*;

use crate::error::{Catch22Error, Catch22Result};
use crate::features::co_auto_corr::{co_firstzero, firstzero_spec, num_bins_auto, num_bins_auto_spec};
use crate::hist_count::{bin_count_bits, bin_step_bits, hist_count_flexible};
use crate::primitive::{
    abs_bits, add_bits, bits_of_seq, div_bits, exp_bits, float_abs, float_add, float_div,
    float_exp, float_max, float_mul, float_nan, float_neg, float_powi, float_sqrt,
    float_sub, from_usize_bits, is_nan_bits, max_bits, min_of_bits, mul_bits, neg_bits, powi_bits,
    sqrt_bits, sub_bits, Float, BITS_HALF, BITS_ZERO,
};
use crate::utility::{any_nan, has_nan_bits, mean, mean_bits, next_pow2_spec};

verus! {

/// The embedding delay: the autocorrelation zero crossing, capped at a tenth
/// of the length.
pub open spec fn embed2_tau_spec(s: Seq<u64>) -> int {
    let fz = firstzero_spec(s, s.len() as int);
    if fz < s.len() as int / 10 {
        fz
    } else {
        s.len() as int / 10
    }
}

/// The embedding-distance sample at `i`: the Euclidean step length between
/// the successive pair at `i` and the delayed pair at `i + tau`.
pub open spec fn embed2_d_at(s: Seq<u64>, tau: int, i: int) -> u64 {
    sqrt_bits(
        add_bits(
            powi_bits(sub_bits(s[i + 1], s[i]), 2),
            powi_bits(sub_bits(s[i + tau], s[i + tau + 1]), 2),
        ),
    )
}

/// The embedding-distance series.
pub open spec fn embed2_d_seq(s: Seq<u64>, tau: int) -> Seq<u64> {
    Seq::new((s.len() - tau - 1) as nat, |i: int| embed2_d_at(s, tau, i))
}

/// The expected-versus-observed deviation of histogram bin `i` against the
/// exponential fit with mean `dl`.
pub open spec fn embed2_term(d: Seq<u64>, bins: usize, dl: u64, i: int) -> u64 {
    let min = min_of_bits(d);
    let step = bin_step_bits(d, bins);
    let e0 = add_bits(mul_bits(from_usize_bits(i as usize), step), min);
    let e1 = add_bits(mul_bits(from_usize_bits((i + 1) as usize), step), min);
    let ncount = div_bits(
        from_usize_bits(bin_count_bits(d, min, step, bins, i) as usize),
        from_usize_bits(d.len() as usize),
    );
    let fit = div_bits(exp_bits(div_bits(mul_bits(neg_bits(add_bits(e0, e1)), BITS_HALF), dl)), dl);
    abs_bits(sub_bits(ncount, max_bits(fit, BITS_ZERO)))
}

/// The mean deviation between the normalized histogram of the embedding
/// distances and their exponential fit.
pub open spec fn embed2_bits(s: Seq<u64>) -> u64 {
    let d = embed2_d_seq(s, embed2_tau_spec(s));
    let dl = mean_bits(d);
    let bins = num_bins_auto_spec(d);
    mean_bits(Seq::new(bins as nat, |i: int| embed2_term(d, bins, dl, i)))
}

/// The mean difference between the histogram of two-dimensional embedding
/// distances and an exponential fit.  NaN in the input, NaN among the
/// distances, or a degenerate distance series yields the NaN sentinel; an
/// empty series is a structural failure.
pub fn co_embed2_dist_tau_d_expfit_meandiff(y: &[Float]) -> (r: Catch22Result<Float>)
    ensures
        has_nan_bits(bits_of_seq(y@)) ==> (r matches Ok(v) && is_nan_bits(v.bits)),
        !has_nan_bits(bits_of_seq(y@)) && y@.len() == 0 ==> (r matches Err(e) && e is EmptyInput),
        !has_nan_bits(bits_of_seq(y@)) && y@.len() >= 1 && 2 * next_pow2_spec(y@.len() as nat)
            > usize::MAX ==> (r matches Err(e) && e is SizeOver),
        !has_nan_bits(bits_of_seq(y@)) && y@.len() >= 1 && 2 * next_pow2_spec(y@.len() as nat)
            <= usize::MAX && (has_nan_bits(
            embed2_d_seq(bits_of_seq(y@), embed2_tau_spec(bits_of_seq(y@))),
        ) || embed2_d_seq(bits_of_seq(y@), embed2_tau_spec(bits_of_seq(y@))).len() < 2
            || num_bins_auto_spec(
            embed2_d_seq(bits_of_seq(y@), embed2_tau_spec(bits_of_seq(y@))),
        ) == 0) ==> (r matches Ok(v) && is_nan_bits(v.bits)),
        !has_nan_bits(bits_of_seq(y@)) && y@.len() >= 1 && 2 * next_pow2_spec(y@.len() as nat)
            <= usize::MAX && !has_nan_bits(
            embed2_d_seq(bits_of_seq(y@), embed2_tau_spec(bits_of_seq(y@))),
        ) && embed2_d_seq(bits_of_seq(y@), embed2_tau_spec(bits_of_seq(y@))).len() >= 2
            && num_bins_auto_spec(
            embed2_d_seq(bits_of_seq(y@), embed2_tau_spec(bits_of_seq(y@))),
        ) >= 1 && num_bins_auto_spec(
            embed2_d_seq(bits_of_seq(y@), embed2_tau_spec(bits_of_seq(y@))),
        ) < usize::MAX ==> (r matches Ok(v) && v.bits == embed2_bits(bits_of_seq(y@))),
{
    let ghost s = bits_of_seq(y@);
    if any_nan(y) {
        return Ok(float_nan());
    }
    if y.len() == 0 {
        return Err(Catch22Error::EmptyInput);
    }
    let fz = match co_firstzero(y, y.len()) {
        Ok(z) => z,
        Err(e) => {
            return Err(e);
        },
    };
    let tau = if fz < y.len() / 10 {
        fz
    } else {
        y.len() / 10
    };
    proof {
        assert(tau as int == embed2_tau_spec(s));
        assert(tau <= y@.len() / 10);
    }

    let m = y.len() - tau - 1;
    let mut d: Vec<Float> = Vec::new();
    let mut i: usize = 0;
    while i < m
        invariant
            0 <= i <= m,
            m == y@.len() - tau - 1,
            tau + 1 <= y@.len(),
            s == bits_of_seq(y@),
            d@.len() == i,
            forall|j: int| 0 <= j < i ==> d@[j].bits == embed2_d_at(s, tau as int, j),
        decreases m - i,
    {
        let a = float_powi(float_sub(y[i + 1], y[i]), 2);
        let b = float_powi(float_sub(y[i + tau], y[i + tau + 1]), 2);
        d.push(float_sqrt(float_add(a, b)));
        i += 1;
    }
    let ghost ds = embed2_d_seq(s, tau as int);
    proof {
        assert(bits_of_seq(d@) =~= ds);
    }

    if any_nan(d.as_slice()) {
        return Ok(float_nan());
    }
    if d.len() < 2 {
        return Ok(float_nan());
    }
    let dl = mean(d.as_slice()).unwrap();
    let bins = num_bins_auto(d.as_slice()).unwrap();
    if bins == 0 {
        return Ok(float_nan());
    }
    if bins == usize::MAX {
        return Ok(float_nan());
    }

    let bin_data = match hist_count_flexible(d.as_slice(), bins) {
        Ok(h) => h,
        Err(e) => {
            return Err(e);
        },
    };
    let dlen = d.len();
    let normalized = match bin_data.normalize(dlen) {
        Ok(nb) => nb,
        Err(e) => {
            return Err(e);
        },
    };

    let mut terms: Vec<Float> = Vec::new();
    let mut k: usize = 0;
    let nbins = normalized.len();
    proof {
        assert(normalized.count@.len() == bins);
        assert(normalized.edges@.len() == bins + 1);
    }
    while k < nbins
        invariant
            0 <= k <= nbins,
            nbins == bins,
            1 <= bins < usize::MAX,
            ds == embed2_d_seq(s, tau as int),
            dl.bits == mean_bits(ds),
            normalized.count@.len() == bins,
            normalized.edges@.len() == bins + 1,
            forall|j: int|
                0 <= j < bins ==> normalized.count@[j].bits == div_bits(
                    from_usize_bits(
                        bin_count_bits(
                            ds,
                            min_of_bits(ds),
                            bin_step_bits(ds, bins),
                            bins,
                            j,
                        ) as usize,
                    ),
                    from_usize_bits(ds.len() as usize),
                ),
            forall|j: int|
                0 <= j < bins + 1 ==> normalized.edges@[j].bits == add_bits(
                    mul_bits(from_usize_bits(j as usize), bin_step_bits(ds, bins)),
                    min_of_bits(ds),
                ),
            terms@.len() == k,
            forall|j: int|
                0 <= j < k ==> terms@[j].bits == embed2_term(ds, bins, mean_bits(ds), j),
        decreases nbins - k,
    {
        let fit = float_div(
            float_exp(
                float_div(
                    float_mul(
                        float_neg(float_add(normalized.edges[k], normalized.edges[k + 1])),
                        Float { bits: BITS_HALF },
                    ),
                    dl,
                ),
            ),
            dl,
        );
        terms.push(
            float_abs(float_sub(normalized.count[k], float_max(fit, Float { bits: BITS_ZERO }))),
        );
        k += 1;
    }
    proof {
        assert(bits_of_seq(terms@) =~= Seq::new(
            bins as nat,
            |i: int| embed2_term(ds, bins, mean_bits(ds), i),
        ));
    }
    Ok(mean(terms.as_slice()).unwrap())
}

} // verus!
