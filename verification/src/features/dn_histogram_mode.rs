use vstd::prelude::*;

use crate::error::Catch22Result;
use crate::hist_count::{bin_count_bits, bin_step_bits, hist_counts, BinData};
use crate::primitive::{
    add_bits, bits_of_seq, div_bits, float_add, float_div, float_mul, float_nan, float_of_usize,
    from_usize_bits, is_nan_bits, min_of_bits, mul_bits, Float, BITS_HALF, BITS_ZERO,
};
use crate::utility::{any_nan, has_nan_bits};

verus! {

/// The centre of bin `i`: the mean of its two edges.
pub open spec fn bin_center_bits(edges: Seq<u64>, i: int) -> u64 {
    mul_bits(add_bits(edges[i], edges[i + 1]), BITS_HALF)
}

/// The mode scan over the first `n` bins: the maximal count seen, how many
/// bins tie for it, and the running sum of the tying bin centres.
pub open spec fn mode_fold(counts: Seq<usize>, edges: Seq<u64>, n: int) -> (int, int, u64)
    decreases n,
{
    if n <= 0 {
        (0, 1, BITS_ZERO)
    } else {
        let p = mode_fold(counts, edges, n - 1);
        let c = counts[n - 1];
        if c > p.0 {
            (c as int, 1, bin_center_bits(edges, n - 1))
        } else if c == p.0 {
            (p.0, p.1 + 1, add_bits(p.2, bin_center_bits(edges, n - 1)))
        } else {
            p
        }
    }
}

/// The histogram mode of the series over `bins` bins: the mean of the centres
/// of the bins that tie for the maximal count.
pub open spec fn histogram_mode_bits(s: Seq<u64>, bins: usize) -> u64 {
    let min = min_of_bits(s);
    let step = bin_step_bits(s, bins);
    let counts = Seq::new(bins as nat, |k: int| bin_count_bits(s, min, step, bins, k) as usize);
    let edges = Seq::new(
        (bins + 1) as nat,
        |i: int| add_bits(mul_bits(from_usize_bits(i as usize), step), min),
    );
    let f = mode_fold(counts, edges, bins as int);
    div_bits(f.2, from_usize_bits(f.1 as usize))
}

/// The mode of a histogram over `B` bins; ties are averaged by bin centre.
/// A series with NaN yields the NaN sentinel, an empty one a failure.
fn dn_histogram_mode<const B: usize, const BN: usize>(y: &[Float]) -> (r: Catch22Result<Float>)
    requires
        1 <= B < usize::MAX,
        BN == B + 1,
    ensures
        has_nan_bits(bits_of_seq(y@)) ==> (r matches Ok(v) && is_nan_bits(v.bits)),
        !has_nan_bits(bits_of_seq(y@)) && y@.len() == 0 ==> (r matches Err(e) && e is EmptyInput),
        !has_nan_bits(bits_of_seq(y@)) && y@.len() >= 1 ==> (r matches Ok(v) && v.bits
            == histogram_mode_bits(bits_of_seq(y@), B)),
{
    if any_nan(y) {
        return Ok(float_nan());
    }
    let ghost s = bits_of_seq(y@);
    let histogram: BinData<B, BN> = match hist_counts::<B, BN>(y) {
        Ok(h) => h,
        Err(e) => {
            return Err(e);
        },
    };
    let ghost min = min_of_bits(s);
    let ghost step = bin_step_bits(s, B);
    let ghost counts = Seq::new(B as nat, |k: int| bin_count_bits(s, min, step, B, k) as usize);
    let ghost edges = Seq::new(
        (B + 1) as nat,
        |i: int| add_bits(mul_bits(from_usize_bits(i as usize), step), min),
    );
    proof {
        assert forall|k: int| 0 <= k < B implies histogram.count@[k] == counts[k] by {}
        assert forall|i: int| 0 <= i < B + 1 implies histogram.edges@[i].bits == edges[i] by {}
    }

    let mut max_count: usize = 0;
    let mut num_maxs: usize = 1;
    let mut out = Float { bits: BITS_ZERO };
    let mut i: usize = 0;
    while i < B
        invariant
            0 <= i <= B,
            B < usize::MAX,
            histogram.count@.len() == B,
            histogram.edges@.len() == B + 1,
            forall|k: int| 0 <= k < B ==> histogram.count@[k] == counts[k],
            forall|k: int| 0 <= k < B + 1 ==> histogram.edges@[k].bits == edges[k],
            num_maxs <= i + 1,
            (max_count as int, num_maxs as int, out.bits) == mode_fold(counts, edges, i as int),
        decreases B - i,
    {
        let count = histogram.count[i];
        let center = float_mul(
            float_add(histogram.edges[i], histogram.edges[i + 1]),
            Float { bits: BITS_HALF },
        );
        proof {
            assert(center.bits == bin_center_bits(edges, i as int));
        }
        if count > max_count {
            max_count = count;
            num_maxs = 1;
            out = center;
        } else if count == max_count {
            num_maxs = num_maxs + 1;
            out = float_add(out, center);
        }
        i += 1;
    }
    Ok(float_div(out, float_of_usize(num_maxs)))
}

/// The five-bin histogram mode of the series.
pub fn dn_histogram_mode_5(y: &[Float]) -> (r: Catch22Result<Float>)
    ensures
        has_nan_bits(bits_of_seq(y@)) ==> (r matches Ok(v) && is_nan_bits(v.bits)),
        !has_nan_bits(bits_of_seq(y@)) && y@.len() == 0 ==> (r matches Err(e) && e is EmptyInput),
        !has_nan_bits(bits_of_seq(y@)) && y@.len() >= 1 ==> (r matches Ok(v) && v.bits
            == histogram_mode_bits(bits_of_seq(y@), 5)),
{
    dn_histogram_mode::<5, 6>(y)
}

/// The ten-bin histogram mode of the series.
pub fn dn_histogram_mode_10(y: &[Float]) -> (r: Catch22Result<Float>)
    ensures
        has_nan_bits(bits_of_seq(y@)) ==> (r matches Ok(v) && is_nan_bits(v.bits)),
        !has_nan_bits(bits_of_seq(y@)) && y@.len() == 0 ==> (r matches Err(e) && e is EmptyInput),
        !has_nan_bits(bits_of_seq(y@)) && y@.len() >= 1 ==> (r matches Ok(v) && v.bits
            == histogram_mode_bits(bits_of_seq(y@), 10)),
{
    dn_histogram_mode::<10, 11>(y)
}

} // verus!
