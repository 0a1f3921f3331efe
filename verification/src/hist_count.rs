use vstd::prelude::*;

use crate::error::{Catch22Error, Catch22Result};
use crate::primitive::{
    add_bits, bits_of_seq, div_bits, float_add, float_div, float_minmax, float_mul,
    float_of_usize, float_sub, float_to_usize, from_usize_bits, max_of_bits, min_of_bits,
    mul_bits, sub_bits, to_usize_bits, Float,
};
use crate::utility::has_nan_bits;

verus! {

/// A histogram with a compile-time bin count `B` and edge count `BN`.
pub struct BinData<const B: usize, const BN: usize> {
    pub count: Vec<usize>,
    pub edges: Vec<Float>,
}

/// A histogram with a runtime bin count.
pub struct BinDataFlexible {
    pub count: Vec<usize>,
    pub edges: Vec<Float>,
}

/// A histogram whose counts were divided by a total.
pub struct NormalizedBinDataFlexible {
    pub count: Vec<Float>,
    pub edges: Vec<Float>,
}

/// The common width of the bins over `s` split into `bins` bins.
pub open spec fn bin_step_bits(s: Seq<u64>, bins: usize) -> u64 {
    div_bits(sub_bits(max_of_bits(s), min_of_bits(s)), from_usize_bits(bins))
}

/// The bin receiving value `v`: the clamped floor of its distance from the
/// minimum in units of the step.  A value whose ratio has no usize
/// counterpart (a NaN ratio on a degenerate zero step) lands in bin zero.
pub open spec fn bin_index_bits(v: u64, min: u64, step: u64, bins: usize) -> int {
    match to_usize_bits(div_bits(sub_bits(v, min), step)) {
        Option::None => 0,
        Option::Some(i) => if i >= bins {
            bins - 1
        } else {
            i as int
        },
    }
}

/// How many of the samples land in bin `k`.
pub open spec fn bin_count_bits(s: Seq<u64>, min: u64, step: u64, bins: usize, k: int) -> nat
    decreases s.len(),
{
    if s.len() == 0 {
        0
    } else {
        bin_count_bits(s.drop_last(), min, step, bins, k) + (if bin_index_bits(
            s.last(),
            min,
            step,
            bins,
        ) == k {
            1nat
        } else {
            0nat
        })
    }
}

/// The sum of a sequence of counts.
pub open spec fn sum_counts(s: Seq<usize>) -> int
    decreases s.len(),
{
    if s.len() == 0 {
        0
    } else {
        sum_counts(s.drop_last()) + s.last()
    }
}

proof fn lemma_sum_counts_update(s: Seq<usize>, i: int, v: usize)
    requires
        0 <= i < s.len(),
    ensures
        sum_counts(s.update(i, v)) == sum_counts(s) - s[i] + v,
    decreases s.len(),
{
    if s.len() > 0 {
        if i == s.len() - 1 {
            assert(s.update(i, v).drop_last() =~= s.drop_last());
        } else {
            assert(s.update(i, v).drop_last() =~= s.drop_last().update(i, v));
            lemma_sum_counts_update(s.drop_last(), i, v);
        }
    }
}

proof fn lemma_bin_count_le(s: Seq<u64>, min: u64, step: u64, bins: usize, k: int)
    ensures
        bin_count_bits(s, min, step, bins, k) <= s.len(),
    decreases s.len(),
{
    if s.len() > 0 {
        lemma_bin_count_le(s.drop_last(), min, step, bins, k);
    }
}

/// The well-formedness of a flexible histogram over the series `s` with
/// `bins` bins: the counts count the samples per bin, the edges step evenly
/// from the minimum, and the counts sum to the number of samples.
pub open spec fn hist_ensures(s: Seq<u64>, bins: usize, h: BinDataFlexible) -> bool {
    let min = min_of_bits(s);
    let step = bin_step_bits(s, bins);
    &&& h.count@.len() == bins
    &&& h.edges@.len() == bins + 1
    &&& (forall|k: int|
        0 <= k < bins ==> h.count@[k] == bin_count_bits(s, min, step, bins, k))
    &&& (forall|i: int|
        0 <= i < bins + 1 ==> h.edges@[i].bits == add_bits(
            mul_bits(from_usize_bits(i as usize), step),
            min,
        ))
    &&& sum_counts(h.count@) == s.len()
}

/// Counts the samples into `bins` equal-width bins spanning the sample range.
/// The counts always sum to the length of the series.
pub fn hist_count_flexible(values: &[Float], bins: usize) -> (r: Catch22Result<BinDataFlexible>)
    requires
        !has_nan_bits(bits_of_seq(values@)),
        1 <= bins < usize::MAX,
    ensures
        r is Err <==> values@.len() == 0,
        r matches Err(e) ==> e is EmptyInput,
        r matches Ok(h) ==> hist_ensures(bits_of_seq(values@), bins, h),
{
    let ghost s = bits_of_seq(values@);
    let copy = vstd::slice::slice_to_vec(values);
    let (min, max) = match float_minmax(&copy) {
        Some(p) => p,
        None => {
            return Err(Catch22Error::EmptyInput);
        },
    };
    let bin_step = float_div(float_sub(max, min), float_of_usize(bins));
    let ghost step = bin_step_bits(s, bins);

    let mut count: Vec<usize> = Vec::new();
    let mut k: usize = 0;
    while k < bins
        invariant
            count@.len() == k <= bins,
            forall|j: int| 0 <= j < k ==> count@[j] == 0,
        decreases bins - k,
    {
        count.push(0);
        k += 1;
    }
    proof {
        assert forall|j: int| 0 <= j < bins implies count@[j] == bin_count_bits(
            s.take(0),
            min.bits,
            step,
            bins,
            j,
        ) by {}
        lemma_sum_zero(count@);
    }

    let mut i: usize = 0;
    while i < values.len()
        invariant
            0 <= i <= values@.len(),
            s == bits_of_seq(values@),
            min.bits == min_of_bits(s),
            bin_step.bits == step,
            step == bin_step_bits(s, bins),
            1 <= bins < usize::MAX,
            count@.len() == bins,
            forall|j: int|
                0 <= j < bins ==> count@[j] == bin_count_bits(
                    s.take(i as int),
                    min.bits,
                    step,
                    bins,
                    j,
                ),
            sum_counts(count@) == i,
        decreases values@.len() - i,
    {
        let v = values[i];
        let ratio = float_div(float_sub(v, min), bin_step);
        let bin_index: usize = match float_to_usize(ratio) {
            None => 0,
            Some(ix) => {
                if ix >= bins {
                    bins - 1
                } else {
                    ix
                }
            },
        };
        assert(bin_index == bin_index_bits(s[i as int], min.bits, step, bins));
        proof {
            lemma_bin_count_le(s.take(i as int), min.bits, step, bins, bin_index as int);
            lemma_sum_counts_update(count@, bin_index as int, (count@[bin_index as int] + 1) as usize);
        }
        let cur = count[bin_index];
        count[bin_index] = cur + 1;
        proof {
            assert forall|j: int| 0 <= j < bins implies count@[j] == bin_count_bits(
                s.take(i + 1),
                min.bits,
                step,
                bins,
                j,
            ) by {
                assert(s.take(i + 1).drop_last() =~= s.take(i as int));
                assert(s.take(i + 1).last() == s[i as int]);
            }
        }
        i += 1;
    }
    proof {
        assert(s.take(values@.len() as int) =~= s);
    }

    let mut edges: Vec<Float> = Vec::new();
    let mut e: usize = 0;
    while e < bins + 1
        invariant
            0 <= e <= bins + 1,
            bins < usize::MAX,
            min.bits == min_of_bits(s),
            bin_step.bits == step,
            edges@.len() == e,
            forall|j: int|
                0 <= j < e ==> edges@[j].bits == add_bits(
                    mul_bits(from_usize_bits(j as usize), step),
                    min.bits,
                ),
        decreases bins + 1 - e,
    {
        edges.push(float_add(float_mul(float_of_usize(e), bin_step), min));
        e += 1;
    }

    Ok(BinDataFlexible { count, edges })
}

proof fn lemma_sum_zero(s: Seq<usize>)
    requires
        forall|j: int| 0 <= j < s.len() ==> s[j] == 0,
    ensures
        sum_counts(s) == 0,
    decreases s.len(),
{
    if s.len() > 0 {
        lemma_sum_zero(s.drop_last());
    }
}

/// Counts the samples into `B` equal-width bins, with `B + 1` edges, in a
/// histogram sized at compile time.
pub fn hist_counts<const B: usize, const BN: usize>(y: &[Float]) -> (r: Catch22Result<
    BinData<B, BN>,
>)
    requires
        !has_nan_bits(bits_of_seq(y@)),
        1 <= B < usize::MAX,
        BN == B + 1,
    ensures
        r is Err <==> y@.len() == 0,
        r matches Err(e) ==> e is EmptyInput,
        r matches Ok(h) ==> hist_ensures(
            bits_of_seq(y@),
            B,
            (BinDataFlexible { count: h.count, edges: h.edges }),
        ),
{
    match hist_count_flexible(y, B) {
        Ok(h) => Ok(BinData { count: h.count, edges: h.edges }),
        Err(e) => Err(e),
    }
}

impl BinDataFlexible {
    /// Divides every count by `size`, turning counts into probability mass.
    pub fn normalize(self, size: usize) -> (r: Catch22Result<NormalizedBinDataFlexible>)
        ensures
            r is Err <==> size == 0,
            r matches Err(e) ==> e is EmptyInput,
            r matches Ok(nb) ==> nb.count@.len() == self.count@.len() && nb.edges@ == self.edges@
                && forall|i: int|
                0 <= i < nb.count@.len() ==> nb.count@[i].bits == div_bits(
                    from_usize_bits(self.count@[i]),
                    from_usize_bits(size),
                ),
    {
        if size == 0 {
            return Err(Catch22Error::EmptyInput);
        }
        let sf = float_of_usize(size);
        let mut count: Vec<Float> = Vec::new();
        let mut i: usize = 0;
        while i < self.count.len()
            invariant
                0 <= i <= self.count@.len(),
                sf.bits == from_usize_bits(size),
                count@.len() == i,
                forall|j: int|
                    0 <= j < i ==> count@[j].bits == div_bits(
                        from_usize_bits(self.count@[j]),
                        from_usize_bits(size),
                    ),
            decreases self.count@.len() - i,
        {
            count.push(float_div(float_of_usize(self.count[i]), sf));
            i += 1;
        }
        Ok(NormalizedBinDataFlexible { count, edges: self.edges })
    }
}

impl NormalizedBinDataFlexible {
    /// The number of bins.
    pub fn len(&self) -> (r: usize)
        ensures
            r == self.count@.len(),
    {
        self.count.len()
    }
}

} // verus!
