use vstd::prelude::*;

use crate::error::{Catch22Error, Catch22Result};
use crate::primitive::{
    add_bits, bits_of_seq, div_bits, float_add, float_div, float_nan, float_of_usize, float_sub,
    from_usize_bits, is_nan_bits, neg_bits, sub_bits, Float, BITS_ONE, BITS_ZERO,
};
use crate::utility::{
    any_nan, entropy, entropy_sum_bits, has_nan_bits, lemma_alphabet_value, sb_coarsegrain,
    symbol_from_bits, threshold_bits, Alphabet,
};

verus! {

/// The three-symbol coarse-graining label of sample `j`.
pub open spec fn motif_sym(s: Seq<u64>, j: int) -> usize {
    symbol_from_bits(threshold_bits(s, 3), s[j], 0)
}

/// How many positions `j` below `upto` step from symbol `a` to symbol `b`.
pub open spec fn motif_trans_count(s: Seq<u64>, a: int, b: int, upto: int) -> nat
    decreases upto,
{
    if upto <= 0 {
        0
    } else {
        motif_trans_count(s, a, b, upto - 1) + (if motif_sym(s, upto - 1) == a && motif_sym(
            s,
            upto,
        ) == b {
            1nat
        } else {
            0nat
        })
    }
}

/// The empirical next-symbol distribution of symbol `a`: the three transition
/// counts divided by the series length less one.
pub open spec fn motif_row(s: Seq<u64>, a: int) -> Seq<u64> {
    Seq::new(
        3,
        |b: int|
            div_bits(
                from_usize_bits(motif_trans_count(s, a, b, s.len() - 1) as usize),
                sub_bits(from_usize_bits(s.len() as usize), BITS_ONE),
            ),
    )
}

/// The summed Shannon entropies of the three next-symbol distributions.
pub open spec fn motif3_bits(s: Seq<u64>) -> u64 {
    add_bits(
        add_bits(
            add_bits(BITS_ZERO, neg_bits(entropy_sum_bits(motif_row(s, 0)))),
            neg_bits(entropy_sum_bits(motif_row(s, 1))),
        ),
        neg_bits(entropy_sum_bits(motif_row(s, 2))),
    )
}

/// The motif-three symbolic entropy: coarse-grains the series into three
/// quantile symbols and sums the entropies of the next-symbol distributions.
/// NaN anywhere in the input yields the NaN sentinel; an empty series is a
/// structural failure.
pub fn sb_motif_three_quantile_hh(values: &[Float]) -> (r: Catch22Result<Float>)
    ensures
        values@.len() == 0 ==> (r matches Err(e) && e is EmptyInput),
        values@.len() >= 1 && has_nan_bits(bits_of_seq(values@)) ==> (r matches Ok(v)
            && is_nan_bits(v.bits)),
        values@.len() >= 1 && !has_nan_bits(bits_of_seq(values@)) ==> (r matches Ok(v) && v.bits
            == motif3_bits(bits_of_seq(values@))),
{
    if values.len() == 0 {
        return Err(Catch22Error::EmptyInput);
    }
    if any_nan(values) {
        return Ok(float_nan());
    }
    let ghost s = bits_of_seq(values@);
    let labels = sb_coarsegrain(values, 3);
    let n = values.len();
    let denom = float_sub(float_of_usize(n), Float { bits: BITS_ONE });

    let mut hh = Float { bits: BITS_ZERO };
    let mut a: usize = 0;
    while a < 3
        invariant
            0 <= a <= 3,
            n == values@.len() >= 1,
            s == bits_of_seq(values@),
            labels@.len() == n,
            forall|j: int| 0 <= j < n ==> (#[trigger] labels@[j]).value() == motif_sym(s, j),
            denom.bits == sub_bits(from_usize_bits(n), BITS_ONE),
            a == 0 ==> hh.bits == BITS_ZERO,
            a == 1 ==> hh.bits == add_bits(BITS_ZERO, neg_bits(entropy_sum_bits(motif_row(s, 0)))),
            a == 2 ==> hh.bits == add_bits(
                add_bits(BITS_ZERO, neg_bits(entropy_sum_bits(motif_row(s, 0)))),
                neg_bits(entropy_sum_bits(motif_row(s, 1))),
            ),
            a == 3 ==> hh.bits == motif3_bits(s),
        decreases 3 - a,
    {
        let mut v: Vec<Float> = Vec::new();
        let mut b: usize = 0;
        while b < 3
            invariant
                0 <= b <= 3,
                n == values@.len() >= 1,
                s == bits_of_seq(values@),
                labels@.len() == n,
                forall|j: int| 0 <= j < n ==> (#[trigger] labels@[j]).value() == motif_sym(s, j),
                denom.bits == sub_bits(from_usize_bits(n), BITS_ONE),
                v@.len() == b,
                forall|w: int| 0 <= w < b ==> v@[w].bits == motif_row(s, a as int)[w],
            decreases 3 - b,
        {
            let mut cnt: usize = 0;
            let mut j: usize = 0;
            while j + 1 < n
                invariant
                    0 <= j,
                    j + 1 <= n,
                    n == values@.len(),
                    s == bits_of_seq(values@),
                    labels@.len() == n,
                    forall|w: int|
                        0 <= w < n ==> (#[trigger] labels@[w]).value() == motif_sym(s, w),
                    cnt == motif_trans_count(s, a as int, b as int, j as int),
                    cnt <= j,
                decreases n - j,
            {
                let la = Alphabet::from_zero_indexed(a);
                let lb = Alphabet::from_zero_indexed(b);
                proof {
                    lemma_alphabet_value(labels@[j as int], la);
                    lemma_alphabet_value(labels@[j + 1], lb);
                }
                if labels[j] == la && labels[j + 1] == lb {
                    cnt = cnt + 1;
                }
                j += 1;
            }
            v.push(float_div(float_of_usize(cnt), denom));
            b += 1;
        }
        proof {
            assert(bits_of_seq(v@) =~= motif_row(s, a as int));
        }
        let e = entropy(v.as_slice());
        hh = float_add(hh, e);
        a += 1;
    }
    Ok(hh)
}

} // verus!
