use vstd::prelude::*;

use crate::error::{Catch22Error, Catch22Result};
use crate::primitive::{
    add_bits, as_usize_bits, bits_of_seq, div_bits, eq_bits, float_add, float_as_usize, float_div,
    float_eq, float_le, float_lt, float_minmax, float_mul, float_nan, float_of_usize, float_sub,
    from_usize_bits, is_nan_bits, le_bits, lt_bits, max_of_bits, mul_bits, sub_bits, Float,
    BITS_CENTI, BITS_NEG_ONE, BITS_ONE, BITS_TWO, BITS_ZERO,
};
use crate::stat::{median, median_bits};
use crate::utility::{any_nan, has_nan_bits};

verus! {

/// The sign factor: one, minus one, or zero, as an integer signum cast to a
/// double.
pub open spec fn signum_bits(sign: i8) -> u64 {
    if sign > 0 {
        BITS_ONE
    } else if sign < 0 {
        BITS_NEG_ONE
    } else {
        BITS_ZERO
    }
}

/// The working series: every sample multiplied by the sign factor.
pub open spec fn work_seq(s: Seq<u64>, sign: i8) -> Seq<u64> {
    Seq::new(s.len(), |i: int| mul_bits(s[i], signum_bits(sign)))
}

/// How many of the first `upto` working samples are at least zero.
pub open spec fn nonneg_count(w: Seq<u64>, upto: int) -> nat
    decreases upto,
{
    if upto <= 0 {
        0
    } else {
        nonneg_count(w, upto - 1) + (if le_bits(BITS_ZERO, w[upto - 1]) {
            1nat
        } else {
            0nat
        })
    }
}

/// The sweep step: one hundredth.
pub open spec fn outlier_inc() -> u64 {
    div_bits(BITS_ONE, from_usize_bits(100))
}

/// The sweep threshold at step `j`.
pub open spec fn step_threshold(j: int) -> u64 {
    mul_bits(from_usize_bits(j as usize), outlier_inc())
}

/// The one-based positions (as doubles) of the first `upto` working samples
/// that exceed the threshold `t`.
pub open spec fn high_pos_seq(w: Seq<u64>, t: u64, upto: int) -> Seq<u64>
    decreases upto,
{
    if upto <= 0 {
        Seq::empty()
    } else {
        let p = high_pos_seq(w, t, upto - 1);
        if lt_bits(t, w[upto - 1]) {
            p.push(from_usize_bits(upto as usize))
        } else {
            p
        }
    }
}

/// The per-step statistic: the median of the exceeding positions rescaled to
/// about `[-1, 1]`; zero where no position exceeds (a slot the sweep never
/// reads back, since the trim stops before it).
pub open spec fn ms_entry(s_len: int, w: Seq<u64>, j: int) -> u64 {
    let idx = high_pos_seq(w, step_threshold(j), w.len() as int);
    if idx.len() == 0 {
        BITS_ZERO
    } else {
        sub_bits(
            div_bits(median_bits(idx), div_bits(from_usize_bits(s_len as usize), BITS_TWO)),
            BITS_ONE,
        )
    }
}

/// The per-step statistics of the whole sweep.
pub open spec fn ms_seq(s_len: int, w: Seq<u64>, threshold: int) -> Seq<u64> {
    Seq::new(threshold as nat, |j: int| ms_entry(s_len, w, j))
}

/// The first sweep step below `j` whose exceeding-position set is empty.
pub open spec fn fbi_upto(w: Seq<u64>, j: int) -> Option<int>
    decreases j,
{
    if j <= 0 {
        Option::None
    } else {
        let p = fbi_upto(w, j - 1);
        if p is Some {
            p
        } else if high_pos_seq(w, step_threshold(j - 1), w.len() as int).len() == 0 {
            Option::Some(j - 1)
        } else {
            Option::None
        }
    }
}

/// Whether sweep step `j` keeps more than two percent of the nonnegative
/// samples above the threshold.
pub open spec fn mj_cond(w: Seq<u64>, tot: nat, j: int) -> bool {
    let c = high_pos_seq(w, step_threshold(j), w.len() as int).len();
    c >= 1 && lt_bits(
        BITS_TWO,
        div_bits(
            mul_bits(from_usize_bits((c - 1) as usize), from_usize_bits(100)),
            from_usize_bits(tot as usize),
        ),
    )
}

/// The last sweep step below `j` satisfying the two-percent condition, or
/// zero when none does.
pub open spec fn mj_upto(w: Seq<u64>, tot: nat, j: int) -> int
    decreases j,
{
    if j <= 0 {
        0
    } else if mj_cond(w, tot, j - 1) {
        j - 1
    } else {
        mj_upto(w, tot, j - 1)
    }
}

/// Whether every sample beyond the first equals the first.
pub open spec fn all_eq_first(s: Seq<u64>) -> bool {
    forall|i: int| 1 <= i < s.len() ==> eq_bits(#[trigger] s[i], s[0])
}

/// The number of sweep steps: the scaled maximum plus one, floored to usize.
pub open spec fn sweep_threshold(w: Seq<u64>) -> usize {
    as_usize_bits(add_bits(mul_bits(max_of_bits(w), from_usize_bits(100)), BITS_ONE))
}

/// The median of the per-step medians up to the trim limit.
pub open spec fn outlier_mdrmd_bits(s: Seq<u64>, sign: i8) -> u64 {
    let w = work_seq(s, sign);
    let tot = nonneg_count(w, w.len() as int);
    let threshold = sweep_threshold(w) as int;
    let ms = ms_seq(s.len() as int, w, threshold);
    let fbi = match fbi_upto(w, threshold) {
        Option::Some(j) => j,
        Option::None => threshold - 1,
    };
    let mj = mj_upto(w, tot, threshold);
    let trim = if mj < fbi {
        mj
    } else {
        fbi
    };
    median_bits(ms.subrange(0, trim + 1))
}

/// The guard of the interesting branch: no NaN, at least one sample, not a
/// constant series, and a scaled maximum of at least one hundredth.
pub open spec fn outlier_live(s: Seq<u64>, sign: i8) -> bool {
    &&& !has_nan_bits(s)
    &&& s.len() >= 1
    &&& !all_eq_first(s)
    &&& !lt_bits(max_of_bits(work_seq(s, sign)), BITS_CENTI)
}

/// The median-of-rescaled-median-positions sweep over outlier thresholds.
/// NaN anywhere in the input yields the NaN sentinel; an empty series is a
/// structural failure; a constant series or a tiny maximum yields zero.
fn dn_outliner_include_np_001_mdrmd(y: &[Float], sign: i8) -> (r: Catch22Result<Float>)
    ensures
        has_nan_bits(bits_of_seq(y@)) ==> (r matches Ok(v) && is_nan_bits(v.bits)),
        !has_nan_bits(bits_of_seq(y@)) && y@.len() == 0 ==> (r matches Err(e) && e is EmptyInput),
        !has_nan_bits(bits_of_seq(y@)) && y@.len() >= 1 && all_eq_first(bits_of_seq(y@)) ==> (
        r matches Ok(v) && v.bits == BITS_ZERO),
        !has_nan_bits(bits_of_seq(y@)) && y@.len() >= 1 && !all_eq_first(bits_of_seq(y@))
            && lt_bits(max_of_bits(work_seq(bits_of_seq(y@), sign)), BITS_CENTI) ==> (
        r matches Ok(v) && v.bits == BITS_ZERO),
        outlier_live(bits_of_seq(y@), sign) && sweep_threshold(work_seq(bits_of_seq(y@), sign))
            == 0 ==> (r matches Ok(v) && v.bits == BITS_ZERO),
        outlier_live(bits_of_seq(y@), sign) && sweep_threshold(work_seq(bits_of_seq(y@), sign))
            >= 1 && has_nan_bits(
            ms_seq(
                y@.len() as int,
                work_seq(bits_of_seq(y@), sign),
                sweep_threshold(work_seq(bits_of_seq(y@), sign)) as int,
            ),
        ) ==> (r matches Ok(v) && is_nan_bits(v.bits)),
        outlier_live(bits_of_seq(y@), sign) && sweep_threshold(work_seq(bits_of_seq(y@), sign))
            >= 1 && !has_nan_bits(
            ms_seq(
                y@.len() as int,
                work_seq(bits_of_seq(y@), sign),
                sweep_threshold(work_seq(bits_of_seq(y@), sign)) as int,
            ),
        ) ==> (r matches Ok(v) && v.bits == outlier_mdrmd_bits(bits_of_seq(y@), sign)),
{
    let ghost s = bits_of_seq(y@);
    if any_nan(y) {
        return Ok(float_nan());
    }
    if y.len() == 0 {
        return Err(Catch22Error::EmptyInput);
    }
    let n = y.len();
    let y_first = y[0];

    let mut i: usize = 1;
    let mut all_eq = true;
    while i < n && all_eq
        invariant
            1 <= i <= n,
            n == y@.len(),
            s == bits_of_seq(y@),
            y_first == y@[0],
            all_eq ==> (forall|j: int| 1 <= j < i ==> eq_bits(#[trigger] s[j], s[0])),
            !all_eq ==> !all_eq_first(s),
        decreases n - i,
    {
        if !float_eq(y[i], y_first) {
            all_eq = false;
            proof {
                assert(!eq_bits(s[i as int], s[0]));
                assert(!all_eq_first(s));
            }
        }
        i += 1;
    }
    if all_eq {
        proof {
            assert(all_eq_first(s));
        }
        return Ok(Float { bits: BITS_ZERO });
    }

    let signf = if sign > 0 {
        Float { bits: BITS_ONE }
    } else if sign < 0 {
        Float { bits: BITS_NEG_ONE }
    } else {
        Float { bits: BITS_ZERO }
    };
    let ghost w = work_seq(s, sign);
    let mut y_work: Vec<Float> = Vec::new();
    let mut i2: usize = 0;
    while i2 < n
        invariant
            0 <= i2 <= n,
            n == y@.len(),
            s == bits_of_seq(y@),
            w == work_seq(s, sign),
            w.len() == n,
            signf.bits == signum_bits(sign),
            y_work@.len() == i2,
            forall|j: int| 0 <= j < i2 ==> y_work@[j].bits == w[j],
        decreases n - i2,
    {
        y_work.push(float_mul(y[i2], signf));
        i2 += 1;
    }

    let mut tot: usize = 0;
    let mut i3: usize = 0;
    while i3 < n
        invariant
            0 <= i3 <= n,
            n == y@.len(),
            w == work_seq(s, sign),
            w.len() == n,
            y_work@.len() == n,
            forall|j: int| 0 <= j < n ==> y_work@[j].bits == w[j],
            tot == nonneg_count(w, i3 as int),
            tot <= i3,
        decreases n - i3,
    {
        if float_le(Float { bits: BITS_ZERO }, y_work[i3]) {
            tot = tot + 1;
        }
        i3 += 1;
    }
    let tot_f = float_of_usize(tot);

    let max = match float_minmax(&y_work) {
        Some(p) => p.1,
        None => {
            return Err(Catch22Error::EmptyInput);
        },
    };
    proof {
        assert(bits_of_seq(y_work@) =~= w);
    }
    if float_lt(max, Float { bits: BITS_CENTI }) {
        return Ok(Float { bits: BITS_ZERO });
    }

    let threshold = float_as_usize(
        float_add(float_mul(max, float_of_usize(100)), Float { bits: BITS_ONE }),
    );
    if threshold == 0 {
        return Ok(Float { bits: BITS_ZERO });
    }
    let inc = float_div(Float { bits: BITS_ONE }, float_of_usize(100));

    let mut fbi: Option<usize> = None;
    let mut mj: usize = 0;
    let mut ms_dti4: Vec<Float> = Vec::new();
    let mut j: usize = 0;
    while j < threshold
        invariant
            0 <= j <= threshold,
            threshold >= 1,
            n == y@.len() >= 1,
            s == bits_of_seq(y@),
            w == work_seq(s, sign),
            w.len() == n,
            y_work@.len() == n,
            forall|k: int| 0 <= k < n ==> y_work@[k].bits == w[k],
            tot == nonneg_count(w, n as int),
            tot_f.bits == from_usize_bits(tot),
            inc.bits == outlier_inc(),
            ms_dti4@.len() == j,
            forall|k: int| 0 <= k < j ==> ms_dti4@[k].bits == ms_entry(n as int, w, k),
            (fbi is None <==> fbi_upto(w, j as int) is None),
            (fbi matches Some(v) ==> fbi_upto(w, j as int) == Option::Some(v as int) && v
                < threshold),
            mj as int == mj_upto(w, tot as nat, j as int),
            mj < threshold,
        decreases threshold - j,
    {
        let t = float_mul(float_of_usize(j), inc);
        let ghost tj = step_threshold(j as int);
        proof {
            assert(t.bits == tj);
        }
        let mut indices: Vec<Float> = Vec::new();
        let mut idx: usize = 0;
        while idx < n
            invariant
                0 <= idx <= n,
                n == y@.len(),
                w == work_seq(s, sign),
                w.len() == n,
                y_work@.len() == n,
                forall|k: int| 0 <= k < n ==> y_work@[k].bits == w[k],
                t.bits == tj,
                bits_of_seq(indices@) =~= high_pos_seq(w, tj, idx as int),
                forall|k: int| 0 <= k < indices@.len() ==> !is_nan_bits(indices@[k].bits),
            decreases n - idx,
        {
            if float_lt(t, y_work[idx]) {
                indices.push(float_of_usize(idx + 1));
            }
            idx += 1;
        }
        let high_value_count = indices.len();
        proof {
            assert(bits_of_seq(indices@) =~= high_pos_seq(w, tj, n as int));
        }

        if high_value_count == 0 && fbi.is_none() {
            fbi = Some(j);
        }
        if high_value_count >= 1 {
            let frac = float_div(
                float_mul(float_of_usize(high_value_count - 1), float_of_usize(100)),
                tot_f,
            );
            if float_lt(Float { bits: BITS_TWO }, frac) {
                mj = j;
            }
        }
        if high_value_count == 0 {
            ms_dti4.push(Float { bits: BITS_ZERO });
        } else {
            let med = median(indices.as_slice());
            ms_dti4.push(
                float_sub(
                    float_div(med, float_div(float_of_usize(n), Float { bits: BITS_TWO })),
                    Float { bits: BITS_ONE },
                ),
            );
        }
        proof {
            assert(ms_dti4@[j as int].bits == ms_entry(n as int, w, j as int));
        }
        j += 1;
    }
    proof {
        assert(bits_of_seq(ms_dti4@) =~= ms_seq(n as int, w, threshold as int));
    }

    let fbi_v = match fbi {
        Some(v) => v,
        None => threshold - 1,
    };
    let trim_limit = if mj < fbi_v {
        mj
    } else {
        fbi_v
    };
    if any_nan(ms_dti4.as_slice()) {
        return Ok(float_nan());
    }
    let sl = &ms_dti4[0..trim_limit + 1];
    proof {
        assert(bits_of_seq(sl@) =~= ms_seq(n as int, w, threshold as int).subrange(
            0,
            trim_limit + 1,
        ));
        assert forall|k: int| 0 <= k < sl@.len() implies !is_nan_bits(bits_of_seq(sl@)[k]) by {
            assert(bits_of_seq(sl@)[k] == bits_of_seq(ms_dti4@)[k]);
        }
    }
    Ok(median(sl))
}

/// The outlier-inclusion sweep over positive thresholds.
pub fn dn_outliner_include_p_001_mdrmd(y: &[Float]) -> (r: Catch22Result<Float>)
    ensures
        has_nan_bits(bits_of_seq(y@)) ==> (r matches Ok(v) && is_nan_bits(v.bits)),
        !has_nan_bits(bits_of_seq(y@)) && y@.len() == 0 ==> (r matches Err(e) && e is EmptyInput),
        !has_nan_bits(bits_of_seq(y@)) && y@.len() >= 1 && all_eq_first(bits_of_seq(y@)) ==> (
        r matches Ok(v) && v.bits == BITS_ZERO),
        !has_nan_bits(bits_of_seq(y@)) && y@.len() >= 1 && !all_eq_first(bits_of_seq(y@))
            && lt_bits(max_of_bits(work_seq(bits_of_seq(y@), 1i8)), BITS_CENTI) ==> (
        r matches Ok(v) && v.bits == BITS_ZERO),
        outlier_live(bits_of_seq(y@), 1i8) && sweep_threshold(work_seq(bits_of_seq(y@), 1i8))
            == 0 ==> (r matches Ok(v) && v.bits == BITS_ZERO),
        outlier_live(bits_of_seq(y@), 1i8) && sweep_threshold(work_seq(bits_of_seq(y@), 1i8))
            >= 1 && has_nan_bits(
            ms_seq(
                y@.len() as int,
                work_seq(bits_of_seq(y@), 1i8),
                sweep_threshold(work_seq(bits_of_seq(y@), 1i8)) as int,
            ),
        ) ==> (r matches Ok(v) && is_nan_bits(v.bits)),
        outlier_live(bits_of_seq(y@), 1i8) && sweep_threshold(work_seq(bits_of_seq(y@), 1i8)) >= 1
            && !has_nan_bits(
            ms_seq(
                y@.len() as int,
                work_seq(bits_of_seq(y@), 1i8),
                sweep_threshold(work_seq(bits_of_seq(y@), 1i8)) as int,
            ),
        ) ==> (r matches Ok(v) && v.bits == outlier_mdrmd_bits(bits_of_seq(y@), 1i8)),
{
    dn_outliner_include_np_001_mdrmd(y, 1)
}

/// The outlier-inclusion sweep over negative thresholds.
pub fn dn_outliner_include_n_001_mdrmd(y: &[Float]) -> (r: Catch22Result<Float>)
    ensures
        has_nan_bits(bits_of_seq(y@)) ==> (r matches Ok(v) && is_nan_bits(v.bits)),
        !has_nan_bits(bits_of_seq(y@)) && y@.len() == 0 ==> (r matches Err(e) && e is EmptyInput),
        !has_nan_bits(bits_of_seq(y@)) && y@.len() >= 1 && all_eq_first(bits_of_seq(y@)) ==> (
        r matches Ok(v) && v.bits == BITS_ZERO),
        !has_nan_bits(bits_of_seq(y@)) && y@.len() >= 1 && !all_eq_first(bits_of_seq(y@))
            && lt_bits(max_of_bits(work_seq(bits_of_seq(y@), -1i8)), BITS_CENTI) ==> (
        r matches Ok(v) && v.bits == BITS_ZERO),
        outlier_live(bits_of_seq(y@), -1i8) && sweep_threshold(work_seq(bits_of_seq(y@), -1i8))
            == 0 ==> (r matches Ok(v) && v.bits == BITS_ZERO),
        outlier_live(bits_of_seq(y@), -1i8) && sweep_threshold(work_seq(bits_of_seq(y@), -1i8))
            >= 1 && has_nan_bits(
            ms_seq(
                y@.len() as int,
                work_seq(bits_of_seq(y@), -1i8),
                sweep_threshold(work_seq(bits_of_seq(y@), -1i8)) as int,
            ),
        ) ==> (r matches Ok(v) && is_nan_bits(v.bits)),
        outlier_live(bits_of_seq(y@), -1i8) && sweep_threshold(work_seq(bits_of_seq(y@), -1i8)) >= 1
            && !has_nan_bits(
            ms_seq(
                y@.len() as int,
                work_seq(bits_of_seq(y@), -1i8),
                sweep_threshold(work_seq(bits_of_seq(y@), -1i8)) as int,
            ),
        ) ==> (r matches Ok(v) && v.bits == outlier_mdrmd_bits(bits_of_seq(y@), -1i8)),
{
    dn_outliner_include_np_001_mdrmd(y, -1)
}

} // verus!
