use vstd::prelude::*;

use crate::error::{Catch22Error, Catch22Result};
use crate::fft::{fft, fft_spec, twiddles, twiddles_seq};
use crate::primitive::{
    add_bits, as_usize_bits, bits_of_seq, ceil_bits, complex_conj, complex_conj_spec, complex_div,
    float_add, float_as_usize,
    complex_div_spec, complex_mul, complex_mul_spec, div_bits, float_ceil, float_div, float_lt,
    float_minmax, float_mul, float_nan, float_of_usize, float_powf, float_sub,
    from_usize_bits, is_nan_bits, lt_bits, max_of_bits, min_of_bits, mul_bits, powf_bits,
    sub_bits, Complex, Float, BITS_E, BITS_MILLI, BITS_ONE, BITS_THREE, BITS_THREE_AND_HALF,
    BITS_ZERO,
};
use crate::utility::{
    any_nan, has_nan_bits, is_pow2, mean, mean_bits, next_pow2_spec, nextpow2, stddev,
    stddev_bits,
};

verus! {

/// The padded, mean-centred sample at position `i`: the sample minus the mean
/// as a real complex number below the series length, zero in the padding.
pub open spec fn centered_at(s: Seq<u64>, i: int) -> Complex {
    if 0 <= i < s.len() {
        Complex {
            re: Float { bits: sub_bits(s[i], mean_bits(s)) },
            im: Float { bits: BITS_ZERO },
        }
    } else {
        Complex { re: Float { bits: BITS_ZERO }, im: Float { bits: BITS_ZERO } }
    }
}

/// The transform length: twice the next power of two above the length.
pub open spec fn nfft_spec(len: nat) -> nat {
    2 * next_pow2_spec(len)
}

/// The mean-centred, zero-padded transform input.
pub open spec fn centered_seq(s: Seq<u64>) -> Seq<Complex> {
    Seq::new(nfft_spec(s.len()), |i: int| centered_at(s, i))
}

/// The power spectrum of a transformed sequence: every entry times its own
/// conjugate.
pub open spec fn power_of(t: Seq<Complex>) -> Seq<Complex> {
    Seq::new(t.len(), |i: int| complex_mul_spec(t[i], complex_conj_spec(t[i])))
}

/// The Wiener-Khinchin pipeline before normalization: the centred padded
/// series forward-transformed at stride one, turned into its power spectrum,
/// and transformed again.
pub open spec fn acf_pipeline(s: Seq<u64>) -> Seq<Complex> {
    let tw = twiddles_seq(nfft_spec(s.len()) as usize);
    fft_spec(power_of(fft_spec(centered_seq(s), 1, tw)), 1, tw)
}

/// The autocorrelation estimate at lag `i`: the pipeline entry divided by
/// the zero-lag entry, real part.
pub open spec fn acf_at(s: Seq<u64>, i: int) -> u64 {
    complex_div_spec(acf_pipeline(s)[i], acf_pipeline(s)[0]).re.bits
}

/// The full autocorrelation sequence, one entry per transform slot.
pub open spec fn acf_seq(s: Seq<u64>) -> Seq<u64> {
    Seq::new(nfft_spec(s.len()), |i: int| acf_at(s, i))
}

/// Computes the normalized autocorrelation sequence of the series by the
/// Wiener-Khinchin identity: the mean-centred series is zero-padded to twice
/// the next power of two, forward-transformed at stride one, multiplied
/// entrywise by its own conjugate, transformed again, and normalized by the
/// zero-lag entry.
pub fn co_autocorrs(values: &[Float]) -> (r: Catch22Result<Vec<Float>>)
    requires
        values@.len() >= 1,
    ensures
        r is Err <==> 2 * next_pow2_spec(values@.len() as nat) > usize::MAX,
        r matches Err(e) ==> (e matches Catch22Error::SizeOver(l) && l == values@.len()),
        r matches Ok(ac) ==> bits_of_seq(ac@) =~= acf_seq(bits_of_seq(values@)),
{
    let ghost s = bits_of_seq(values@);
    let m = mean(values).unwrap();
    let y = match nextpow2(values.len()) {
        Some(y) => y,
        None => {
            return Err(Catch22Error::SizeOver(values.len()));
        },
    };
    let n_fft = match y.checked_mul(2) {
        Some(nf) => nf,
        None => {
            return Err(Catch22Error::SizeOver(values.len()));
        },
    };
    proof {
        assert(n_fft as nat == nfft_spec(s.len()));
        assert(is_pow2(n_fft as nat)) by {
            assert((n_fft as nat) % 2 == 0 && (n_fft as nat) / 2 == y as nat);
        }
    }

    let mut f: Vec<Complex> = Vec::new();
    let mut i: usize = 0;
    while i < values.len()
        invariant
            0 <= i <= values@.len(),
            s == bits_of_seq(values@),
            m.bits == mean_bits(s),
            f@.len() == i,
            forall|j: int| 0 <= j < i ==> f@[j] == centered_at(s, j),
        decreases values@.len() - i,
    {
        f.push(Complex { re: float_sub(values[i], m), im: Float { bits: BITS_ZERO } });
        i += 1;
    }
    while i < n_fft
        invariant
            values@.len() <= i <= n_fft || i == values@.len(),
            s == bits_of_seq(values@),
            f@.len() == i,
            forall|j: int| 0 <= j < i ==> f@[j] == centered_at(s, j),
        decreases n_fft - i,
    {
        f.push(Complex { re: Float { bits: BITS_ZERO }, im: Float { bits: BITS_ZERO } });
        i += 1;
    }
    proof {
        assert(f@.len() == n_fft || f@.len() == values@.len());
        assert(values@.len() <= n_fft) by {
            crate::utility::lemma_next_pow2_ge(s.len(), 1);
        }
        assert(f@ =~= centered_seq(s));
        assert(is_pow2(1nat));
        assert(nfft_spec(s.len()) as usize == n_fft);
    }

    let tw = twiddles(n_fft);
    proof {
        assert(tw@ == twiddles_seq(n_fft));
    }
    fft(&mut f, 1, &tw);
    let ghost s1 = fft_spec(centered_seq(s), 1, twiddles_seq(n_fft));
    proof {
        assert(f@ == s1);
    }
    let mut k: usize = 0;
    while k < f.len()
        invariant
            0 <= k <= f@.len(),
            s == bits_of_seq(values@),
            f@.len() == n_fft,
            s1.len() == n_fft,
            s1 == fft_spec(centered_seq(s), 1, twiddles_seq(n_fft)),
            forall|j: int| k <= j < n_fft ==> f@[j] == s1[j],
            forall|j: int|
                0 <= j < k ==> f@[j] == complex_mul_spec(s1[j], complex_conj_spec(s1[j])),
        decreases f@.len() - k,
    {
        let x = f[k];
        f[k] = complex_mul(x, complex_conj(x));
        k += 1;
    }
    proof {
        assert(f@ =~= power_of(s1));
    }
    fft(&mut f, 1, &tw);
    let ghost g = fft_spec(power_of(s1), 1, twiddles_seq(n_fft));
    proof {
        assert(f@ == g);
        assert(twiddles_seq(nfft_spec(s.len()) as usize) == twiddles_seq(n_fft));
        assert(g == acf_pipeline(s));
    }

    let divisor = f[0];
    let mut ac: Vec<Float> = Vec::new();
    let mut j: usize = 0;
    while j < f.len()
        invariant
            0 <= j <= f@.len(),
            s == bits_of_seq(values@),
            s.len() >= 1,
            f@.len() == n_fft,
            n_fft as nat == nfft_spec(s.len()),
            f@ == g,
            g == acf_pipeline(s),
            g.len() == n_fft,
            divisor == g[0],
            ac@.len() == j,
            forall|w: int| 0 <= w < j ==> ac@[w].bits == acf_at(s, w),
        decreases f@.len() - j,
    {
        ac.push(complex_div(f[j], divisor).re);
        j += 1;
    }
    Ok(ac)
}

/// The first position at or before `max_tau` whose autocorrelation entry is
/// not positive, scanning from `i`.
pub open spec fn first_unpos(ac: Seq<u64>, max_tau: int, i: int) -> int
    decreases ac.len() - i,
{
    if i < 0 || i >= ac.len() {
        i
    } else if !(lt_bits(BITS_ZERO, ac[i]) && i < max_tau) {
        i
    } else {
        first_unpos(ac, max_tau, i + 1)
    }
}

/// The first zero crossing of the autocorrelation of `s`, bounded by
/// `max_tau`.
pub open spec fn firstzero_spec(s: Seq<u64>, max_tau: int) -> int {
    first_unpos(acf_seq(s), max_tau, 0)
}

proof fn lemma_first_unpos_skip(ac: Seq<u64>, max_tau: int, i: int)
    requires
        0 <= i <= ac.len(),
        forall|j: int| 0 <= j < i ==> (lt_bits(BITS_ZERO, #[trigger] ac[j]) && j < max_tau),
    ensures
        first_unpos(ac, max_tau, 0) == first_unpos(ac, max_tau, i),
    decreases i,
{
    if i > 0 {
        lemma_first_unpos_skip(ac, max_tau, i - 1);
        assert(0 <= i - 1 < i);
        assert(lt_bits(BITS_ZERO, ac[i - 1]));
        assert(i - 1 < max_tau);
        assert(first_unpos(ac, max_tau, i - 1) == first_unpos(ac, max_tau, i));
    }
}

/// The smallest lag at which the autocorrelation stops being positive;
/// `max_tau` when it stays positive that far, or the transform length when
/// `max_tau` exceeds even that.
pub fn co_firstzero(y: &[Float], max_tau: usize) -> (r: Catch22Result<usize>)
    requires
        y@.len() >= 1,
    ensures
        r is Err <==> 2 * next_pow2_spec(y@.len() as nat) > usize::MAX,
        r matches Err(e) ==> (e matches Catch22Error::SizeOver(l) && l == y@.len()),
        r matches Ok(idx) ==> idx == firstzero_spec(bits_of_seq(y@), max_tau as int) && idx
            <= max_tau,
{
    let ghost s = bits_of_seq(y@);
    let ac = match co_autocorrs(y) {
        Ok(a) => a,
        Err(e) => {
            return Err(e);
        },
    };
    proof {
        assert(ac@.len() == acf_seq(s).len());
    }
    let bound = if max_tau < ac.len() {
        max_tau
    } else {
        ac.len()
    };
    let mut i: usize = 0;
    while i < bound
        invariant
            0 <= i <= bound,
            s == bits_of_seq(y@),
            y@.len() >= 1,
            bound <= max_tau,
            bound <= ac@.len(),
            2 * next_pow2_spec(s.len() as nat) <= usize::MAX,
            bits_of_seq(ac@) =~= acf_seq(s),
            ac@.len() == acf_seq(s).len(),
            forall|j: int|
                0 <= j < i ==> (lt_bits(BITS_ZERO, #[trigger] acf_seq(s)[j]) && j < max_tau),
        decreases bound - i,
    {
        proof {
            assert(ac@[i as int].bits == acf_seq(s)[i as int]);
        }
        if !(float_lt(Float { bits: BITS_ZERO }, ac[i])) {
            proof {
                lemma_first_unpos_skip(acf_seq(s), max_tau as int, i as int);
            }
            return Ok(i);
        }
        i += 1;
    }
    proof {
        lemma_first_unpos_skip(acf_seq(s), max_tau as int, bound as int);
    }
    Ok(bound)
}

/// The interpolated crossing of the autocorrelation below `thr`, scanning the
/// consecutive pairs from position `i`; the length `n` when no pair crosses.
pub open spec fn f1ecac_from(ac: Seq<u64>, thr: u64, n: int, i: int) -> u64
    decreases n - i,
{
    if i < 0 || i + 1 >= n {
        from_usize_bits(n as usize)
    } else if lt_bits(ac[i + 1], thr) {
        add_bits(
            from_usize_bits(i as usize),
            div_bits(sub_bits(thr, ac[i]), sub_bits(ac[i + 1], ac[i])),
        )
    } else {
        f1ecac_from(ac, thr, n, i + 1)
    }
}

/// The first-1/e-crossing statistic of the series.
pub open spec fn f1ecac_bits(s: Seq<u64>) -> u64 {
    f1ecac_from(acf_seq(s), div_bits(BITS_ONE, BITS_E), s.len() as int, 0)
}

proof fn lemma_f1ecac_skip(ac: Seq<u64>, thr: u64, n: int, i: int)
    requires
        0 <= i,
        i < n ==> i + 1 <= n,
        forall|j: int| 0 <= j < i ==> !lt_bits(#[trigger] ac[j + 1], thr),
    ensures
        f1ecac_from(ac, thr, n, 0) == f1ecac_from(ac, thr, n, i),
    decreases i,
{
    if i > 0 {
        lemma_f1ecac_skip(ac, thr, n, i - 1);
    }
}

/// The first crossing of the autocorrelation below 1/e, linearly
/// interpolated between the neighbouring lags; the series length when no
/// crossing happens.  NaN anywhere in the input yields the NaN sentinel.
pub fn co_f1ecac(values: &[Float]) -> (r: Catch22Result<Float>)
    ensures
        has_nan_bits(bits_of_seq(values@)) ==> (r matches Ok(v) && is_nan_bits(v.bits)),
        !has_nan_bits(bits_of_seq(values@)) && values@.len() == 0 ==> (r matches Err(e)
            && e is EmptyInput),
        !has_nan_bits(bits_of_seq(values@)) && values@.len() >= 1 && 2 * next_pow2_spec(
            values@.len() as nat,
        ) > usize::MAX ==> (r matches Err(e) && e is SizeOver),
        !has_nan_bits(bits_of_seq(values@)) && values@.len() >= 1 && 2 * next_pow2_spec(
            values@.len() as nat,
        ) <= usize::MAX ==> (r matches Ok(v) && v.bits == f1ecac_bits(bits_of_seq(values@))),
{
    let ghost s = bits_of_seq(values@);
    if any_nan(values) {
        return Ok(float_nan());
    }
    if values.len() == 0 {
        return Err(Catch22Error::EmptyInput);
    }
    let ac = match co_autocorrs(values) {
        Ok(a) => a,
        Err(e) => {
            return Err(e);
        },
    };
    proof {
        crate::utility::lemma_next_pow2_ge_x(s.len(), 1);
        assert(ac@.len() == acf_seq(s).len());
        assert(ac@.len() >= 2 * s.len());
    }
    let threshold = float_div(Float { bits: BITS_ONE }, Float { bits: BITS_E });
    let ghost thr = div_bits(BITS_ONE, BITS_E);
    let n = values.len();
    let mut i: usize = 0;
    while i + 1 < n
        invariant
            0 <= i,
            i + 1 <= n,
            n == s.len(),
            n >= 1,
            s == bits_of_seq(values@),
            !has_nan_bits(s),
            2 * next_pow2_spec(s.len() as nat) <= usize::MAX,
            threshold.bits == thr,
            thr == div_bits(BITS_ONE, BITS_E),
            bits_of_seq(ac@) =~= acf_seq(s),
            ac@.len() >= 2 * s.len(),
            forall|j: int| 0 <= j < i ==> !lt_bits(#[trigger] acf_seq(s)[j + 1], thr),
        decreases n - i,
    {
        proof {
            assert(ac@[i as int].bits == acf_seq(s)[i as int]);
            assert(ac@[i + 1].bits == acf_seq(s)[i + 1]);
        }
        let a = ac[i];
        let an = ac[i + 1];
        if float_lt(an, threshold) {
            proof {
                lemma_f1ecac_skip(acf_seq(s), thr, n as int, i as int);
            }
            return Ok(
                float_add(float_of_usize(i), float_div(float_sub(threshold, a), float_sub(an, a))),
            );
        }
        i += 1;
    }
    proof {
        lemma_f1ecac_skip(acf_seq(s), thr, n as int, i as int);
    }
    Ok(float_of_usize(n))
}

/// The automatic bin count: zero on a nearly constant series, otherwise the
/// ceiling of the range over `3.5 * stddev / len^(1/3)`.
pub open spec fn num_bins_auto_spec(s: Seq<u64>) -> usize {
    if lt_bits(stddev_bits(s), BITS_MILLI) {
        0
    } else {
        as_usize_bits(
            ceil_bits(
                div_bits(
                    sub_bits(max_of_bits(s), min_of_bits(s)),
                    div_bits(
                        mul_bits(BITS_THREE_AND_HALF, stddev_bits(s)),
                        powf_bits(
                            from_usize_bits(s.len() as usize),
                            div_bits(BITS_ONE, BITS_THREE),
                        ),
                    ),
                ),
            ),
        )
    }
}

/// Chooses a bin count for a histogram over the samples by the
/// Freedman-Diaconis-style rule; `None` when fewer than two samples.
pub fn num_bins_auto(values: &[Float]) -> (r: Option<usize>)
    requires
        !has_nan_bits(bits_of_seq(values@)),
    ensures
        r is Some <==> values@.len() >= 2,
        r matches Some(b) ==> b == num_bins_auto_spec(bits_of_seq(values@)),
{
    let copy = vstd::slice::slice_to_vec(values);
    let (min, max) = match float_minmax(&copy) {
        Some(p) => p,
        None => {
            return None;
        },
    };
    let sd = match stddev(values) {
        Some(sd) => sd,
        None => {
            return None;
        },
    };
    if float_lt(sd, Float { bits: BITS_MILLI }) {
        Some(0)
    } else {
        let size_pow = float_powf(
            float_of_usize(values.len()),
            float_div(Float { bits: BITS_ONE }, Float { bits: BITS_THREE }),
        );
        let width = float_div(float_mul(Float { bits: BITS_THREE_AND_HALF }, sd), size_pow);
        Some(float_as_usize(float_ceil(float_div(float_sub(max, min), width))))
    }
}

} // verus!
