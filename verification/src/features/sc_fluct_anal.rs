use vstd::prelude::*;

use crate::error::{Catch22Error, Catch22Result};
use crate::primitive::{
    add_bits, as_usize_bits, bits_of_seq, div_bits, exp_bits, float_add, float_div, float_exp, float_ln,
    float_lt, float_minmax, float_mul, float_nan, float_of_usize, float_powi,
    float_round, float_sqrt, float_sub, from_usize_bits, is_nan_bits, ln_bits, lt_bits,
    max_of_bits, min_of_bits, mul_bits, powi_bits, round_bits, sqrt_bits, sub_bits, Float,
    BITS_FIVE, BITS_ONE, BITS_ZERO,
};
use crate::stat::{linreg_bits, linear_regression, linear_regression_square_error,
    lr_sq_err_fold_bits};
use crate::utility::{any_nan, has_nan_bits};

verus! {

/// How the per-window fluctuation is reduced: root mean square of the
/// detrended residuals, or root mean squared range.
enum Method {
    Dfa,
    Rsrangefit,
}

/// The raw window size at sweep position `i`: fifty sizes log-spaced between
/// five and half the length, rounded to integers.
pub open spec fn fluct_tau_at(len: int, i: int) -> usize {
    let lin_low = ln_bits(BITS_FIVE);
    let lin_high = ln_bits(from_usize_bits((len / 2) as usize));
    let tau_step = div_bits(sub_bits(lin_high, lin_low), from_usize_bits(49));
    as_usize_bits(
        round_bits(
            exp_bits(add_bits(lin_low, mul_bits(from_usize_bits(i as usize), tau_step))),
        ),
    )
}

/// The window sizes with consecutive duplicates removed.
pub open spec fn fluct_tau_dedup(len: int, upto: int) -> Seq<usize>
    decreases upto,
{
    if upto <= 0 {
        Seq::empty()
    } else {
        let p = fluct_tau_dedup(len, upto - 1);
        let t = fluct_tau_at(len, upto - 1);
        if p.len() > 0 && p.last() == t {
            p
        } else {
            p.push(t)
        }
    }
}

/// The cumulative sums of every `lag`-th sample.
pub open spec fn cumsum_seq(s: Seq<u64>, lag: int) -> Seq<u64> {
    cumsum_upto(s, lag, ((s.len() + lag - 1) / lag) as int)
}

/// The first `m` cumulative sums of every `lag`-th sample.
pub open spec fn cumsum_upto(s: Seq<u64>, lag: int, m: int) -> Seq<u64>
    decreases m,
{
    if m <= 0 {
        Seq::empty()
    } else {
        let p = cumsum_upto(s, lag, m - 1);
        let prev = if m == 1 {
            BITS_ZERO
        } else {
            p.last()
        };
        p.push(add_bits(prev, s[(m - 1) * lag]))
    }
}

/// The detrended value at offset `k` of the buffer starting at `j * t`: the
/// cumulative sum minus the local linear fit.
pub open spec fn detrended_at(cs: Seq<u64>, xreg: Seq<u64>, t: int, j: int, k: int) -> u64 {
    let ab = linreg_bits(xreg.subrange(0, t), cs.subrange(j * t, j * t + t));
    sub_bits(cs[j * t + k], add_bits(mul_bits(ab.0, from_usize_bits((k + 1) as usize)), ab.1))
}

/// The whole detrended buffer.
pub open spec fn detrended_buf(cs: Seq<u64>, xreg: Seq<u64>, t: int, j: int) -> Seq<u64> {
    Seq::new(t as nat, |k: int| detrended_at(cs, xreg, t, j, k))
}

/// The left-to-right sum of squares of a sequence of doubles.
pub open spec fn sq_sum_bits(s: Seq<u64>, n: int) -> u64
    decreases n,
{
    if n <= 0 {
        BITS_ZERO
    } else {
        add_bits(sq_sum_bits(s, n - 1), powi_bits(s[n - 1], 2))
    }
}

/// The buffer reduction: the summed squared residuals in detrending mode, or
/// the squared range of the residuals in range mode.
pub open spec fn buffer_term(cs: Seq<u64>, xreg: Seq<u64>, t: int, j: int, dfa: bool) -> u64 {
    let vs = detrended_buf(cs, xreg, t, j);
    if dfa {
        sq_sum_bits(vs, t)
    } else {
        powi_bits(sub_bits(max_of_bits(vs), min_of_bits(vs)), 2)
    }
}

/// The left-to-right sum of the buffer reductions over the first `nb`
/// buffers.
pub open spec fn buffers_sum(cs: Seq<u64>, xreg: Seq<u64>, t: int, nb: int, dfa: bool) -> u64
    decreases nb,
{
    if nb <= 0 {
        BITS_ZERO
    } else {
        add_bits(buffers_sum(cs, xreg, t, nb - 1, dfa), buffer_term(cs, xreg, t, nb - 1, dfa))
    }
}

/// The fluctuation value at window size `t`: zero on a degenerate size,
/// otherwise the root of the mean buffer reduction.
pub open spec fn fluct_at(cs: Seq<u64>, xreg: Seq<u64>, t: int, dfa: bool) -> u64 {
    if t <= 0 || t > xreg.len() {
        BITS_ZERO
    } else {
        let nb = cs.len() as int / t;
        let f = buffers_sum(cs, xreg, t, nb, dfa);
        if dfa {
            sqrt_bits(div_bits(f, from_usize_bits((nb * t) as usize)))
        } else {
            sqrt_bits(div_bits(f, from_usize_bits(nb as usize)))
        }
    }
}

/// The split quality at candidate `i`: the sum of the residual sums of
/// squares of the two log-log fits on either side of the split.
pub open spec fn sserr_at(ltau: Seq<u64>, lfs: Seq<u64>, i: int) -> u64 {
    add_bits(
        lr_sq_err_fold_bits(ltau.subrange(0, i), lfs.subrange(0, i), i),
        lr_sq_err_fold_bits(
            ltau.subrange(i - 1, ltau.len() as int),
            lfs.subrange(i - 1, lfs.len() as int),
            ltau.len() - (i - 1),
        ),
    )
}

/// The index of the first minimal entry among `s[1..]` relative to `s[best]`,
/// scanning from `k`.
pub open spec fn argmin_from(s: Seq<u64>, k: int, best: int) -> int
    decreases s.len() - k,
{
    if k < 0 || k >= s.len() {
        best
    } else if lt_bits(s[k], s[best]) {
        argmin_from(s, k + 1, k)
    } else {
        argmin_from(s, k + 1, best)
    }
}

/// The whole crossover statistic of the series, given the subsample lag and
/// the reduction mode: the relative position of the best two-segment fit
/// split of the log-log fluctuation curve.
pub open spec fn fluct_prop_bits(s: Seq<u64>, lag: int, dfa: bool) -> u64 {
    let len = s.len() as int;
    let tau = fluct_tau_dedup(len, 50);
    let ntau = tau.len() as int;
    let cs = cumsum_seq(s, lag);
    let tau_last = tau.last() as int;
    let xreg = Seq::new(tau_last as nat, |k: int| from_usize_bits((k + 1) as usize));
    let ltau = Seq::new(ntau as nat, |i: int| ln_bits(from_usize_bits(tau[i])));
    let lfs = Seq::new(ntau as nat, |i: int| ln_bits(fluct_at(cs, xreg, tau[i] as int, dfa)));
    let sserr = Seq::new((ntau - 12) as nat, |i: int| sserr_at(ltau, lfs, i + 6));
    let first_min_index = argmin_from(sserr, 1, 0) + 6 - 1;
    div_bits(
        add_bits(from_usize_bits(first_min_index as usize), BITS_ONE),
        from_usize_bits(ntau as usize),
    )
}

/// The number of distinct window sizes of the sweep.
pub open spec fn fluct_ntau(len: int) -> int {
    fluct_tau_dedup(len, 50).len() as int
}

proof fn lemma_tau_dedup_len(len: int, upto: int)
    ensures
        fluct_tau_dedup(len, upto).len() <= (if upto >= 0 {
            upto
        } else {
            0int
        }),
    decreases upto,
{
    if upto > 0 {
        lemma_tau_dedup_len(len, upto - 1);
    }
}

/// The shared fluctuation-analysis driver.
fn sc_fluct_anal_2_50_1_logi_prop_r1(values: &[Float], lag: usize, how: Method) -> (r:
    Catch22Result<Float>)
    requires
        1 <= lag <= 2,
    ensures
        values@.len() == 0 ==> (r matches Err(e) && e is EmptyInput),
        values@.len() >= 1 && has_nan_bits(bits_of_seq(values@)) ==> (r matches Ok(v)
            && is_nan_bits(v.bits)),
        values@.len() >= 1 && !has_nan_bits(bits_of_seq(values@)) && fluct_ntau(
            values@.len() as int,
        ) < 12 ==> (r matches Ok(v) && v.bits == BITS_ZERO),
        values@.len() >= 1 && !has_nan_bits(bits_of_seq(values@)) && fluct_ntau(
            values@.len() as int,
        ) >= 12 ==> (r matches Ok(v) && v.bits == fluct_prop_bits(
            bits_of_seq(values@),
            lag as int,
            how is Dfa,
        )),
{
    let ghost s = bits_of_seq(values@);
    let ghost dfa = how is Dfa;
    if values.len() == 0 {
        return Err(Catch22Error::EmptyInput);
    }
    if any_nan(values) {
        return Ok(float_nan());
    }
    let n = values.len();

    let lin_low = float_ln(Float { bits: BITS_FIVE });
    let lin_high = float_ln(float_of_usize(n / 2));
    let tau_step = float_div(float_sub(lin_high, lin_low), float_of_usize(49));

    let mut tau: Vec<usize> = Vec::new();
    let mut i: usize = 0;
    while i < 50
        invariant
            0 <= i <= 50,
            n == values@.len(),
            s == bits_of_seq(values@),
            lin_low.bits == ln_bits(BITS_FIVE),
            lin_high.bits == ln_bits(from_usize_bits((n / 2) as usize)),
            tau_step.bits == div_bits(sub_bits(lin_high.bits, lin_low.bits), from_usize_bits(49)),
            tau@ =~= fluct_tau_dedup(n as int, i as int),
        decreases 50 - i,
    {
        let t = crate::primitive::float_as_usize(
            float_round(float_exp(float_add(lin_low, float_mul(float_of_usize(i), tau_step)))),
        );
        proof {
            assert(t == fluct_tau_at(n as int, i as int));
        }
        let tlen = tau.len();
        if tlen == 0 || tau[tlen - 1] != t {
            tau.push(t);
        }
        i += 1;
    }

    if tau.len() < 12 {
        proof {
            assert(fluct_ntau(n as int) < 12);
        }
        return Ok(Float { bits: BITS_ZERO });
    }
    let ntau = tau.len();
    proof {
        lemma_tau_dedup_len(n as int, 50);
        assert(ntau <= 50);
    }

    // cumulative sums of every lag-th sample
    let m = (n - 1) / lag + 1;
    proof {
        let q = (n - 1) as int / lag as int;
        let rr = (n - 1) as int % lag as int;
        vstd::arithmetic::div_mod::lemma_fundamental_div_mod((n - 1) as int, lag as int);
        assert((q + 1) * lag == lag * q + lag) by (nonlinear_arith);
        assert((n + lag - 1) as int == (q + 1) * lag + rr);
        vstd::arithmetic::div_mod::lemma_fundamental_div_mod_converse(
            (n + lag - 1) as int,
            lag as int,
            q + 1,
            rr,
        );
        assert(m as int == (n + lag - 1) as int / lag as int);
    }
    let ghost cs = cumsum_seq(s, lag as int);
    let mut value_cumsum: Vec<Float> = Vec::new();
    let mut k: usize = 0;
    while k < m
        invariant
            0 <= k <= m,
            1 <= lag <= 2,
            n >= 1,
            m as int == (n + lag - 1) as int / lag as int,
            n == values@.len(),
            s == bits_of_seq(values@),
            bits_of_seq(value_cumsum@) =~= cumsum_upto(s, lag as int, k as int),
            value_cumsum@.len() == k,
        decreases m - k,
    {
        proof {
            assert(k * lag < n) by (nonlinear_arith)
                requires
                    k < m,
                    m as int == (n + lag - 1) as int / lag as int,
                    lag >= 1,
                    n >= 1,
                    k >= 0,
            {
                vstd::arithmetic::div_mod::lemma_fundamental_div_mod(
                    (n + lag - 1) as int,
                    lag as int,
                );
            }
        }
        let prev = if k == 0 {
            Float { bits: BITS_ZERO }
        } else {
            value_cumsum[k - 1]
        };
        value_cumsum.push(float_add(prev, values[k * lag]));
        k += 1;
    }
    proof {
        assert(bits_of_seq(value_cumsum@) =~= cs);
    }

    let tau_last = tau[ntau - 1];
    let ghost xreg = Seq::new(tau_last as nat, |q: int| from_usize_bits((q + 1) as usize));
    let mut x_reg: Vec<Float> = Vec::new();
    let mut q: usize = 0;
    while q < tau_last
        invariant
            0 <= q <= tau_last,
            x_reg@.len() == q,
            forall|w: int| 0 <= w < q ==> x_reg@[w].bits == from_usize_bits((w + 1) as usize),
        decreases tau_last - q,
    {
        x_reg.push(float_of_usize(q + 1));
        q += 1;
    }
    proof {
        assert(bits_of_seq(x_reg@) =~= xreg);
    }

    // the fluctuation value at each window size
    let mut fs: Vec<Float> = Vec::new();
    let mut ti: usize = 0;
    while ti < ntau
        invariant
            0 <= ti <= ntau,
            ntau == tau@.len(),
            n == values@.len(),
            s == bits_of_seq(values@),
            tau@ =~= fluct_tau_dedup(n as int, 50),
            value_cumsum@.len() == cs.len(),
            bits_of_seq(value_cumsum@) =~= cs,
            cs == cumsum_seq(s, lag as int),
            x_reg@.len() == tau_last,
            bits_of_seq(x_reg@) =~= xreg,
            xreg == Seq::new(tau_last as nat, |w: int| from_usize_bits((w + 1) as usize)),
            dfa == (how is Dfa),
            fs@.len() == ti,
            forall|w: int| 0 <= w < ti ==> fs@[w].bits == fluct_at(cs, xreg, tau@[w] as int, dfa),
        decreases ntau - ti,
    {
        let t = tau[ti];
        if t == 0 || t > tau_last {
            fs.push(Float { bits: BITS_ZERO });
            ti += 1;
        } else {
        let vclen = value_cumsum.len();
        let n_buffer = vclen / t;
        proof {
            assert(n_buffer * t <= value_cumsum@.len()) by (nonlinear_arith)
                requires
                    t >= 1,
                    n_buffer as int == value_cumsum@.len() as int / t as int,
                    value_cumsum@.len() >= 0,
            {
                vstd::arithmetic::div_mod::lemma_fundamental_div_mod(
                    value_cumsum@.len() as int,
                    t as int,
                );
            }
        }
        let mut f = Float { bits: BITS_ZERO };
        let mut j: usize = 0;
        while j < n_buffer
            invariant
                0 <= j <= n_buffer,
                1 <= t <= tau_last,
                n_buffer as int == vclen as int / t as int,
                vclen == value_cumsum@.len(),
                n_buffer * t <= vclen,
                value_cumsum@.len() == cs.len(),
                bits_of_seq(value_cumsum@) =~= cs,
                x_reg@.len() == tau_last,
                bits_of_seq(x_reg@) =~= xreg,
                dfa == (how is Dfa),
                f.bits == buffers_sum(cs, xreg, t as int, j as int, dfa),
            decreases n_buffer - j,
        {
            proof {
                assert((j + 1) * t <= n_buffer * t && j * t + t == (j + 1) * t)
                    by (nonlinear_arith)
                    requires
                        j < n_buffer,
                        t >= 1,
                        j >= 0,
                ;
                assert(j * t + t <= vclen);
            }
            let xs = &x_reg[0..t];
            let cw = &value_cumsum[j * t..j * t + t];
            let (a, b) = linear_regression(xs, cw);
            proof {
                assert(bits_of_seq(xs@) =~= xreg.subrange(0, t as int));
                assert(bits_of_seq(cw@) =~= cs.subrange(j * t, j * t + t));
            }
            let mut vs: Vec<Float> = Vec::new();
            let mut w: usize = 0;
            while w < t
                invariant
                    0 <= w <= t,
                    1 <= t <= tau_last,
                    vclen == value_cumsum@.len(),
                    (j + 1) * t <= vclen,
                    j * t + t <= vclen,
                    bits_of_seq(value_cumsum@) =~= cs,
                    value_cumsum@.len() == cs.len(),
                    bits_of_seq(x_reg@) =~= xreg,
                    x_reg@.len() == tau_last,
                    a.bits == linreg_bits(
                        xreg.subrange(0, t as int),
                        cs.subrange(j * t, j * t + t),
                    ).0,
                    b.bits == linreg_bits(
                        xreg.subrange(0, t as int),
                        cs.subrange(j * t, j * t + t),
                    ).1,
                    vs@.len() == w,
                    forall|u: int|
                        0 <= u < w ==> vs@[u].bits == detrended_at(
                            cs,
                            xreg,
                            t as int,
                            j as int,
                            u,
                        ),
                decreases t - w,
            {
                vs.push(
                    float_sub(
                        value_cumsum[j * t + w],
                        float_add(float_mul(a, float_of_usize(w + 1)), b),
                    ),
                );
                w += 1;
            }
            proof {
                assert(bits_of_seq(vs@) =~= detrended_buf(cs, xreg, t as int, j as int));
            }
            let term = match how {
                Method::Rsrangefit => {
                    let (mn, mx) = float_minmax(&vs).unwrap();
                    float_powi(float_sub(mx, mn), 2)
                },
                Method::Dfa => {
                    let mut acc = Float { bits: BITS_ZERO };
                    let mut u: usize = 0;
                    while u < t
                        invariant
                            0 <= u <= t,
                            vs@.len() == t,
                            bits_of_seq(vs@) =~= detrended_buf(cs, xreg, t as int, j as int),
                            acc.bits == sq_sum_bits(
                                detrended_buf(cs, xreg, t as int, j as int),
                                u as int,
                            ),
                        decreases t - u,
                    {
                        acc = float_add(acc, float_powi(vs[u], 2));
                        u += 1;
                    }
                    acc
                },
            };
            proof {
                assert(term.bits == buffer_term(cs, xreg, t as int, j as int, dfa));
            }
            f = float_add(f, term);
            j += 1;
        }
        let ft = match how {
            Method::Rsrangefit => float_sqrt(float_div(f, float_of_usize(n_buffer))),
            Method::Dfa => float_sqrt(float_div(f, float_of_usize(n_buffer * t))),
        };
        proof {
            assert(ft.bits == fluct_at(cs, xreg, t as int, dfa));
        }
        fs.push(ft);
        ti += 1;
        }
    }

    // two-segment log-log fit
    let ghost ltau = Seq::new(ntau as nat, |w: int| ln_bits(from_usize_bits(tau@[w])));
    let ghost lfs = Seq::new(ntau as nat, |w: int| ln_bits(fluct_at(cs, xreg, tau@[w] as int, dfa)));
    let mut log_tau: Vec<Float> = Vec::new();
    let mut log_fs: Vec<Float> = Vec::new();
    let mut w2: usize = 0;
    while w2 < ntau
        invariant
            0 <= w2 <= ntau,
            ntau == tau@.len(),
            fs@.len() == ntau,
            forall|w: int| 0 <= w < ntau ==> fs@[w].bits == fluct_at(cs, xreg, tau@[w] as int, dfa),
            ltau == Seq::new(ntau as nat, |w: int| ln_bits(from_usize_bits(tau@[w]))),
            lfs == Seq::new(
                ntau as nat,
                |w: int| ln_bits(fluct_at(cs, xreg, tau@[w] as int, dfa)),
            ),
            log_tau@.len() == w2,
            log_fs@.len() == w2,
            forall|u: int| 0 <= u < w2 ==> log_tau@[u].bits == ltau[u],
            forall|u: int| 0 <= u < w2 ==> log_fs@[u].bits == lfs[u],
        decreases ntau - w2,
    {
        log_tau.push(float_ln(float_of_usize(tau[w2])));
        log_fs.push(float_ln(fs[w2]));
        w2 += 1;
    }

    let mut sserr: Vec<Float> = Vec::new();
    let mut si: usize = 6;
    while si < ntau - 6
        invariant
            6 <= si <= ntau - 6 || si == 6,
            12 <= ntau == tau@.len(),
            log_tau@.len() == ntau,
            log_fs@.len() == ntau,
            forall|u: int| 0 <= u < ntau ==> log_tau@[u].bits == ltau[u],
            forall|u: int| 0 <= u < ntau ==> log_fs@[u].bits == lfs[u],
            ltau.len() == ntau,
            lfs.len() == ntau,
            sserr@.len() == si - 6,
            forall|u: int| 0 <= u < si - 6 ==> sserr@[u].bits == sserr_at(ltau, lfs, u + 6),
        decreases ntau - si,
    {
        let left = linear_regression_square_error(&log_tau[0..si], &log_fs[0..si]);
        let right = linear_regression_square_error(&log_tau[si - 1..ntau], &log_fs[si - 1..ntau]);
        proof {
            assert(bits_of_seq(log_tau@.subrange(0, si as int)) =~= ltau.subrange(0, si as int));
            assert(bits_of_seq(log_fs@.subrange(0, si as int)) =~= lfs.subrange(0, si as int));
            assert(bits_of_seq(log_tau@.subrange(si - 1, ntau as int)) =~= ltau.subrange(
                si - 1,
                ntau as int,
            ));
            assert(bits_of_seq(log_fs@.subrange(si - 1, ntau as int)) =~= lfs.subrange(
                si - 1,
                ntau as int,
            ));
        }
        sserr.push(float_add(left, right));
        si += 1;
    }
    let ghost sserr_spec = Seq::new((ntau - 12) as nat, |u: int| sserr_at(ltau, lfs, u + 6));
    proof {
        assert(bits_of_seq(sserr@) =~= sserr_spec);
    }

    let mut best: usize = 0;
    let mut ai: usize = 1;
    while ai < sserr.len()
        invariant
            1 <= ai <= sserr@.len() || (sserr@.len() == 0 && ai == 1),
            best < ai,
            bits_of_seq(sserr@) =~= sserr_spec,
            argmin_from(sserr_spec, ai as int, best as int) == argmin_from(sserr_spec, 1, 0),
        decreases sserr@.len() - ai,
    {
        if float_lt(sserr[ai], sserr[best]) {
            best = ai;
        }
        ai += 1;
    }
    let first_min_index = best + 6 - 1;
    proof {
        assert(best as int == argmin_from(sserr_spec, 1, 0));
    }

    Ok(
        float_div(
            float_add(float_of_usize(first_min_index), Float { bits: BITS_ONE }),
            float_of_usize(ntau),
        ),
    )
}

/// The crossover fraction of the detrended-fluctuation sweep, computed on
/// every second sample.
pub fn sc_fluct_anal_2_dfa_50_1_2_logi_prop_r1(values: &[Float]) -> (r: Catch22Result<Float>)
    ensures
        values@.len() == 0 ==> (r matches Err(e) && e is EmptyInput),
        values@.len() >= 1 && has_nan_bits(bits_of_seq(values@)) ==> (r matches Ok(v)
            && is_nan_bits(v.bits)),
        values@.len() >= 1 && !has_nan_bits(bits_of_seq(values@)) && fluct_ntau(
            values@.len() as int,
        ) < 12 ==> (r matches Ok(v) && v.bits == BITS_ZERO),
        values@.len() >= 1 && !has_nan_bits(bits_of_seq(values@)) && fluct_ntau(
            values@.len() as int,
        ) >= 12 ==> (r matches Ok(v) && v.bits == fluct_prop_bits(bits_of_seq(values@), 2, true)),
{
    sc_fluct_anal_2_50_1_logi_prop_r1(values, 2, Method::Dfa)
}

/// The crossover fraction of the rescaled-range sweep over every sample.
pub fn sc_fluct_anal_2_rsrangefit_50_1_logi_prop_r1(values: &[Float]) -> (r: Catch22Result<Float>)
    ensures
        values@.len() == 0 ==> (r matches Err(e) && e is EmptyInput),
        values@.len() >= 1 && has_nan_bits(bits_of_seq(values@)) ==> (r matches Ok(v)
            && is_nan_bits(v.bits)),
        values@.len() >= 1 && !has_nan_bits(bits_of_seq(values@)) && fluct_ntau(
            values@.len() as int,
        ) < 12 ==> (r matches Ok(v) && v.bits == BITS_ZERO),
        values@.len() >= 1 && !has_nan_bits(bits_of_seq(values@)) && fluct_ntau(
            values@.len() as int,
        ) >= 12 ==> (r matches Ok(v) && v.bits == fluct_prop_bits(bits_of_seq(values@), 1, false)),
{
    sc_fluct_anal_2_50_1_logi_prop_r1(values, 1, Method::Rsrangefit)
}

} // verus!
