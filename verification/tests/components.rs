use catch22_rs::error::Catch22Error;
use catch22_rs::fft::{fft, twiddles};
use catch22_rs::hist_count::{hist_count_flexible, hist_counts};
use catch22_rs::primitive::{Complex, Float};
use catch22_rs::stat::{linear_regression, linear_regression_square_error, median};
use catch22_rs::utility::{
    any_nan, entropy, linspace, mean, mean_iter, nextpow2, quantile, sb_coarsegrain, stddev,
    Alphabet,
};

fn fl(x: f64) -> Float {
    Float { bits: x.to_bits() }
}

fn fv(xs: &[f64]) -> Vec<Float> {
    xs.iter().map(|&x| fl(x)).collect()
}

fn val(d: Float) -> f64 {
    f64::from_bits(d.bits)
}

#[test]
fn test_nextpow2_small_values() {
    assert_eq!(nextpow2(0), Some(1));
    assert_eq!(nextpow2(1), Some(1));
    assert_eq!(nextpow2(5), Some(8));
    assert_eq!(nextpow2(8), Some(8));
    assert_eq!(nextpow2(9), Some(16));
}

#[test]
fn test_any_nan_detects_nan() {
    assert!(!any_nan(&fv(&[1.0, 2.0])));
    assert!(any_nan(&fv(&[1.0, f64::NAN, 2.0])));
}

#[test]
fn test_mean_basic() {
    assert_eq!(val(mean(&fv(&[1.0, 2.0, 3.0])).unwrap()), 2.0);
    assert!(mean(&fv(&[])).is_none());
}

#[test]
fn test_mean_iter_matches_mean() {
    let v = fv(&[0.5, -1.25, 3.75, 9.0]);
    assert_eq!(val(mean_iter(&v).unwrap()), val(mean(&v).unwrap()));
    assert!(mean_iter(&fv(&[])).is_none());
}

#[test]
fn test_stddev_basic() {
    assert_eq!(val(stddev(&fv(&[1.0, 2.0, 3.0])).unwrap()), 1.0);
    assert!(stddev(&fv(&[1.0])).is_none());
}

#[test]
fn test_median_odd_and_even() {
    assert_eq!(val(median(&fv(&[3.0, 1.0, 2.0]))), 2.0);
    assert_eq!(val(median(&fv(&[4.0, 1.0, 3.0, 2.0]))), 2.5);
}

#[test]
fn test_linspace_endpoints() {
    let v = linspace(fl(0.0), fl(1.0), 3);
    assert_eq!(v.len(), 3);
    assert_eq!(val(v[0]), 0.0);
    assert_eq!(val(v[1]), 0.5);
    assert_eq!(val(v[2]), 1.0);
}

#[test]
fn test_quantile_interpolates() {
    let v = fv(&[5.0, 1.0, 4.0, 2.0, 3.0]);
    assert_eq!(val(quantile(v, fl(0.4))), 2.5);
}

#[test]
fn test_quantile_extremes() {
    let v = fv(&[5.0, 1.0, 4.0, 2.0, 3.0]);
    assert_eq!(val(quantile(v.clone(), fl(0.0))), 1.0);
    assert_eq!(val(quantile(v, fl(1.0))), 5.0);
}

#[test]
fn test_entropy_two_halves() {
    let e = val(entropy(&fv(&[0.5, 0.5])));
    assert!((e - std::f64::consts::LN_2).abs() < 1e-15);
}

#[test]
fn test_entropy_ignores_nonpositive() {
    assert_eq!(val(entropy(&fv(&[0.0, -1.0]))), -0.0);
}

#[test]
fn test_linear_regression_exact_line() {
    let x = fv(&[1.0, 2.0, 3.0]);
    let y = fv(&[2.0, 4.0, 6.0]);
    let (a, b) = linear_regression(&x, &y);
    assert!((val(a) - 2.0).abs() < 1e-12);
    assert!(val(b).abs() < 1e-12);
    assert!(val(linear_regression_square_error(&x, &y)).abs() < 1e-20);
}

#[test]
fn test_linear_regression_degenerate() {
    let x = fv(&[1.0, 1.0]);
    let y = fv(&[2.0, 4.0]);
    let (a, b) = linear_regression(&x, &y);
    assert_eq!(val(a), 0.0);
    assert_eq!(val(b), 0.0);
}

#[test]
fn test_hist_count_flexible_counts_and_edges() {
    let h = hist_count_flexible(&fv(&[1.0, 2.0, 3.0, 4.0]), 2).unwrap();
    assert_eq!(h.count, vec![2, 2]);
    assert_eq!(h.edges.len(), 3);
    assert_eq!(val(h.edges[0]), 1.0);
    assert_eq!(val(h.edges[1]), 2.5);
    assert_eq!(val(h.edges[2]), 4.0);
}

#[test]
fn test_hist_sum_of_counts_is_len() {
    let data = [0.3, -1.5, 2.25, 8.0, 8.0, -1.5, 0.0, 4.5];
    let h = hist_count_flexible(&fv(&data), 3).unwrap();
    let total: usize = h.count.iter().sum();
    assert_eq!(total, data.len());
    for i in 0..h.edges.len() - 1 {
        assert!(val(h.edges[i]) < val(h.edges[i + 1]));
    }
    assert_eq!(h.edges.len(), 4);
}

#[test]
fn test_hist_counts_fixed_matches_flexible() {
    let data = fv(&[1.0, 2.0, 3.0, 4.0]);
    let fixed = hist_counts::<2, 3>(&data).unwrap();
    let flexible = hist_count_flexible(&data, 2).unwrap();
    assert_eq!(fixed.count, flexible.count);
    assert_eq!(fixed.edges.len(), flexible.edges.len());
    for i in 0..fixed.edges.len() {
        assert_eq!(val(fixed.edges[i]), val(flexible.edges[i]));
    }
}

#[test]
fn test_hist_empty_input_err() {
    assert!(matches!(hist_count_flexible(&fv(&[]), 2), Err(Catch22Error::EmptyInput)));
}

#[test]
fn test_normalize_divides_counts() {
    let h = hist_count_flexible(&fv(&[1.0, 2.0, 3.0, 4.0]), 2).unwrap();
    let n = h.normalize(4).unwrap();
    assert_eq!(n.len(), 2);
    assert_eq!(val(n.count[0]), 0.5);
    assert_eq!(val(n.count[1]), 0.5);
    let sum: f64 = n.count.iter().map(|&c| val(c)).sum();
    assert!((sum - 1.0).abs() < 1e-12);
}

#[test]
fn test_normalize_zero_total_err() {
    let h = hist_count_flexible(&fv(&[1.0, 2.0]), 2).unwrap();
    assert!(matches!(h.normalize(0), Err(Catch22Error::EmptyInput)));
}

#[test]
fn test_coarsegrain_small_series() {
    let syms = sb_coarsegrain(&fv(&[1.0, 2.0, 3.0]), 3);
    assert_eq!(syms.len(), 3);
    assert_eq!(syms[0], Alphabet::from_zero_indexed(0));
    assert_eq!(syms[1], Alphabet::from_zero_indexed(1));
    assert_eq!(syms[2], Alphabet::from_zero_indexed(2));
}

#[test]
fn test_coarsegrain_totality() {
    let data: Vec<f64> = (0..40).map(|i| ((((i * i * 37) % 101) as f64) - 50.0) / 10.0).collect();
    let syms = sb_coarsegrain(&fv(&data), 4);
    assert_eq!(syms.len(), data.len());
    for s in &syms {
        let mut matches_count = 0;
        for k in 0..4 {
            if *s == Alphabet::from_zero_indexed(k) {
                matches_count += 1;
            }
        }
        assert_eq!(matches_count, 1);
    }
}

#[test]
fn test_alphabet_one_indexed() {
    assert_eq!(Alphabet::from_one_indexed(1), Alphabet::from_zero_indexed(0));
    assert_eq!(Alphabet::from_one_indexed(5), Alphabet::from_zero_indexed(4));
}

#[test]
fn test_fft_identity_when_step_reaches_len() {
    let tw = twiddles(4);
    let mut v: Vec<Complex> = (1..5).map(|i| Complex { re: fl(i as f64), im: fl(0.0) }).collect();
    let before = v.clone();
    fft(&mut v, 4, &tw);
    for i in 0..4 {
        assert_eq!(v[i], before[i]);
    }
}

#[test]
fn test_fft_delta_spectrum() {
    let tw = twiddles(4);
    let mut v = vec![
        Complex { re: fl(1.0), im: fl(0.0) },
        Complex { re: fl(0.0), im: fl(0.0) },
        Complex { re: fl(0.0), im: fl(0.0) },
        Complex { re: fl(0.0), im: fl(0.0) },
    ];
    fft(&mut v, 1, &tw);
    for i in 0..4 {
        assert_eq!(val(v[i].re), 1.0);
        assert_eq!(val(v[i].im), 0.0);
    }
}

#[test]
fn test_fft_ramp_spectrum_and_energy() {
    let tw = twiddles(4);
    let input = [1.0, 2.0, 3.0, 4.0];
    let mut v: Vec<Complex> = input.iter().map(|&x| Complex { re: fl(x), im: fl(0.0) }).collect();
    fft(&mut v, 1, &tw);
    assert!((val(v[0].re) - 10.0).abs() < 1e-12);
    assert!((val(v[1].re) + 2.0).abs() < 1e-12);
    assert!((val(v[1].im) - 2.0).abs() < 1e-12);
    assert!((val(v[2].re) + 2.0).abs() < 1e-12);
    assert!((val(v[3].re) + 2.0).abs() < 1e-12);
    assert!((val(v[3].im) + 2.0).abs() < 1e-12);
    let energy_out: f64 = v.iter().map(|c| val(c.re) * val(c.re) + val(c.im) * val(c.im)).sum();
    let energy_in: f64 = input.iter().map(|&x| x * x).sum();
    assert!((energy_out - 4.0 * energy_in).abs() < 1e-9);
}

#[test]
fn test_autocorr_zero_lag_is_one() {
    let ac = catch22_rs::features::co_auto_corr::co_autocorrs(&fv(&[1.0, 2.0, 3.0, 4.0])).unwrap();
    assert_eq!(val(ac[0]), 1.0);
    assert!((val(ac[1]) - 0.25).abs() < 1e-12);
    let data: Vec<f64> = (0..30).map(|i| ((((i * i * 37) % 101) as f64) - 50.0) / 10.0).collect();
    let ac2 = catch22_rs::features::co_auto_corr::co_autocorrs(&fv(&data)).unwrap();
    assert!((val(ac2[0]) - 1.0).abs() < 1e-12);
}

#[test]
fn test_num_bins_auto_degenerate_and_normal() {
    let b = catch22_rs::features::co_auto_corr::num_bins_auto(&fv(&[1.0, 1.0, 1.0]));
    assert_eq!(b, Some(0));
    assert_eq!(catch22_rs::features::co_auto_corr::num_bins_auto(&fv(&[1.0])), None);
    let b2 = catch22_rs::features::co_auto_corr::num_bins_auto(&fv(&[1.0, 2.0, 3.0, 4.0])).unwrap();
    assert!(b2 >= 1);
}
