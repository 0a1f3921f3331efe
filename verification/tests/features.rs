use catch22_rs::error::Catch22Error;
use catch22_rs::features::co_auto_corr::co_f1ecac;
use catch22_rs::features::co_embed2_dist_tau_d_expfit_meandiff::co_embed2_dist_tau_d_expfit_meandiff;
use catch22_rs::features::dn_histogram_mode::{dn_histogram_mode_10, dn_histogram_mode_5};
use catch22_rs::features::dn_outlier_include_n_001_mdrmd::{
    dn_outliner_include_n_001_mdrmd, dn_outliner_include_p_001_mdrmd,
};
use catch22_rs::features::fc_local_simple::{
    fc_local_simple_mean1_tauresrat, fc_localsimple_mean3_stderr,
};
use catch22_rs::features::sb_binary_stats::{
    sb_binarystats_diff_longstretch0, sb_binarystats_mean_longstretch1,
};
use catch22_rs::features::sb_motif_three::sb_motif_three_quantile_hh;
use catch22_rs::features::sc_fluct_anal::{
    sc_fluct_anal_2_dfa_50_1_2_logi_prop_r1, sc_fluct_anal_2_rsrangefit_50_1_logi_prop_r1,
};
use catch22_rs::primitive::Float;

fn fl(x: f64) -> Float {
    Float { bits: x.to_bits() }
}

fn fv(xs: &[f64]) -> Vec<Float> {
    xs.iter().map(|&x| fl(x)).collect()
}

fn val(d: Float) -> f64 {
    f64::from_bits(d.bits)
}

/// A fixed deterministic series built from integer arithmetic alone.
fn series(n: usize) -> Vec<Float> {
    (0..n).map(|i| fl(((((i * i * 37) % 101) as f64) - 50.0) / 10.0)).collect()
}

fn close(a: f64, b: f64) {
    assert!((a - b).abs() < 1e-9, "{} vs {}", a, b);
}

#[test]
fn test_co_f1ecac_reference_series() {
    close(val(co_f1ecac(&series(100)).unwrap()), 0.5876739308402665);
}

#[test]
fn test_co_f1ecac_small_series() {
    close(val(co_f1ecac(&fv(&[1.0, 2.0, 3.0, 4.0])).unwrap()), 0.8428274117714102);
}

#[test]
fn test_co_embed2_reference_series() {
    close(
        val(co_embed2_dist_tau_d_expfit_meandiff(&series(100)).unwrap()),
        0.11066898290460936,
    );
}

#[test]
fn test_dn_histogram_mode_5_reference_series() {
    close(val(dn_histogram_mode_5(&series(100)).unwrap()), 4.0);
}

#[test]
fn test_dn_histogram_mode_10_reference_series() {
    close(val(dn_histogram_mode_10(&series(100)).unwrap()), 3.5);
}

#[test]
fn test_dn_histogram_mode_5_small() {
    close(val(dn_histogram_mode_5(&fv(&[0.0, 0.0, 1.0])).unwrap()), 0.1);
}

#[test]
fn test_dn_outliner_include_p_reference_series() {
    close(
        val(dn_outliner_include_p_001_mdrmd(&series(100)).unwrap()),
        0.030000000000000027,
    );
}

#[test]
fn test_dn_outliner_include_n_reference_series() {
    close(
        val(dn_outliner_include_n_001_mdrmd(&series(100)).unwrap()),
        -0.020000000000000018,
    );
}

#[test]
fn test_dn_outliner_small_series() {
    close(val(dn_outliner_include_p_001_mdrmd(&fv(&[1.0, 2.0])).unwrap()), 0.5);
    close(val(dn_outliner_include_n_001_mdrmd(&fv(&[1.0, 2.0])).unwrap()), 0.0);
}

#[test]
fn test_fc_local_simple_mean1_tauresrat_reference_series() {
    close(val(fc_local_simple_mean1_tauresrat(&series(100)).unwrap()), 1.0);
}

#[test]
fn test_fc_localsimple_mean3_stderr_reference_series() {
    close(val(fc_localsimple_mean3_stderr(&series(100)).unwrap()), 3.4586915173542736);
}

#[test]
fn test_fc_localsimple_mean3_stderr_linear_series() {
    close(
        val(fc_localsimple_mean3_stderr(&fv(&[1.0, 2.0, 3.0, 4.0, 5.0, 6.0])).unwrap()),
        0.0,
    );
}

#[test]
fn test_sb_binarystats_diff_longstretch0_reference_series() {
    close(val(sb_binarystats_diff_longstretch0(&series(100)).unwrap()), 3.0);
}

#[test]
fn test_sb_binarystats_diff_longstretch0_small() {
    close(
        val(sb_binarystats_diff_longstretch0(&fv(&[1.0, 2.0, 1.0, 0.0, -1.0, 5.0])).unwrap()),
        4.0,
    );
}

#[test]
fn test_sb_binarystats_mean_longstretch1_reference_series() {
    close(val(sb_binarystats_mean_longstretch1(&series(100)).unwrap()), 5.0);
}

#[test]
fn test_sb_binarystats_mean_longstretch1_small() {
    close(val(sb_binarystats_mean_longstretch1(&fv(&[0.0, 0.0, 4.0, 4.0])).unwrap()), 1.0);
}

#[test]
fn test_sb_motif_three_reference_series() {
    close(val(sb_motif_three_quantile_hh(&series(100)).unwrap()), 2.1787854648721146);
}

#[test]
fn test_sb_motif_three_small() {
    close(
        val(sb_motif_three_quantile_hh(&fv(&[1.0, 2.0, 3.0])).unwrap()),
        std::f64::consts::LN_2,
    );
}

#[test]
fn test_sc_fluct_anal_dfa_reference_series() {
    close(
        val(sc_fluct_anal_2_dfa_50_1_2_logi_prop_r1(&series(100)).unwrap()),
        0.6,
    );
}

#[test]
fn test_sc_fluct_anal_rsrangefit_reference_series() {
    close(
        val(sc_fluct_anal_2_rsrangefit_50_1_logi_prop_r1(&series(100)).unwrap()),
        0.2857142857142857,
    );
}

#[test]
fn test_sc_fluct_anal_short_series_zero() {
    close(val(sc_fluct_anal_2_dfa_50_1_2_logi_prop_r1(&series(20)).unwrap()), 0.0);
    close(val(sc_fluct_anal_2_rsrangefit_50_1_logi_prop_r1(&series(20)).unwrap()), 0.0);
}

#[test]
fn test_every_feature_propagates_nan() {
    let mut data = series(40);
    data[7] = fl(f64::NAN);
    assert!(val(co_f1ecac(&data).unwrap()).is_nan());
    assert!(val(co_embed2_dist_tau_d_expfit_meandiff(&data).unwrap()).is_nan());
    assert!(val(dn_histogram_mode_5(&data).unwrap()).is_nan());
    assert!(val(dn_histogram_mode_10(&data).unwrap()).is_nan());
    assert!(val(dn_outliner_include_p_001_mdrmd(&data).unwrap()).is_nan());
    assert!(val(dn_outliner_include_n_001_mdrmd(&data).unwrap()).is_nan());
    assert!(val(fc_local_simple_mean1_tauresrat(&data).unwrap()).is_nan());
    assert!(val(fc_localsimple_mean3_stderr(&data).unwrap()).is_nan());
    assert!(val(sb_binarystats_diff_longstretch0(&data).unwrap()).is_nan());
    assert!(val(sb_binarystats_mean_longstretch1(&data).unwrap()).is_nan());
    assert!(val(sb_motif_three_quantile_hh(&data).unwrap()).is_nan());
    assert!(val(sc_fluct_anal_2_dfa_50_1_2_logi_prop_r1(&data).unwrap()).is_nan());
    assert!(val(sc_fluct_anal_2_rsrangefit_50_1_logi_prop_r1(&data).unwrap()).is_nan());
}

#[test]
fn test_every_feature_finite_on_reference_series() {
    let data = series(100);
    assert!(val(co_f1ecac(&data).unwrap()).is_finite());
    assert!(val(co_embed2_dist_tau_d_expfit_meandiff(&data).unwrap()).is_finite());
    assert!(val(dn_histogram_mode_5(&data).unwrap()).is_finite());
    assert!(val(dn_histogram_mode_10(&data).unwrap()).is_finite());
    assert!(val(dn_outliner_include_p_001_mdrmd(&data).unwrap()).is_finite());
    assert!(val(dn_outliner_include_n_001_mdrmd(&data).unwrap()).is_finite());
    assert!(val(fc_local_simple_mean1_tauresrat(&data).unwrap()).is_finite());
    assert!(val(fc_localsimple_mean3_stderr(&data).unwrap()).is_finite());
    assert!(val(sb_binarystats_diff_longstretch0(&data).unwrap()).is_finite());
    assert!(val(sb_binarystats_mean_longstretch1(&data).unwrap()).is_finite());
    assert!(val(sb_motif_three_quantile_hh(&data).unwrap()).is_finite());
    assert!(val(sc_fluct_anal_2_dfa_50_1_2_logi_prop_r1(&data).unwrap()).is_finite());
    assert!(val(sc_fluct_anal_2_rsrangefit_50_1_logi_prop_r1(&data).unwrap()).is_finite());
}

#[test]
fn test_empty_series_is_structural_failure() {
    let e: Vec<Float> = Vec::new();
    assert!(matches!(co_f1ecac(&e), Err(Catch22Error::EmptyInput)));
    assert!(matches!(co_embed2_dist_tau_d_expfit_meandiff(&e), Err(Catch22Error::EmptyInput)));
    assert!(matches!(dn_histogram_mode_5(&e), Err(Catch22Error::EmptyInput)));
    assert!(matches!(dn_outliner_include_p_001_mdrmd(&e), Err(Catch22Error::EmptyInput)));
    assert!(matches!(sb_binarystats_diff_longstretch0(&e), Err(Catch22Error::EmptyInput)));
    assert!(matches!(sb_binarystats_mean_longstretch1(&e), Err(Catch22Error::EmptyInput)));
    assert!(matches!(sb_motif_three_quantile_hh(&e), Err(Catch22Error::EmptyInput)));
    assert!(matches!(sc_fluct_anal_2_dfa_50_1_2_logi_prop_r1(&e), Err(Catch22Error::EmptyInput)));
}

#[test]
fn test_too_short_series_is_size_under() {
    let one = fv(&[1.5]);
    assert!(matches!(
        sb_binarystats_diff_longstretch0(&one),
        Err(Catch22Error::SizeUnder { len: 1, expect_minimum: 2 })
    ));
    assert!(matches!(
        sb_binarystats_mean_longstretch1(&one),
        Err(Catch22Error::SizeUnder { len: 1, expect_minimum: 2 })
    ));
    assert!(matches!(fc_local_simple_mean1_tauresrat(&one), Err(Catch22Error::SizeUnder { .. })));
    assert!(matches!(fc_localsimple_mean3_stderr(&fv(&[1.0, 2.0, 3.0, 4.0])), Err(
        Catch22Error::SizeUnder { .. }
    )));
}

#[test]
fn test_length_one_series_does_not_crash() {
    let one = fv(&[2.5]);
    close(val(co_f1ecac(&one).unwrap()), 1.0);
    close(val(dn_histogram_mode_5(&one).unwrap()), 2.5);
    close(val(dn_histogram_mode_10(&one).unwrap()), 2.5);
    close(val(dn_outliner_include_p_001_mdrmd(&one).unwrap()), 0.0);
    close(val(sb_motif_three_quantile_hh(&one).unwrap()), 0.0);
    close(val(sc_fluct_anal_2_dfa_50_1_2_logi_prop_r1(&one).unwrap()), 0.0);
    assert!(val(co_embed2_dist_tau_d_expfit_meandiff(&one).unwrap()).is_nan());
}

#[test]
fn test_constant_series_does_not_crash() {
    let c = fv(&[5.0; 10]);
    close(val(co_f1ecac(&c).unwrap()), 10.0);
    close(val(dn_histogram_mode_5(&c).unwrap()), 5.0);
    close(val(dn_histogram_mode_10(&c).unwrap()), 5.0);
    close(val(dn_outliner_include_p_001_mdrmd(&c).unwrap()), 0.0);
    close(val(dn_outliner_include_n_001_mdrmd(&c).unwrap()), 0.0);
    close(val(sb_binarystats_diff_longstretch0(&c).unwrap()), 1.0);
    close(val(sb_binarystats_mean_longstretch1(&c).unwrap()), 1.0);
    close(val(sb_motif_three_quantile_hh(&c).unwrap()), 0.0);
    close(val(sc_fluct_anal_2_dfa_50_1_2_logi_prop_r1(&c).unwrap()), 0.0);
    close(val(sc_fluct_anal_2_rsrangefit_50_1_logi_prop_r1(&c).unwrap()), 0.0);
    assert!(val(co_embed2_dist_tau_d_expfit_meandiff(&c).unwrap()).is_nan());
    assert!(val(fc_local_simple_mean1_tauresrat(&c).unwrap()).is_nan());
}

#[test]
fn test_fc_tauresrat_small_series() {
    close(val(fc_local_simple_mean1_tauresrat(&fv(&[1.0, 2.0, 3.0, 4.0])).unwrap()), 0.0);
}
