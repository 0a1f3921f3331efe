pub mod co_auto_corr;
pub mod co_embed2_dist_tau_d_expfit_meandiff;
pub mod dn_histogram_mode;
pub mod dn_outlier_include_n_001_mdrmd;
pub mod fc_local_simple;
pub mod sb_binary_stats;
pub mod sb_motif_three;
pub mod sc_fluct_anal;
