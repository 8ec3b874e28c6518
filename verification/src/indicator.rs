//! Indicators that are computed from the klines of a chart.
pub mod availability;
pub mod bar_analysis;
pub mod cumulative_delta;
pub mod open_interest;
pub mod plot;
pub mod plot_laws;
pub mod series_laws;
pub mod smc_laws;
pub mod smc_structure;
pub mod smc_view;
pub mod structure_laws;
pub mod zone_laws;
