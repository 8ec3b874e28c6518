//! The kline chart: its bars, their footprints, the trades over them and what is fetched for them.
pub mod bar_laws;
pub mod bars;
pub mod chart;
pub mod cluster_laws;
pub mod clusters;
pub mod fetch_laws;
pub mod indicators;
pub mod study;
pub mod trades;
