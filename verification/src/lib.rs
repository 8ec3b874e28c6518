//! Verified core of a market-data charting application: the depth heatmap ring,
//! market-structure detection, request scheduling and the other rules that stand
//! behind the charts. Drawing, networking and floating-point geometry live outside
//! of this crate.
pub mod axis;
pub mod chart_laws;
pub mod connector;
pub mod domain;
pub mod float_bits;
pub mod heatmap;
pub mod indicator;
pub mod interaction;
pub mod kline_chart;
pub mod logger;
pub mod math;
pub mod network_editor;
pub mod ordered;
pub mod settings_laws;
pub mod table;
pub mod text;
pub mod units;
