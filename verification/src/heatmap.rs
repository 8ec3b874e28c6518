//! The depth heatmap: its ring of columns, its scene and its view.
pub mod control_laws;
pub mod controller;
pub mod depth_grid;
pub mod depth_laws;
pub mod layout;
pub mod levels;
pub mod overlay;
pub mod overlay_laws;
pub mod price_axis;
pub mod scene;
pub mod scene_laws;
pub mod side_grid;
pub mod view;
pub mod view_laws;
