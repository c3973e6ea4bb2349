pub mod globe;
pub mod heatmap;
