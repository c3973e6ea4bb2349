pub mod state;
pub mod formatter;
pub mod stats;
