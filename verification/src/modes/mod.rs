pub mod ais;
pub mod comm_b;
pub mod mode_ac;
pub mod parser;
