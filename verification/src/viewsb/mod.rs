pub mod cli;
pub mod formatter;
pub mod output;
