pub mod beast;
pub mod hex;
pub mod uat;
