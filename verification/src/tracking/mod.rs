pub mod validity;
pub mod aircraft;
