pub mod icao_filter;
pub mod demod_2400;
pub mod noise_floor;
pub mod demod_ac;
pub mod convert;
