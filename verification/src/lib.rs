pub mod console;
pub mod crc;
pub mod demod;
pub mod text;
pub mod modes;
pub mod types;
pub mod tracking;
pub mod net;
pub mod output;
pub mod sdr;
pub mod viewsb;
pub mod progress;
pub mod cpr;
pub mod compare;
pub mod settings;
pub mod receiver;
pub mod syndromes;
