pub mod client;
pub mod protocols;
pub mod server;
