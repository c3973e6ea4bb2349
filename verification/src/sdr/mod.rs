pub mod manager;
pub mod rtl_tcp;
pub mod rtlsdr;
