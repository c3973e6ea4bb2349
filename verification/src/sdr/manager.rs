//! Kinds of SDR input.
use vstd::prelude::*;

verus! {

/// Which device supplies samples.
#[derive(Debug, Clone)]
pub enum SdrType {
    /// A file of samples.
    IFile(String),
    /// A local RTL-SDR dongle by index.
    RtlSdr(u32),
    /// An rtl_tcp server by host and port.
    RtlTcp(String, u16),
    /// Canned samples.
    Mock(Vec<u8>),
}

} // verus!
