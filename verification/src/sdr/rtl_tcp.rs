//! The rtl_tcp protocol: the server's greeting and the client's commands.
use vstd::prelude::*;

verus! {

pub const RTLTCP_SET_FREQ: u8 = 0x01;
pub const RTLTCP_SET_SAMPLE_RATE: u8 = 0x02;
pub const RTLTCP_SET_GAIN_MODE: u8 = 0x03;
pub const RTLTCP_SET_GAIN: u8 = 0x04;
pub const RTLTCP_SET_FREQ_CORR: u8 = 0x05;
pub const RTLTCP_SET_IF_GAIN: u8 = 0x06;
pub const RTLTCP_SET_DIRECT_SAMP: u8 = 0x09;
pub const RTLTCP_SET_OFFSET_TUNING: u8 = 0x0A;
pub const RTLTCP_SET_BIAS_TEE: u8 = 0x0E;

/// The 12-byte greeting an rtl_tcp server sends: magic "RTL0", tuner type, gain count.
#[derive(Debug, Clone, Copy)]
pub struct DongleInfo {
    pub magic: [u8; 4],
    pub tuner_type: u32,
    pub tuner_gain_count: u32,
}

/// Whether a greeting starts with the magic "RTL0".
pub open spec fn greeting_ok(info: Seq<u8>) -> bool {
    info[0] == 0x52 && info[1] == 0x54 && info[2] == 0x4C && info[3] == 0x30
}

/// Whether the first four bytes of a server greeting are the magic "RTL0".
pub fn dongle_magic_ok(info: &[u8; 12]) -> (ok: bool)
    ensures
        ok == greeting_ok(info@),
{
    info[0] == 0x52 && info[1] == 0x54 && info[2] == 0x4C && info[3] == 0x30
}

/// A command on the wire: the command byte, then the parameter big-endian.
pub open spec fn command_bytes(cmd: u8, param: u32) -> Seq<u8> {
    seq![cmd, (param >> 24u32) as u8, (param >> 16u32) as u8, (param >> 8u32) as u8, param as u8]
}

/// Encode an rtl_tcp command (see `command_bytes`).
pub fn rtltcp_command(cmd: u8, param: u32) -> (bytes: [u8; 5])
    ensures
        bytes@ == command_bytes(cmd, param),
{
    let bytes = [cmd, (param >> 24) as u8, (param >> 16) as u8, (param >> 8) as u8, param as u8];
    assert(bytes@ =~= command_bytes(cmd, param));
    bytes
}

} // verus!
