//! The parts of console lines that describe a message.
use crate::text::{
    ascii_chars, ascii_string, hex_digits, is_ascii_bytes, lemma_digits_ascii,
    lemma_hex_digits_ascii, push_hex_padded, push_signed_decimal, signed_decimal, zero_padded,
};
use crate::types::ModesMessage;
use vstd::prelude::*;
use vstd::string::StringExecFns;

verus! {

/// A short name of what a message carries, by downlink format and type code.
pub open spec fn message_kind(msgtype: i32, metype: u32) -> Seq<char> {
    if msgtype == 0 || msgtype == 4 || msgtype == 16 {
        if 5 <= metype <= 8 {
            "pos"@
        } else if 9 <= metype <= 19 {
            "vel"@
        } else {
            "surv"@
        }
    } else if msgtype == 5 || msgtype == 21 {
        "id"@
    } else if msgtype == 11 {
        "all-call"@
    } else if msgtype == 17 || msgtype == 18 {
        if 1 <= metype <= 4 {
            "surf"@
        } else if 5 <= metype <= 8 {
            "pos"@
        } else if 9 <= metype <= 19 {
            "vel"@
        } else if metype == 20 {
            "st"@
        } else if metype == 21 || metype == 28 || metype == 31 {
            "status"@
        } else {
            "adsb"@
        }
    } else if msgtype == 19 {
        "mil"@
    } else if msgtype == 20 {
        "comm-b"@
    } else if msgtype == 24 {
        "comm-d"@
    } else if msgtype == 31 {
        "ext-squitter"@
    } else {
        "unknown"@
    }
}

/// A short name of what a message carries (see `message_kind`).
pub fn describe_message_type(msg: &ModesMessage) -> (d: &'static str)
    ensures
        d@ == message_kind(msg.msgtype, msg.metype),
{
    let t = msg.msgtype;
    let me = msg.metype;
    if t == 0 || t == 4 || t == 16 {
        if 5 <= me && me <= 8 {
            "pos"
        } else if 9 <= me && me <= 19 {
            "vel"
        } else {
            "surv"
        }
    } else if t == 5 || t == 21 {
        "id"
    } else if t == 11 {
        "all-call"
    } else if t == 17 || t == 18 {
        if 1 <= me && me <= 4 {
            "surf"
        } else if 5 <= me && me <= 8 {
            "pos"
        } else if 9 <= me && me <= 19 {
            "vel"
        } else if me == 20 {
            "st"
        } else if me == 21 || me == 28 || me == 31 {
            "status"
        } else {
            "adsb"
        }
    } else if t == 19 {
        "mil"
    } else if t == 20 {
        "comm-b"
    } else if t == 24 {
        "comm-d"
    } else if t == 31 {
        "ext-squitter"
    } else {
        "unknown"
    }
}

/// The head of a message line: `[`, the address as six or more upper-case hex digits, `] DF`,
/// the format in decimal, a space and the kind of message.
pub open spec fn message_header(msg: ModesMessage) -> Seq<char> {
    ascii_chars(
        seq![0x5Bu8] + zero_padded(hex_digits(msg.addr as nat), 6) + seq![
            0x5Du8,
            0x20u8,
            0x44u8,
            0x46u8,
        ] + signed_decimal(msg.msgtype as int) + seq![0x20u8],
    ) + message_kind(msg.msgtype, msg.metype)
}

/// The head of a message line (see `message_header`).
pub fn format_msg_header(msg: &ModesMessage) -> (s: String)
    ensures
        s@ == message_header(*msg),
{
    let mut out: Vec<u8> = Vec::new();
    out.push(0x5B);
    push_hex_padded(&mut out, msg.addr, 6);
    out.push(0x5D);
    out.push(0x20);
    out.push(0x44);
    out.push(0x46);
    push_signed_decimal(&mut out, msg.msgtype);
    out.push(0x20);
    proof {
        lemma_hex_digits_ascii(msg.addr as nat);
        let n = msg.msgtype as int;
        if n < 0 {
            lemma_digits_ascii((-n) as nat);
        } else {
            lemma_digits_ascii(n as nat);
        }
        assert(is_ascii_bytes(zero_padded(hex_digits(msg.addr as nat), 6)));
        assert(is_ascii_bytes(signed_decimal(n)));
        assert(is_ascii_bytes(out@));
    }
    let mut s = ascii_string(out.as_slice());
    let desc = describe_message_type(msg);
    s.append(desc);
    s
}

} // verus!
