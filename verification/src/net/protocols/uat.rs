//! UAT frames.
use vstd::prelude::*;

verus! {

/// A raw UAT frame.
#[derive(Debug, Clone)]
pub struct UatMessage {
    pub data: Vec<u8>,
}

/// Take a UAT frame of at least five bytes.
pub fn parse_frame(data: &[u8]) -> (r: Option<UatMessage>)
    ensures
        data@.len() < 5 ==> r is None,
        data@.len() >= 5 ==> (r matches Some(m) && m.data@ == data@),
{
    if data.len() < 5 {
        return None;
    }
    Some(UatMessage { data: vstd::slice::slice_to_vec(data) })
}

} // verus!
