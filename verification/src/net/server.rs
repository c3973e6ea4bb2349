//! What the network server hands between clients.
use vstd::prelude::*;

verus! {

/// The input protocol a listening port speaks.
#[derive(Clone, Copy, Debug, PartialEq, Eq, Structural)]
pub enum InputParser {
    /// No input is read.
    NoParser,
    Beast,
    Hex,
    Sbs,
}

/// A message received from a client.
#[derive(Clone, Debug)]
pub struct DecodedMessage {
    pub data: Vec<u8>,
    pub client_id: u64,
}

} // verus!
