use vstd::prelude::*;

verus! {

/// The side of a conversation that a packet belongs to. The endpoint that
/// speaks first is the Initiator; the other endpoint is the Responder.
#[derive(Clone, Copy, Debug, PartialEq, Eq, Structural)]
pub enum Sender {
    Initiator,
    Responder,
}

/// One captured TCP payload, tagged with the capture's sequence number and
/// plain endpoint identifiers. The surrounding capture environment turns its
/// own address representation into the two `u64` endpoint identifiers; the
/// engine only ever compares them for equality.
pub struct Packet {
    pub number: u64,
    pub source: u64,
    pub destination: u64,
    pub payload: Vec<u8>,
}

} // verus!
