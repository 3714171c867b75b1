//! One inner game payload, after the length wrapper has been stripped.
use vstd::prelude::*;

verus! {

/// One **inner** game payload after the message body has been validated as `u32 LE len || bytes`
/// and the length wrapper stripped. The bytes are opaque to this crate.
#[derive(Debug)]
pub struct FramedPayload {
    /// **Client:** always `0` (single host connection). **Host:** index of the sending peer among
    /// the connections handshaken at the time of the poll, in the order used when iterating peers
    /// for broadcast send. The number of a peer can change between polls: it goes up when an
    /// earlier connection completes its handshake, and down when an earlier one goes away.
    pub peer_index: usize,
    /// Inner payload only; length prefix already removed.
    pub bytes: Vec<u8>,
}

} // verus!
