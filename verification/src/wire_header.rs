//! Fixed 15-byte prefix for inner game packets: version, kind, tick and embedded payload length.
//!
//! Layout (little-endian integers):
//!
//! ```text
//! [ u16 version ][ u8 kind ][ u64 tick ][ u32 payload_len ][ payload_len bytes... ]
//! ```
//!
//! Total size = [`HEADER_LEN`] + `payload_len`; [`parse`] requires the slice length to match exactly.
use vstd::bytes::*;
use vstd::prelude::*;
use vstd::slice::slice_subrange;

verus! {

/// Byte length of the on-wire header (before the variable-length payload).
pub const HEADER_LEN: usize = 15;

/// Parsed view of the fixed header; `payload_len` is the length of the trailing opaque region only.
#[derive(Clone, Copy, Debug, PartialEq, Eq, Structural)]
pub struct WireHeader {
    /// Application protocol version (game-defined).
    pub version: u16,
    /// Message category for cheap routing / coalescing (game-defined).
    pub kind: u8,
    /// Sim or snapshot tick (game-defined; may be `0` for non-tick messages).
    pub tick: u64,
    /// Length in bytes of the opaque trailer after this 15-byte header.
    pub payload_len: usize,
}

/// The payload length that a packet declares in bytes 11..15.
pub open spec fn declared_payload_len(bytes: Seq<u8>) -> nat
    recommends
        bytes.len() >= 15,
{
    spec_u32_from_le_bytes(bytes.subrange(11, 15)) as nat
}

/// What `parse` gives for a packet: the header when the packet is at least a header long, declares
/// a payload length within `max_payload`, and is exactly header plus that many bytes.
pub open spec fn spec_parse(bytes: Seq<u8>, max_payload: nat) -> Option<WireHeader> {
    if bytes.len() < 15 {
        None
    } else if declared_payload_len(bytes) > max_payload {
        None
    } else if bytes.len() != 15 + declared_payload_len(bytes) {
        None
    } else {
        Some(
            WireHeader {
                version: spec_u16_from_le_bytes(bytes.subrange(0, 2)),
                kind: bytes[2],
                tick: spec_u64_from_le_bytes(bytes.subrange(3, 11)),
                payload_len: declared_payload_len(bytes) as usize,
            },
        )
    }
}

/// The 15 header bytes for the given fields; the payload length is written as a `u32`
/// (modulo 2^32).
pub open spec fn spec_header_bytes(version: u16, kind: u8, tick: u64, payload_len: nat) -> Seq<u8> {
    spec_u16_to_le_bytes(version) + seq![kind] + spec_u64_to_le_bytes(tick) + spec_u32_to_le_bytes(
        (payload_len % 0x1_0000_0000) as u32,
    )
}

/// The packet `header || payload` that `build_frame` produces.
pub open spec fn spec_frame(version: u16, kind: u8, tick: u64, payload: Seq<u8>) -> Seq<u8> {
    spec_header_bytes(version, kind, tick, payload.len()) + payload
}

/// Parse and validate a full packet `header || payload`. Returns `None` if truncated, length mismatch,
/// or `payload_len > max_payload`.
pub fn parse(bytes: &[u8], max_payload: usize) -> (res: Option<WireHeader>)
    ensures
        res == spec_parse(bytes@, max_payload as nat),
{
    if bytes.len() < HEADER_LEN {
        return None;
    }
    let version_bytes = slice_subrange(bytes, 0, 2);
    let version = u16_from_le_bytes(version_bytes);
    let kind = bytes[2];
    let tick_bytes = slice_subrange(bytes, 3, 11);
    let tick = u64_from_le_bytes(tick_bytes);
    let len_bytes = slice_subrange(bytes, 11, 15);
    let payload_len = u32_from_le_bytes(len_bytes) as usize;
    if payload_len > max_payload {
        return None;
    }
    if bytes.len() - HEADER_LEN != payload_len {
        return None;
    }
    Some(WireHeader { version, kind, tick, payload_len })
}

/// Allocate `header || payload`. Returns `None` if `payload.len() > max_payload`.
pub fn build_frame(version: u16, kind: u8, tick: u64, payload: &[u8], max_payload: usize) -> (res:
    Option<Vec<u8>>)
    ensures
        payload@.len() > max_payload ==> res.is_none(),
        payload@.len() <= max_payload ==> res.is_some() && res.unwrap()@ == spec_frame(
            version,
            kind,
            tick,
            payload@,
        ),
{
    if payload.len() > max_payload {
        return None;
    }
    let mut out = u16_to_le_bytes(version);
    out.push(kind);
    let tick_bytes = u64_to_le_bytes(tick);
    out.extend_from_slice(tick_bytes.as_slice());
    let len = ((payload.len() as u64) % 0x1_0000_0000u64) as u32;
    let len_bytes = u32_to_le_bytes(len);
    out.extend_from_slice(len_bytes.as_slice());
    out.extend_from_slice(payload);
    assert(out@ =~= spec_frame(version, kind, tick, payload@));
    Some(out)
}

/// Parsing a built frame gives back the fields it was built from, whenever the payload is within
/// the limit and its length fits the 32-bit length field.
pub proof fn lemma_parse_of_frame(
    version: u16,
    kind: u8,
    tick: u64,
    payload: Seq<u8>,
    max_payload: nat,
)
    requires
        payload.len() <= max_payload,
        payload.len() < 0x1_0000_0000,
    ensures
        spec_parse(spec_frame(version, kind, tick, payload), max_payload) == Some(
            WireHeader { version, kind, tick, payload_len: payload.len() as usize },
        ),
{
    lemma_auto_spec_u16_to_from_le_bytes();
    lemma_auto_spec_u32_to_from_le_bytes();
    lemma_auto_spec_u64_to_from_le_bytes();
    let f = spec_frame(version, kind, tick, payload);
    assert(f.subrange(0, 2) =~= spec_u16_to_le_bytes(version));
    assert(f.subrange(3, 11) =~= spec_u64_to_le_bytes(tick));
    assert(f.subrange(11, 15) =~= spec_u32_to_le_bytes(payload.len() as u32));
}

/// A packet that parses to header `h` is exactly the frame built from `h`'s fields and the bytes
/// after the header, and those bytes number `h.payload_len`, within the limit.
pub proof fn lemma_frame_of_parse(bytes: Seq<u8>, max_payload: nat)
    requires
        spec_parse(bytes, max_payload) is Some,
    ensures
        ({
            let h = spec_parse(bytes, max_payload).unwrap();
            &&& spec_frame(h.version, h.kind, h.tick, bytes.skip(15)) == bytes
            &&& h.payload_len == bytes.len() - 15
            &&& h.payload_len <= max_payload
        }),
{
    lemma_auto_spec_u16_to_from_le_bytes();
    lemma_auto_spec_u32_to_from_le_bytes();
    lemma_auto_spec_u64_to_from_le_bytes();
    let h = spec_parse(bytes, max_payload).unwrap();
    let payload = bytes.skip(15);
    let l = spec_u32_from_le_bytes(bytes.subrange(11, 15));
    assert(spec_u16_to_le_bytes(h.version) == bytes.subrange(0, 2));
    assert(spec_u64_to_le_bytes(h.tick) == bytes.subrange(3, 11));
    assert(spec_u32_to_le_bytes(l) == bytes.subrange(11, 15));
    assert((payload.len() % 0x1_0000_0000) as u32 == l);
    assert(spec_frame(h.version, h.kind, h.tick, payload) =~= bytes);
}

} // verus!
