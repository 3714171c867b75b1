//! Outer framing of game traffic inside each P2P message once the handshake is done.
//!
//! Every framed game datagram is `[ u32 LE inner_len ][ inner_len bytes ]`.
use vstd::bytes::*;
use vstd::prelude::*;
use vstd::slice::slice_subrange;

verus! {

/// Number of bytes of the length prefix.
pub const LENGTH_PREFIX_LEN: usize = 4;

/// The inner length that a datagram declares in its first four bytes.
pub open spec fn declared_len(data: Seq<u8>) -> nat
    recommends
        data.len() >= 4,
{
    spec_u32_from_le_bytes(data.take(4)) as nat
}

/// What `strip_length_prefix` gives back for a datagram: the inner bytes when the datagram is
/// exactly prefix plus declared length and that length is within `max_inner`.
pub open spec fn spec_strip(data: Seq<u8>, max_inner: nat) -> Option<Seq<u8>> {
    if data.len() >= 4 && declared_len(data) <= max_inner && data.len() == 4 + declared_len(data) {
        Some(data.skip(4))
    } else {
        None
    }
}

/// The prefix written in front of an inner payload: its length taken as a `u32` (modulo 2^32),
/// little-endian.
pub open spec fn length_prefix(inner_len: nat) -> Seq<u8> {
    spec_u32_to_le_bytes((inner_len % 0x1_0000_0000) as u32)
}

/// The datagram that frames `inner`.
pub open spec fn spec_framed(inner: Seq<u8>) -> Seq<u8> {
    length_prefix(inner.len()) + inner
}

/// Validate `data` is exactly `4 + inner_len` bytes and `inner_len <= max_inner`; return the inner slice.
pub fn strip_length_prefix(data: &[u8], max_inner: usize) -> (res: Option<&[u8]>)
    ensures
        match spec_strip(data@, max_inner as nat) {
            Some(inner) => res.is_some() && res.unwrap()@ == inner,
            None => res.is_none(),
        },
{
    if data.len() < LENGTH_PREFIX_LEN {
        return None;
    }
    let len_bytes = slice_subrange(data, 0, LENGTH_PREFIX_LEN);
    let len32 = u32_from_le_bytes(len_bytes);
    assert(len_bytes@ == data@.take(4));
    let len = len32 as usize;
    if len > max_inner || data.len() - LENGTH_PREFIX_LEN != len {
        return None;
    }
    Some(slice_subrange(data, LENGTH_PREFIX_LEN, data.len()))
}

/// Allocate `4 + inner.len()` bytes: length as `u32` LE then `inner`. Returns `None` if
/// `inner.len() > max_inner`.
pub fn prepend_length_prefix(inner: &[u8], max_inner: usize) -> (res: Option<Vec<u8>>)
    ensures
        inner@.len() > max_inner ==> res.is_none(),
        inner@.len() <= max_inner ==> res.is_some() && res.unwrap()@ == spec_framed(inner@),
{
    if inner.len() > max_inner {
        return None;
    }
    let len = ((inner.len() as u64) % 0x1_0000_0000u64) as u32;
    let mut buf = u32_to_le_bytes(len);
    buf.extend_from_slice(inner);
    assert(buf@ =~= spec_framed(inner@));
    Some(buf)
}

/// Stripping the prefix from a framed payload gives the payload back, whenever the payload is
/// within the limit and its length fits the 32-bit prefix.
pub proof fn lemma_strip_of_framed(inner: Seq<u8>, max_inner: nat)
    requires
        inner.len() <= max_inner,
        inner.len() < 0x1_0000_0000,
    ensures
        spec_strip(spec_framed(inner), max_inner) == Some(inner),
{
    lemma_auto_spec_u32_to_from_le_bytes();
    let d = spec_framed(inner);
    let p = length_prefix(inner.len());
    assert(d.take(4) =~= p);
    assert(d.skip(4) =~= inner);
}

/// A datagram that strips to `inner` is exactly the framing of `inner`, and `inner` is within the
/// limit: framing and stripping are inverse on every accepted datagram.
pub proof fn lemma_framed_of_strip(data: Seq<u8>, max_inner: nat)
    requires
        spec_strip(data, max_inner) is Some,
    ensures
        spec_framed(spec_strip(data, max_inner).unwrap()) == data,
        spec_strip(data, max_inner).unwrap().len() <= max_inner,
{
    lemma_auto_spec_u32_to_from_le_bytes();
    let inner = data.skip(4);
    let x = spec_u32_from_le_bytes(data.take(4));
    assert(inner.len() == x);
    assert((inner.len() % 0x1_0000_0000) as u32 == x);
    assert(spec_u32_to_le_bytes(x) == data.take(4));
    assert(spec_framed(inner) =~= data);
}

} // verus!
