use vstd::prelude::*;
use vstd::utf8::{decode_utf8, valid_utf8};

verus! {

/// The little endian 16 bit number at `p`.
pub open spec fn le16(b: Seq<u8>, p: int) -> u16 {
    (b[p] as u16 | ((b[p + 1] as u16) << 8u16)) as u16
}

/// The big endian 16 bit number at `p`.
pub open spec fn be16(b: Seq<u8>, p: int) -> u16 {
    (((b[p] as u16) << 8u16) | b[p + 1] as u16) as u16
}

/// The little endian 32 bit number at `p`.
pub open spec fn le32(b: Seq<u8>, p: int) -> u32 {
    (b[p] as u32 | ((b[p + 1] as u32) << 8u32) | ((b[p + 2] as u32) << 16u32) | ((b[p + 3] as u32)
        << 24u32)) as u32
}

/// The little endian 16 bit number at `p`, if all its bytes are there.
pub fn read_le16(b: &[u8], p: usize) -> (r: Option<u16>)
    ensures
        p + 2 <= b@.len() ==> r == Some(le16(b@, p as int)),
        p + 2 > b@.len() ==> r is None,
{
    if p > b.len() || b.len() - p < 2 {
        return None;
    }
    Some((b[p] as u16) | ((b[p + 1] as u16) << 8))
}

/// The big endian 16 bit number at `p`, if all its bytes are there.
pub fn read_be16(b: &[u8], p: usize) -> (r: Option<u16>)
    ensures
        p + 2 <= b@.len() ==> r == Some(be16(b@, p as int)),
        p + 2 > b@.len() ==> r is None,
{
    if p > b.len() || b.len() - p < 2 {
        return None;
    }
    Some(((b[p] as u16) << 8) | (b[p + 1] as u16))
}

/// The little endian 32 bit number at `p`, if all its bytes are there.
pub fn read_le32(b: &[u8], p: usize) -> (r: Option<u32>)
    ensures
        p + 4 <= b@.len() ==> r == Some(le32(b@, p as int)),
        p + 4 > b@.len() ==> r is None,
{
    if p > b.len() || b.len() - p < 4 {
        return None;
    }
    Some(
        (b[p] as u32) | ((b[p + 1] as u32) << 8) | ((b[p + 2] as u32) << 16) | ((b[p + 3] as u32)
            << 24),
    )
}

/// Whether two byte strings are equal.
pub(crate) fn same_bytes(a: &[u8], b: &[u8]) -> (r: bool)
    ensures
        r == (a@ == b@),
{
    if a.len() != b.len() {
        return false;
    }
    let mut i: usize = 0;
    while i < a.len()
        invariant
            i <= a@.len(),
            a@.len() == b@.len(),
            forall|k: int| 0 <= k < i ==> a@[k] == b@[k],
        decreases a@.len() - i,
    {
        if a[i] != b[i] {
            return false;
        }
        i = i + 1;
    }
    assert(a@ =~= b@);
    true
}

/// `std::str::from_utf8`, kept as an owned string: the characters that `bytes` encode, or
/// `None` exactly where `bytes` are not UTF-8.
#[verifier::external_body]
pub(crate) fn utf8_text(bytes: &[u8]) -> (r: Option<String>)
    ensures
        r is Some <==> valid_utf8(bytes@),
        r matches Some(s) ==> s@ == decode_utf8(bytes@),
{
    match std::str::from_utf8(bytes) {
        Ok(s) => Some(s.to_string()),
        Err(_) => None,
    }
}

} // verus!
