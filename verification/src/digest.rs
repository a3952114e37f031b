use vstd::prelude::*;

use crate::rawtrack::RawTrack;
use crate::types::DensityMapEntry;

verus! {

/// The MD5 digest of `data`, as the `md5` crate computes it.
pub uninterp spec fn md5_digest(data: Seq<u8>) -> Seq<u8>;

/// Calls `md5::compute`, which returns the MD5 digest of `data`. The contract claims only
/// that the 16 digest bytes are a function of the bytes of `data`, named [`md5_digest`].
#[verifier::external_body]
pub(crate) fn md5_compute(data: &[u8]) -> (r: [u8; 16])
    ensures
        r@ == md5_digest(data@),
{
    md5::compute(data).0
}

/// The four bytes of `v`, least significant first.
pub open spec fn le32_bytes(v: u32) -> Seq<u8> {
    seq![
        (v & 0xffu32) as u8,
        ((v >> 8u32) & 0xffu32) as u8,
        ((v >> 16u32) & 0xffu32) as u8,
        ((v >> 24u32) & 0xffu32) as u8,
    ]
}

/// The eight bytes of `v`, least significant first.
pub open spec fn le64_bytes(v: u64) -> Seq<u8> {
    le32_bytes((v & 0xffff_ffffu64) as u32) + le32_bytes((v >> 32u64) as u32)
}

/// The bytes that a density map adds to the digest of a track: for each run its cell size
/// and its number of cell bytes, the latter as 64 bits.
pub open spec fn densitymap_digest_bytes(m: Seq<DensityMapEntry>) -> Seq<u8>
    decreases m.len(),
{
    if m.len() == 0 {
        Seq::empty()
    } else {
        densitymap_digest_bytes(m.drop_last()) + le32_bytes(m.last().cell_size.0 as u32)
            + le64_bytes(m.last().number_of_cellbytes as u64)
    }
}

/// The bytes that a track adds to the digest: cylinder, head, density map, cell bytes.
pub open spec fn track_digest_bytes(t: RawTrack) -> Seq<u8> {
    le32_bytes(t.cylinder) + le32_bytes(t.head) + densitymap_digest_bytes(t.densitymap@)
        + t.raw_data@
}

/// The bytes of all tracks, in order, that the digest of an image is taken of.
pub open spec fn image_digest_bytes(tracks: Seq<RawTrack>) -> Seq<u8>
    decreases tracks.len(),
{
    if tracks.len() == 0 {
        Seq::empty()
    } else {
        image_digest_bytes(tracks.drop_last()) + track_digest_bytes(tracks.last())
    }
}

fn push_le32(v: &mut Vec<u8>, x: u32)
    ensures
        final(v)@ == old(v)@ + le32_bytes(x),
{
    v.push((x & 0xff) as u8);
    v.push(((x >> 8) & 0xff) as u8);
    v.push(((x >> 16) & 0xff) as u8);
    v.push(((x >> 24) & 0xff) as u8);
    assert(v@ =~= old(v)@ + le32_bytes(x));
}

fn push_le64(v: &mut Vec<u8>, x: u64)
    ensures
        final(v)@ == old(v)@ + le64_bytes(x),
{
    push_le32(v, (x & 0xffff_ffff) as u32);
    push_le32(v, (x >> 32) as u32);
    assert(v@ =~= old(v)@ + le64_bytes(x));
}

fn push_track_bytes(v: &mut Vec<u8>, t: &RawTrack)
    ensures
        final(v)@ == old(v)@ + track_digest_bytes(*t),
{
    push_le32(v, t.cylinder);
    push_le32(v, t.head);
    let ghost start = v@;
    let mut k: usize = 0;
    while k < t.densitymap.len()
        invariant
            k <= t.densitymap@.len(),
            v@ == start + densitymap_digest_bytes(t.densitymap@.take(k as int)),
        decreases t.densitymap@.len() - k,
    {
        let e = &t.densitymap[k];
        push_le32(v, e.cell_size.0 as u32);
        push_le64(v, e.number_of_cellbytes as u64);
        proof {
            let m = t.densitymap@.take(k + 1);
            assert(m.drop_last() =~= t.densitymap@.take(k as int));
            assert(m.last() == t.densitymap@[k as int]);
        }
        k = k + 1;
        assert(v@ =~= start + densitymap_digest_bytes(t.densitymap@.take(k as int)));
    }
    assert(t.densitymap@.take(t.densitymap@.len() as int) =~= t.densitymap@);
    let ghost before_cells = v@;
    let mut i: usize = 0;
    while i < t.raw_data.len()
        invariant
            i <= t.raw_data@.len(),
            v@ == before_cells + t.raw_data@.take(i as int),
        decreases t.raw_data@.len() - i,
    {
        v.push(t.raw_data[i]);
        i = i + 1;
        assert(v@ =~= before_cells + t.raw_data@.take(i as int));
    }
    assert(t.raw_data@.take(t.raw_data@.len() as int) =~= t.raw_data@);
    assert(v@ =~= old(v)@ + track_digest_bytes(*t));
}

/// The MD5 digest of the tracks of an image, which identifies what would be written.
pub fn image_digest(tracks: &[RawTrack]) -> (r: [u8; 16])
    ensures
        r@ == md5_digest(image_digest_bytes(tracks@)),
{
    let mut bytes: Vec<u8> = Vec::new();
    let mut i: usize = 0;
    while i < tracks.len()
        invariant
            i <= tracks@.len(),
            bytes@ == image_digest_bytes(tracks@.take(i as int)),
        decreases tracks@.len() - i,
    {
        push_track_bytes(&mut bytes, &tracks[i]);
        proof {
            let s = tracks@.take(i + 1);
            assert(s.drop_last() =~= tracks@.take(i as int));
        }
        i = i + 1;
    }
    assert(tracks@.take(tracks@.len() as int) =~= tracks@);
    md5_compute(bytes.as_slice())
}

} // verus!
