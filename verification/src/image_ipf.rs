//! The parts of reading IPF images that do not need the CAPS library: removing the overlap
//! of a track that holds more than one rotation, turning the per cell timing into a density
//! map, and the fixes for two known images.
use vstd::prelude::*;

use crate::bytes::same_bytes;
use crate::types::{total_cellbytes, DensityMapEntry, PulseDuration};

verus! {

/// The data of a track without its overlap: `-1` means none, an overlap below 10 lies at
/// the start and is cut with the byte behind it, a larger one marks where the data ends.
pub open spec fn trimmed<T>(buf: Seq<T>, overlap: i32) -> Seq<T> {
    if overlap == -1 {
        buf
    } else if overlap < 10 {
        buf.skip(1 + overlap)
    } else {
        buf.take(overlap as int)
    }
}

/// An overlap that lies within the data.
pub open spec fn overlap_fits(len: nat, overlap: i32) -> bool {
    if overlap == -1 {
        true
    } else if overlap < 10 {
        overlap >= 0 && 1 + overlap <= len
    } else {
        overlap <= len
    }
}

/// Removes the overlap from the data of a track.
pub fn trim_overlap<T: Copy>(buf: &[T], overlap: i32) -> (r: Vec<T>)
    requires
        overlap_fits(buf@.len(), overlap),
    ensures
        r@ == trimmed(buf@, overlap),
{
    let (from, to): (usize, usize) = if overlap == -1 {
        (0, buf.len())
    } else if overlap < 10 {
        (1 + overlap as usize, buf.len())
    } else {
        (0, overlap as usize)
    };
    let mut r: Vec<T> = Vec::new();
    let mut i: usize = from;
    while i < to
        invariant
            from <= i <= to,
            to <= buf@.len(),
            r@ == buf@.subrange(from as int, i as int),
        decreases to - i,
    {
        r.push(buf[i]);
        i = i + 1;
        assert(r@ =~= buf@.subrange(from as int, i as int));
    }
    assert(trimmed(buf@, overlap) =~= buf@.subrange(from as int, to as int));
    r
}

/// A run of `n` cells with the timing value `value`.
pub open spec fn timing_run(n: nat, value: u32) -> DensityMapEntry {
    DensityMapEntry { number_of_cellbytes: n as usize, cell_size: PulseDuration(value as i32) }
}

/// After the first `n` timing values: the runs closed so far, the value of the open run and
/// its count. A change of value closes the open run with the changing value counted into
/// it, and the new run starts at zero.
pub open spec fn sparse_state(t: Seq<u32>, n: nat) -> (Seq<DensityMapEntry>, u32, nat)
    decreases n,
{
    if n == 0 {
        (Seq::empty(), t[0], 0)
    } else {
        let (out, cur, active) = sparse_state(t, (n - 1) as nat);
        if cur != t[n - 1] {
            (out.push(timing_run(active + 1, cur)), t[n - 1], 0)
        } else {
            (out, cur, active + 1)
        }
    }
}

/// The density map of per cell timing values: the closed runs and the open one where it
/// is not empty.
pub open spec fn sparse_timebuf_spec(t: Seq<u32>) -> Seq<DensityMapEntry> {
    let (out, cur, active) = sparse_state(t, t.len());
    if active > 0 {
        out.push(timing_run(active, cur))
    } else {
        out
    }
}

proof fn lemma_sparse_state_total(t: Seq<u32>, n: nat)
    requires
        n <= t.len(),
        t.len() <= u32::MAX,
    ensures
        total_cellbytes(sparse_state(t, n).0) + sparse_state(t, n).2 == n,
        sparse_state(t, n).2 <= n,
    decreases n,
{
    if n > 0 {
        lemma_sparse_state_total(t, (n - 1) as nat);
        let (out, cur, active) = sparse_state(t, (n - 1) as nat);
        if cur != t[n - 1] {
            assert(out.push(timing_run(active + 1, cur)).drop_last() == out);
            assert(timing_run(active + 1, cur).number_of_cellbytes == active + 1);
        }
    }
}

/// The runs of the density map cover every timing value exactly once.
pub proof fn lemma_sparse_timebuf_covers(t: Seq<u32>)
    requires
        t.len() > 0,
        t.len() <= u32::MAX,
    ensures
        total_cellbytes(sparse_timebuf_spec(t)) == t.len(),
{
    lemma_sparse_state_total(t, t.len());
    let (out, cur, active) = sparse_state(t, t.len());
    if active > 0 {
        assert(out.push(timing_run(active, cur)).drop_last() == out);
        assert(timing_run(active, cur).number_of_cellbytes == active);
    }
}

/// Turns per cell timing values into runs of equal values.
pub fn sparse_timebuf(timebuf: &[u32]) -> (r: Vec<DensityMapEntry>)
    requires
        timebuf@.len() > 0,
        timebuf@.len() <= u32::MAX,
    ensures
        r@ == sparse_timebuf_spec(timebuf@),
        total_cellbytes(r@) == timebuf@.len(),
{
    let mut current_val = timebuf[0];
    let mut density_active_for: u32 = 0;
    let mut runs: Vec<DensityMapEntry> = Vec::new();
    let mut i: usize = 0;
    while i < timebuf.len()
        invariant
            i <= timebuf@.len(),
            timebuf@.len() > 0,
            timebuf@.len() <= u32::MAX,
            density_active_for <= i,
            sparse_state(timebuf@, i as nat) == (runs@, current_val, density_active_for as nat),
        decreases timebuf@.len() - i,
    {
        proof {
            lemma_sparse_state_total(timebuf@, i as nat);
        }
        density_active_for = density_active_for + 1;
        let density = timebuf[i];
        if current_val != density {
            runs.push(
                DensityMapEntry {
                    number_of_cellbytes: density_active_for as usize,
                    cell_size: PulseDuration(current_val as i32),
                },
            );
            current_val = density;
            density_active_for = 0;
        }
        i = i + 1;
    }
    if density_active_for > 0 {
        runs.push(
            DensityMapEntry {
                number_of_cellbytes: density_active_for as usize,
                cell_size: PulseDuration(current_val as i32),
            },
        );
    }
    proof {
        lemma_sparse_timebuf_covers(timebuf@);
    }
    runs
}

/// The digest of the "Enchanted Land" image, whose last track has a broken cell.
pub open spec fn enchanted_land() -> Seq<u8> {
    seq![0xd9u8, 0x07, 0xe2, 0x62, 0xb6, 0xa3, 0xa7, 0x2e, 0x0c, 0x69, 0x02, 0x16, 0xbb, 0x9d, 0x02, 0x90]
}

/// The digest of the first disk of "Gods", whose variable density track starts with an
/// invalid MFM byte.
pub open spec fn gods_disk1() -> Seq<u8> {
    seq![0x7bu8, 0x2a, 0x11, 0xed, 0xa4, 0x9f, 0xc6, 0x84, 0x18, 0x34, 0xe7, 0x92, 0xda, 0xb5, 0x39, 0x97]
}

/// The byte that a known image gets repaired on a track, if any: position and new value.
pub open spec fn ipf_patch(digest: Seq<u8>, cyl: u32, head: u32) -> Option<(int, u8)> {
    if digest == enchanted_land() && cyl == 79 && head == 0 {
        Some((12606, 0x55))
    } else if digest == gods_disk1() && cyl == 0 && head == 1 {
        Some((0, 0x55))
    } else {
        None
    }
}

/// The track data of an IPF image with the repairs that known images need.
pub fn patch_ipf_trackdata(source: &[u8], digest: &[u8], cyl: u32, head: u32) -> (r: Vec<u8>)
    requires
        ipf_patch(digest@, cyl, head) matches Some((p, _)) ==> p < source@.len(),
    ensures
        r@ == match ipf_patch(digest@, cyl, head) {
            Some((p, v)) => source@.update(p, v),
            None => source@,
        },
{
    let enchanted: [u8; 16] = [0xd9, 0x07, 0xe2, 0x62, 0xb6, 0xa3, 0xa7, 0x2e, 0x0c, 0x69, 0x02, 0x16, 0xbb, 0x9d, 0x02, 0x90];
    let gods: [u8; 16] = [0x7b, 0x2a, 0x11, 0xed, 0xa4, 0x9f, 0xc6, 0x84, 0x18, 0x34, 0xe7, 0x92, 0xda, 0xb5, 0x39, 0x97];
    assert(enchanted@ == enchanted_land());
    assert(gods@ == gods_disk1());
    let mut edit = trim_overlap(source, -1);
    if cyl == 79 && head == 0 && same_bytes(digest, &enchanted) {
        edit.set(12606, 0x55);
    } else if cyl == 0 && head == 1 && same_bytes(digest, &gods) {
        edit.set(0, 0x55);
    }
    edit
}

} // verus!
