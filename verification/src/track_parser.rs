use vstd::prelude::*;
use vstd::multiset::Multiset;

use crate::fluxpulse::{pulse_cells, FluxPulseToCells};
use crate::gcr::{gcr_init, gcr_run, GcrDecoder, GcrDecoderResult};
use crate::mfm::{dec_init, dec_run, sep_init, sep_run, MfmDataSeperator, MfmDecoder, MfmWord, RawMfmWord};
use crate::rawtrack::TrackFilter;
use crate::types::{Bit, Density, PulseDuration};

pub mod amiga;
pub mod c64;
pub mod iso;
pub mod iso_readback;

verus! {

/// The data of one track as read back from a disk.
pub struct TrackPayload {
    pub cylinder: u32,
    pub head: u32,
    pub payload: Vec<u8>,
}

/// A sector found on a track: its number and its data.
pub struct CollectedSector {
    pub index: u32,
    pub payload: Vec<u8>,
}

/// Why a raw track could not be read as a track of the expected format.
#[derive(Clone, Copy, Debug, PartialEq, Eq, Structural)]
pub enum TrackParseError {
    /// A sector header names another track than the expected one.
    WrongTrack,
    /// Not all expected sectors were found.
    MissingSectors,
    /// A header or data block ends before its first bytes; no result can be given.
    Malformed,
}

/// The durations of one revolution of the drives, in timer ticks.
#[derive(Clone, Copy, Debug, PartialEq, Eq, Structural)]
pub struct RotationTicks {
    pub inch3_5: usize,
    pub inch5_25: usize,
    /// Of the slowest drive supported.
    pub slowest: usize,
}

/// All three durations are small enough to be scaled by a percentage; one revolution takes
/// about 17 million ticks.
pub open spec fn rotation_ticks_ok(t: RotationTicks) -> bool {
    &&& t.inch3_5 <= 0x0200_0000
    &&& t.inch5_25 <= 0x0200_0000
    &&& t.slowest <= 0x0200_0000
}

/// A reader of one disk format.
pub trait TrackParser {
    /// A track was announced with [`TrackParser::expect_track`] and not yet returned.
    spec fn expecting(&self) -> bool;

    /// The parser accepts this head.
    spec fn head_ok(&self, head: u32) -> bool;

    /// Parses the pulse durations of a track, in units of eight timer ticks.
    fn parse_raw_track(&mut self, track: &[u8]) -> Result<TrackPayload, TrackParseError>
        requires
            old(self).expecting(),
            track@.len() < 0x1000_0000,
    ;

    /// Announces the track that the next raw tracks are read from.
    fn expect_track(&mut self, cylinder: u32, head: u32)
        requires
            old(self).head_ok(head),
        ensures
            final(self).expecting(),
    ;

    /// The number of cylinders from one track to the next.
    fn step_size(&self) -> usize;

    fn track_density(&self) -> Density;

    /// How long to record a track, in timer ticks, given the durations of one revolution.
    fn duration_to_record(&self, rotation: &RotationTicks) -> usize
        requires
            rotation_ticks_ok(*rotation),
    ;

    fn format_name(&self) -> &'static str;

    fn default_trackfilter(&self) -> TrackFilter;

    fn default_file_extension(&self) -> &'static str;
}

/// A collected sector as its number and its data.
pub open spec fn sector_view(s: CollectedSector) -> (u32, Seq<u8>) {
    (s.index, s.payload@)
}

pub open spec fn sectors_view(s: Seq<CollectedSector>) -> Seq<(u32, Seq<u8>)> {
    Seq::new(s.len(), |i: int| sector_view(s[i]))
}

/// Some sector of `s` has the number `index`.
pub open spec fn has_sector(s: Seq<(u32, Seq<u8>)>, index: u32) -> bool {
    exists|i: int| 0 <= i < s.len() && (#[trigger] s[i]).0 == index
}

/// The number of sectors at the front of `r` whose number is at most `key`.
pub open spec fn first_greater(r: Seq<(u32, Seq<u8>)>, key: u32) -> nat
    decreases r.len(),
{
    if r.len() == 0 {
        0
    } else if r[0].0 > key {
        0
    } else {
        1 + first_greater(r.skip(1), key)
    }
}

/// `x` inserted into `r` behind all sectors at the front whose number is not greater.
pub open spec fn insert_by_index(r: Seq<(u32, Seq<u8>)>, x: (u32, Seq<u8>)) -> Seq<(u32, Seq<u8>)> {
    let k = first_greater(r, x.0) as int;
    r.take(k) + seq![x] + r.skip(k)
}

/// The sectors `s` ordered by their numbers, sectors of equal number in their order in `s`.
pub open spec fn sort_by_index(s: Seq<(u32, Seq<u8>)>) -> Seq<(u32, Seq<u8>)>
    decreases s.len(),
{
    if s.len() == 0 {
        Seq::empty()
    } else {
        insert_by_index(sort_by_index(s.drop_last()), s.last())
    }
}

/// The data of all sectors `s`, one after the other.
pub open spec fn flatten_payloads(s: Seq<(u32, Seq<u8>)>) -> Seq<u8>
    decreases s.len(),
{
    if s.len() == 0 {
        Seq::empty()
    } else {
        flatten_payloads(s.drop_last()) + s.last().1
    }
}

/// The sector numbers of `s` never decrease.
pub open spec fn sorted_by_index(s: Seq<(u32, Seq<u8>)>) -> bool {
    forall|i: int, j: int| 0 <= i < j < s.len() ==> s[i].0 <= s[j].0
}

proof fn lemma_first_greater_bound(r: Seq<(u32, Seq<u8>)>, key: u32)
    ensures
        first_greater(r, key) <= r.len(),
        forall|i: int| 0 <= i < first_greater(r, key) ==> r[i].0 <= key,
        first_greater(r, key) < r.len() ==> r[first_greater(r, key) as int].0 > key,
    decreases r.len(),
{
    if r.len() > 0 && r[0].0 <= key {
        lemma_first_greater_bound(r.skip(1), key);
        assert forall|i: int| 0 <= i < first_greater(r, key) implies r[i].0 <= key by {
            if i > 0 {
                assert(r[i] == r.skip(1)[i - 1]);
            }
        }
    }
}

proof fn lemma_insert_sorted(r: Seq<(u32, Seq<u8>)>, x: (u32, Seq<u8>))
    requires
        sorted_by_index(r),
    ensures
        sorted_by_index(insert_by_index(r, x)),
        insert_by_index(r, x).len() == r.len() + 1,
        insert_by_index(r, x).to_multiset() == r.to_multiset().insert(x),
{
    lemma_first_greater_bound(r, x.0);
    let k = first_greater(r, x.0) as int;
    let out = insert_by_index(r, x);
    assert forall|i: int, j: int| 0 <= i < j < out.len() implies out[i].0 <= out[j].0 by {
        if j < k {
            assert(out[i] == r[i] && out[j] == r[j]);
        } else if j == k {
            assert(out[j] == x);
            assert(out[i] == r[i]);
        } else if i < k {
            assert(out[i] == r[i] && out[j] == r[j - 1]);
        } else if i == k {
            assert(out[i] == x && out[j] == r[j - 1]);
            assert(r[k].0 > x.0);
            assert(r[k].0 <= r[j - 1].0 || j - 1 == k);
        } else {
            assert(out[i] == r[i - 1] && out[j] == r[j - 1]);
        }
    }
    vstd::seq_lib::lemma_multiset_commutative(r.take(k) + seq![x], r.skip(k));
    vstd::seq_lib::lemma_multiset_commutative(r.take(k), seq![x]);
    vstd::seq_lib::lemma_multiset_commutative(r.take(k), r.skip(k));
    assert(r.take(k) + r.skip(k) == r);
    assert(seq![x].to_multiset() =~= Multiset::empty().insert(x)) by {
        assert(seq![x] == Seq::<(u32, Seq<u8>)>::empty().push(x));
        Seq::<(u32, Seq<u8>)>::empty().to_multiset_ensures();
        Seq::<(u32, Seq<u8>)>::empty().push(x).to_multiset_ensures();
    }
}

/// Sorting by sector number gives the same sectors, in an order whose sector numbers never
/// decrease.
pub proof fn lemma_sort_by_index(s: Seq<(u32, Seq<u8>)>)
    ensures
        sorted_by_index(sort_by_index(s)),
        sort_by_index(s).len() == s.len(),
        sort_by_index(s).to_multiset() == s.to_multiset(),
    decreases s.len(),
{
    if s.len() > 0 {
        lemma_sort_by_index(s.drop_last());
        lemma_insert_sorted(sort_by_index(s.drop_last()), s.last());
        s.drop_last().to_multiset_ensures();
        assert(s.drop_last().push(s.last()) == s);
    } else {
        assert(s.to_multiset() =~= Multiset::empty()) by {
            s.to_multiset_ensures();
        }
        Seq::<(u32, Seq<u8>)>::empty().to_multiset_ensures();
    }
}

/// Sectors already ordered by strictly growing numbers stay as they are.
pub proof fn lemma_sort_sorted_identity(s: Seq<(u32, Seq<u8>)>)
    requires
        forall|i: int, j: int| 0 <= i < j < s.len() ==> s[i].0 < s[j].0,
    ensures
        sort_by_index(s) == s,
    decreases s.len(),
{
    if s.len() > 0 {
        let p = s.drop_last();
        lemma_sort_sorted_identity(p);
        lemma_first_greater_bound(p, s.last().0);
        let k = first_greater(p, s.last().0);
        if k < p.len() {
            assert(p[k as int].0 < s.last().0);
        }
        assert(p.take(p.len() as int) + seq![s.last()] + p.skip(p.len() as int) =~= s);
    }
}

/// The data of sectors that hold the 512 byte pieces of `d` in order is `d`.
pub proof fn lemma_flatten_pieces(s: Seq<(u32, Seq<u8>)>, d: Seq<u8>)
    requires
        d.len() == 512 * s.len(),
        forall|j: int| 0 <= j < s.len() ==> #[trigger] s[j].1 == d.subrange(512 * j, 512 * j + 512),
    ensures
        flatten_payloads(s) == d,
    decreases s.len(),
{
    if s.len() > 0 {
        let m = s.len() - 1;
        let dm = d.take(512 * m);
        assert forall|j: int| 0 <= j < m implies #[trigger] s.drop_last()[j].1 == dm.subrange(
            512 * j,
            512 * j + 512,
        ) by {
            assert(512 * j + 512 <= 512 * m) by (nonlinear_arith)
                requires
                    j < m,
            ;
            assert(s.drop_last()[j] == s[j]);
            assert(dm.subrange(512 * j, 512 * j + 512) =~= d.subrange(512 * j, 512 * j + 512));
        }
        lemma_flatten_pieces(s.drop_last(), dm);
        assert(dm + s.last().1 =~= d);
    }
}

/// Orders the collected sectors by their numbers and joins their data.
pub fn concatenate_sectors(collected_sectors: Vec<CollectedSector>, cylinder: u32, head: u32) -> (r:
    TrackPayload)
    ensures
        r.cylinder == cylinder,
        r.head == head,
        r.payload@ == flatten_payloads(sort_by_index(sectors_view(collected_sectors@))),
{
    let ghost all = sectors_view(collected_sectors@);
    let mut remaining = collected_sectors;
    let mut sorted: Vec<CollectedSector> = Vec::new();
    let mut n: usize = 0;
    let total = remaining.len();
    while remaining.len() > 0
        invariant
            n + remaining@.len() == total,
            total == all.len(),
            sectors_view(remaining@) == all.skip(n as int),
            sectors_view(sorted@) == sort_by_index(all.take(n as int)),
        decreases remaining@.len(),
    {
        let ghost rem0 = remaining@;
        let x = remaining.remove(0);
        proof {
            assert forall|i: int| 0 <= i < remaining@.len() implies sectors_view(remaining@)[i]
                == all.skip(n + 1)[i] by {
                assert(remaining@[i] == rem0[i + 1]);
                assert(sectors_view(rem0)[i + 1] == all.skip(n as int)[i + 1]);
            }
            assert(sector_view(x) == sectors_view(rem0)[0]);
        }
        let ghost r = sectors_view(sorted@);
        let key = x.index;
        let mut pos: usize = 0;
        assert(r.skip(0) == r);
        while pos < sorted.len() && sorted[pos].index <= key
            invariant
                pos <= sorted@.len(),
                r == sectors_view(sorted@),
                first_greater(r, key) == pos + first_greater(r.skip(pos as int), key),
            decreases sorted@.len() - pos,
        {
            assert(r.skip(pos as int)[0] == r[pos as int]);
            assert(r.skip(pos as int).skip(1) == r.skip(pos + 1));
            pos = pos + 1;
        }
        proof {
            if pos < r.len() {
                assert(r.skip(pos as int)[0] == r[pos as int]);
            }
        }
        sorted.insert(pos, x);
        proof {
            assert(all.take(n + 1).drop_last() == all.take(n as int));
            assert(all.take(n + 1).last() == sector_view(x)) by {
                assert(all.skip(n as int)[0] == all[n as int]);
            }
            assert(sectors_view(sorted@) =~= insert_by_index(r, sector_view(x)));
            assert(sectors_view(remaining@) =~= all.skip(n + 1));
        }
        n = n + 1;
    }
    assert(all.take(n as int) == all);
    let ghost ordered = sectors_view(sorted@);
    let mut track_data: Vec<u8> = Vec::new();
    let mut k: usize = 0;
    let count = sorted.len();
    while sorted.len() > 0
        invariant
            k + sorted@.len() == count,
            count == ordered.len(),
            sectors_view(sorted@) == ordered.skip(k as int),
            track_data@ == flatten_payloads(ordered.take(k as int)),
        decreases sorted@.len(),
    {
        let ghost sorted0 = sorted@;
        let mut x = sorted.remove(0);
        proof {
            assert forall|i: int| 0 <= i < sorted@.len() implies sectors_view(sorted@)[i]
                == ordered.skip(k + 1)[i] by {
                assert(sorted@[i] == sorted0[i + 1]);
                assert(sectors_view(sorted0)[i + 1] == ordered.skip(k as int)[i + 1]);
            }
            assert(sector_view(x) == sectors_view(sorted0)[0]);
            assert(ordered.skip(k as int)[0] == ordered[k as int]);
            assert(ordered.take(k + 1).drop_last() == ordered.take(k as int));
        }
        track_data.append(&mut x.payload);
        proof {
            assert(sectors_view(sorted@) =~= ordered.skip(k + 1));
        }
        k = k + 1;
    }
    assert(ordered.take(k as int) == ordered);
    TrackPayload { cylinder, head, payload: track_data }
}

/// The cells that the pulse durations `track`, in units of eight timer ticks, stand for.
pub open spec fn track_cells(track: Seq<u8>, cell_duration: int) -> Seq<Bit>
    decreases track.len(),
{
    if track.len() == 0 {
        Seq::empty()
    } else {
        track_cells(track.drop_last(), cell_duration) + pulse_cells(
            track.last() as int * 8,
            cell_duration,
        )
    }
}

/// The cells of one pulse duration.
fn pulse_to_cells(duration: u8, cell_duration: i32) -> (r: Vec<Bit>)
    requires
        0 < cell_duration <= 0x1000_0000,
    ensures
        r@ == pulse_cells(duration as int * 8, cell_duration as int),
{
    let mut cells: Vec<Bit> = Vec::new();
    let mut parser = FluxPulseToCells::new(cell_duration);
    parser.feed(PulseDuration((duration as i32) << 3), &mut cells);
    assert(((duration as i32) << 3i32) == duration as int * 8) by (bit_vector)
        requires
            duration <= 255,
    ;
    cells
}

/// The raw MFM words of a track's pulse durations.
pub fn separate_mfm_track(track: &[u8], cell_duration: i32) -> (r: Vec<RawMfmWord>)
    requires
        0 < cell_duration <= 0x1000_0000,
    ensures
        r@ == sep_run(sep_init(), track_cells(track@, cell_duration as int)).1,
{
    let mut words: Vec<RawMfmWord> = Vec::new();
    let mut sep = MfmDataSeperator::new();
    let mut i: usize = 0;
    while i < track.len()
        invariant
            i <= track@.len(),
            0 < cell_duration <= 0x1000_0000,
            sep.wf(),
            sep.state() == sep_run(sep_init(), track_cells(track@.take(i as int), cell_duration as int)).0,
            words@ == sep_run(sep_init(), track_cells(track@.take(i as int), cell_duration as int)).1,
        decreases track@.len() - i,
    {
        let cells = pulse_to_cells(track[i], cell_duration);
        let ghost before = track_cells(track@.take(i as int), cell_duration as int);
        let mut j: usize = 0;
        while j < cells.len()
            invariant
                j <= cells@.len(),
                sep.wf(),
                sep.state() == sep_run(sep_init(), before + cells@.take(j as int)).0,
                words@ == sep_run(sep_init(), before + cells@.take(j as int)).1,
            decreases cells@.len() - j,
        {
            assert((before + cells@.take(j + 1)).drop_last() == before + cells@.take(j as int));
            sep.feed(cells[j], &mut words);
            j = j + 1;
        }
        assert(track@.take(i + 1).drop_last() == track@.take(i as int));
        assert(before + cells@.take(j as int) == track_cells(track@.take(i + 1), cell_duration as int));
        i = i + 1;
    }
    assert(track@.take(i as int) == track@);
    words
}

/// The decoded MFM words of a track's pulse durations.
pub fn decode_mfm_track(track: &[u8], cell_duration: i32) -> (r: Vec<MfmWord>)
    requires
        0 < cell_duration <= 0x1000_0000,
    ensures
        r@ == dec_run(dec_init(), track_cells(track@, cell_duration as int)).1,
{
    let mut words: Vec<MfmWord> = Vec::new();
    let mut dec = MfmDecoder::new();
    let mut i: usize = 0;
    while i < track.len()
        invariant
            i <= track@.len(),
            0 < cell_duration <= 0x1000_0000,
            dec.wf(),
            dec.state() == dec_run(dec_init(), track_cells(track@.take(i as int), cell_duration as int)).0,
            words@ == dec_run(dec_init(), track_cells(track@.take(i as int), cell_duration as int)).1,
        decreases track@.len() - i,
    {
        let cells = pulse_to_cells(track[i], cell_duration);
        let ghost before = track_cells(track@.take(i as int), cell_duration as int);
        let mut j: usize = 0;
        while j < cells.len()
            invariant
                j <= cells@.len(),
                dec.wf(),
                dec.state() == dec_run(dec_init(), before + cells@.take(j as int)).0,
                words@ == dec_run(dec_init(), before + cells@.take(j as int)).1,
            decreases cells@.len() - j,
        {
            assert((before + cells@.take(j + 1)).drop_last() == before + cells@.take(j as int));
            dec.feed(cells[j], &mut words);
            j = j + 1;
        }
        assert(track@.take(i + 1).drop_last() == track@.take(i as int));
        assert(before + cells@.take(j as int) == track_cells(track@.take(i + 1), cell_duration as int));
        i = i + 1;
    }
    assert(track@.take(i as int) == track@);
    words
}

/// The decoded GCR results of a track's pulse durations.
pub fn decode_gcr_track(track: &[u8], cell_duration: i32) -> (r: Vec<GcrDecoderResult>)
    requires
        0 < cell_duration <= 0x1000_0000,
        track@.len() < 0x1000_0000,
    ensures
        r@ == gcr_run(gcr_init(), track_cells(track@, cell_duration as int)).1,
{
    let mut results: Vec<GcrDecoderResult> = Vec::new();
    let mut dec = GcrDecoder::new();
    let mut i: usize = 0;
    while i < track.len()
        invariant
            i <= track@.len(),
            track@.len() < 0x1000_0000,
            0 < cell_duration <= 0x1000_0000,
            dec.wf(),
            dec.state().ones <= i,
            dec.state() == gcr_run(gcr_init(), track_cells(track@.take(i as int), cell_duration as int)).0,
            results@ == gcr_run(gcr_init(), track_cells(track@.take(i as int), cell_duration as int)).1,
        decreases track@.len() - i,
    {
        let cells = pulse_to_cells(track[i], cell_duration);
        let ghost before = track_cells(track@.take(i as int), cell_duration as int);
        let mut j: usize = 0;
        while j < cells.len()
            invariant
                j <= cells@.len(),
                i < track@.len() < 0x1000_0000,
                cells@ == pulse_cells(track@[i as int] as int * 8, cell_duration as int),
                dec.wf(),
                dec.state().ones <= i + (if j == cells@.len() { 1int } else { 0int }),
                dec.state() == gcr_run(gcr_init(), before + cells@.take(j as int)).0,
                results@ == gcr_run(gcr_init(), before + cells@.take(j as int)).1,
            decreases cells@.len() - j,
        {
            assert((before + cells@.take(j + 1)).drop_last() == before + cells@.take(j as int));
            assert(cells@[j as int].0 <==> j == cells@.len() - 1);
            dec.feed(cells[j], &mut results);
            j = j + 1;
        }
        assert(track@.take(i + 1).drop_last() == track@.take(i as int));
        assert(before + cells@.take(j as int) == track_cells(track@.take(i + 1), cell_duration as int));
        i = i + 1;
    }
    assert(track@.take(i as int) == track@);
    results
}

} // verus!
