use vstd::prelude::*;

use crate::c64_geometry::{get_track_settings, spec_track_settings, TrackConfiguration};
use crate::bitstream::{byte_cells, msb_bit};
use crate::gcr::{
    code_cells, gcr_bytes, gcr_cells, gcr_encode_table, gcr_init, gcr_run, lemma_gcr_run_append,
    lemma_gcr_run_no_sync, lemma_gcr_sync_then_bytes, lemma_nibbles, lemma_ones_bound, no_sync, ones_after,
    GcrDecoderResult,
    GcrState,
};
use crate::image_d64::{
    d64_data_bytes, d64_header_bytes, d64_sector_cells, lemma_raw_run_len, raw_run, xor_bytes, ID1, ID2,
};
use crate::rawtrack::TrackFilter;
use crate::track_parser::{
    concatenate_sectors, decode_gcr_track, flatten_payloads, has_sector,
    sectors_view, sort_by_index, track_cells, CollectedSector, RotationTicks, TrackParseError,
    TrackParser, TrackPayload,
};
use crate::types::{Bit, Density};

verus! {

/// The byte at position `p` of the decoded results, if there is one.
pub open spec fn byte_at(r: Seq<GcrDecoderResult>, p: int) -> Option<u8> {
    if 0 <= p < r.len() {
        match r[p] {
            GcrDecoderResult::Byte(v) => Some(v),
            GcrDecoderResult::Sync => None,
        }
    } else {
        None
    }
}

/// The bytes read from position `p` on, at most `n`, up to the first result that is no byte.
pub open spec fn bytes_run(r: Seq<GcrDecoderResult>, p: int, n: nat) -> Seq<u8>
    decreases n,
{
    if n == 0 {
        Seq::empty()
    } else {
        match byte_at(r, p) {
            Some(v) => seq![v] + bytes_run(r, p + 1, (n - 1) as nat),
            None => Seq::empty(),
        }
    }
}

/// The number of results taken while reading [`bytes_run`]: the bytes, and the result that
/// stopped the run early, if any.
pub open spec fn run_consumed(r: Seq<GcrDecoderResult>, p: int, n: nat) -> nat
    decreases n,
{
    if n == 0 || p < 0 || p >= r.len() {
        0
    } else {
        match byte_at(r, p) {
            Some(_) => 1 + run_consumed(r, p + 1, (n - 1) as nat),
            None => 1,
        }
    }
}

/// A run never reads past the end.
pub proof fn lemma_run_consumed_bound(r: Seq<GcrDecoderResult>, p: int, n: nat)
    requires
        0 <= p <= r.len(),
    ensures
        p + run_consumed(r, p, n) <= r.len(),
        bytes_run(r, p, n).len() <= run_consumed(r, p, n),
        bytes_run(r, p, n).len() <= n,
    decreases n,
{
    if n > 0 && p < r.len() {
        if byte_at(r, p) is Some {
            lemma_run_consumed_bound(r, p + 1, (n - 1) as nat);
        }
    }
}

/// `d` cut or padded with zero bytes to 256 bytes.
pub open spec fn resize_256(d: Seq<u8>) -> Seq<u8> {
    if d.len() >= 256 {
        d.take(256)
    } else {
        d + Seq::new((256 - d.len()) as nat, |i: int| 0u8)
    }
}

/// How the search through a track ended.
#[derive(Clone, Copy, Debug, PartialEq, Eq, Structural)]
pub enum C64ScanEnd {
    /// All results were searched.
    Done,
    /// A valid header named another track.
    WrongTrack,
    /// A header or data block had no byte at all, or a checksum message would have needed a
    /// sector number that the header did not have.
    Malformed,
}

/// The search from position `pos` on: `awaiting` counts down the results after a new header
/// within which a data block is taken, `header` is the last header block read. After a sync,
/// a header block (`0x08`) holds five bytes whose exclusive or is zero; a data block
/// (`0x07`) holds 256 bytes and a checksum byte.
pub open spec fn c64_scan(
    r: Seq<GcrDecoderResult>,
    pos: int,
    awaiting: nat,
    header: Seq<u8>,
    collected: Seq<(u32, Seq<u8>)>,
    expected_track_number: u32,
) -> (C64ScanEnd, Seq<(u32, Seq<u8>)>)
    decreases r.len() - pos,
{
    if pos < 0 || pos >= r.len() {
        (C64ScanEnd::Done, collected)
    } else {
        let aw: nat = if awaiting > 0 {
            (awaiting - 1) as nat
        } else {
            0
        };
        if r[pos] is Sync && pos + 1 < r.len() {
            let block = r[pos + 1];
            proof {
                lemma_run_consumed_bound(r, pos + 2, 5);
                lemma_run_consumed_bound(r, pos + 2, 257);
            }
            if block == GcrDecoderResult::Byte(0x08) {
                let hdr = bytes_run(r, pos + 2, 5);
                let next = pos + 2 + run_consumed(r, pos + 2, 5);
                if hdr.len() == 0 {
                    (C64ScanEnd::Malformed, collected)
                } else if hdr.len() == 5 && xor_bytes(hdr) == 0 {
                    let aw2: nat = if !has_sector(collected, hdr[1] as u32) {
                        20
                    } else {
                        aw
                    };
                    if hdr[2] as u32 != expected_track_number {
                        (C64ScanEnd::WrongTrack, collected)
                    } else {
                        c64_scan(r, next, aw2, hdr, collected, expected_track_number)
                    }
                } else if hdr.len() < 2 {
                    (C64ScanEnd::Malformed, collected)
                } else {
                    c64_scan(r, next, aw, hdr, collected, expected_track_number)
                }
            } else if block == GcrDecoderResult::Byte(0x07) && aw > 0 {
                let data = bytes_run(r, pos + 2, 257);
                let next = pos + 2 + run_consumed(r, pos + 2, 257);
                if data.len() == 0 || header.len() < 2 {
                    (C64ScanEnd::Malformed, collected)
                } else if xor_bytes(data) == 0 {
                    c64_scan(
                        r,
                        next,
                        aw,
                        header,
                        collected.push((header[1] as u32, resize_256(data))),
                        expected_track_number,
                    )
                } else {
                    c64_scan(r, next, aw, header, collected, expected_track_number)
                }
            } else {
                c64_scan(r, pos + 2, aw, header, collected, expected_track_number)
            }
        } else {
            c64_scan(r, pos + 1, aw, header, collected, expected_track_number)
        }
    }
}

/// Reads the bytes of a block: at most `n`, up to the first result that is no byte.
fn read_block(results: &[GcrDecoderResult], pos: &mut usize, n: usize) -> (r: Vec<u8>)
    requires
        *old(pos) <= results@.len(),
    ensures
        r@ == bytes_run(results@, *old(pos) as int, n as nat),
        *final(pos) == *old(pos) + run_consumed(results@, *old(pos) as int, n as nat),
        *final(pos) <= results@.len(),
{
    let ghost r0 = results@;
    let ghost p0 = *pos as int;
    let mut out: Vec<u8> = Vec::new();
    let mut i: usize = 0;
    let mut stopped = false;
    while i < n && !stopped
        invariant
            i <= n,
            r0 == results@,
            *pos <= results@.len(),
            !stopped ==> *pos == p0 + i,
            !stopped ==> out@ + bytes_run(r0, *pos as int, (n - i) as nat) == bytes_run(r0, p0, n as nat),
            !stopped ==> i + run_consumed(r0, *pos as int, (n - i) as nat) == run_consumed(r0, p0, n as nat),
            stopped ==> out@ == bytes_run(r0, p0, n as nat),
            stopped ==> *pos == p0 + run_consumed(r0, p0, n as nat),
        decreases n - i, (if stopped { 0int } else { 1int }),
    {
        if *pos < results.len() {
            match &results[*pos] {
                GcrDecoderResult::Byte(v) => {
                    out.push(*v);
                    *pos = *pos + 1;
                    i = i + 1;
                    assert(out@ + bytes_run(r0, *pos as int, (n - i) as nat) =~= bytes_run(
                        r0,
                        p0,
                        n as nat,
                    ));
                },
                GcrDecoderResult::Sync => {
                    *pos = *pos + 1;
                    stopped = true;
                    assert(out@ =~= out@ + bytes_run(r0, *pos - 1, (n - i) as nat));
                },
            }
        } else {
            stopped = true;
            assert(out@ =~= out@ + bytes_run(r0, *pos as int, (n - i) as nat));
        }
    }
    if !stopped {
        assert(out@ =~= out@ + bytes_run(r0, *pos as int, 0));
    }
    out
}

/// The exclusive or of all bytes of `d`.
fn xor_all(d: &Vec<u8>) -> (r: u8)
    ensures
        r == xor_bytes(d@),
{
    let mut x: u8 = 0;
    let mut i: usize = 0;
    while i < d.len()
        invariant
            i <= d@.len(),
            x == xor_bytes(d@.take(i as int)),
        decreases d@.len() - i,
    {
        assert(d@.take(i + 1).drop_last() == d@.take(i as int));
        x = x ^ d[i];
        i = i + 1;
    }
    assert(d@.take(i as int) == d@);
    x
}

/// Reads Commodore 1541 tracks.
pub struct C64TrackParser {
    collected_sectors: Option<Vec<CollectedSector>>,
    track_config: Option<TrackConfiguration>,
    expected_track_number: Option<u32>,
}

impl C64TrackParser {
    /// The sectors collected so far for the expected track, if one is expected.
    pub closed spec fn collected(&self) -> Option<Seq<(u32, Seq<u8>)>> {
        match self.collected_sectors {
            Some(v) => Some(sectors_view(v@)),
            None => None,
        }
    }

    /// The 1541 track number (counted from 1) expected.
    pub closed spec fn expected_track(&self) -> Option<u32> {
        self.expected_track_number
    }

    /// The recording settings of the expected track.
    pub closed spec fn config(&self) -> Option<TrackConfiguration> {
        self.track_config
    }

    pub fn new() -> (r: Self)
        ensures
            r.collected() is None,
            r.expected_track() is None,
            r.config() is None,
    {
        C64TrackParser { collected_sectors: None, track_config: None, expected_track_number: None }
    }
}

impl TrackParser for C64TrackParser {
    open spec fn expecting(&self) -> bool {
        &&& self.collected() is Some
        &&& self.expected_track() matches Some(t)
        &&& 1 <= t <= 0x8000_0000
        &&& self.config() == Some(spec_track_settings(t as int))
    }

    open spec fn head_ok(&self, head: u32) -> bool {
        head == 0
    }

    /// Collects the sectors of the track, added to those collected before for the same
    /// track; returns them in order once all of the track's sectors are there.
    fn parse_raw_track(&mut self, track: &[u8]) -> (r: Result<TrackPayload, TrackParseError>)
        ensures
            ({
                let etn = old(self).expected_track().unwrap();
                let config = old(self).config().unwrap();
                let results = gcr_run(gcr_init(), track_cells(track@, config.cellsize as int)).1;
                let (end, found) = c64_scan(
                    results,
                    0,
                    0,
                    Seq::empty(),
                    old(self).collected().unwrap(),
                    etn,
                );
                &&& final(self).expected_track() == old(self).expected_track()
                &&& final(self).config() == old(self).config()
                &&& end == C64ScanEnd::WrongTrack ==> r == Err::<TrackPayload, TrackParseError>(
                    TrackParseError::WrongTrack,
                ) && final(self).collected() == Some(found)
                &&& end == C64ScanEnd::Malformed ==> r == Err::<TrackPayload, TrackParseError>(
                    TrackParseError::Malformed,
                ) && final(self).collected() == Some(found)
                &&& end == C64ScanEnd::Done && found.len() != config.sectors ==> r == Err::<
                    TrackPayload,
                    TrackParseError,
                >(TrackParseError::MissingSectors) && final(self).collected() == Some(found)
                &&& end == C64ScanEnd::Done && found.len() == config.sectors ==> {
                    &&& r matches Ok(t)
                    &&& t.cylinder == ((etn - 1) * 2) as u32
                    &&& t.head == 0
                    &&& t.payload@ == flatten_payloads(sort_by_index(found))
                    &&& final(self).collected() is None
                }
            }),
    {
        let expected_track_number = match self.expected_track_number {
            Some(t) => t,
            None => 1,
        };
        let track_config = match self.track_config {
            Some(c) => c,
            None => get_track_settings(1),
        };
        let results = decode_gcr_track(track, track_config.cellsize as i32);
        let ghost res = results@;
        let mut collected_sectors = match self.collected_sectors.take() {
            Some(v) => v,
            None => Vec::new(),
        };
        let ghost start = sectors_view(collected_sectors@);
        let ghost goal = c64_scan(res, 0, 0, Seq::empty(), start, expected_track_number);
        let mut awaiting_data_block: usize = 0;
        let mut sector_header: Vec<u8> = Vec::new();
        let mut pos: usize = 0;
        let mut end = C64ScanEnd::Done;
        while pos < results.len()
            invariant_except_break
                pos <= res.len(),
                res == results@,
                end == C64ScanEnd::Done,
                goal == c64_scan(
                    res,
                    pos as int,
                    awaiting_data_block as nat,
                    sector_header@,
                    sectors_view(collected_sectors@),
                    expected_track_number,
                ),
            ensures
                goal == (end, sectors_view(collected_sectors@)),
            decreases res.len() - pos,
        {
            let ghost pos0 = pos as int;
            let ghost col0 = sectors_view(collected_sectors@);
            let ghost hdr0 = sector_header@;
            if awaiting_data_block > 0 {
                awaiting_data_block = awaiting_data_block - 1;
            }
            let is_sync = match &results[pos] {
                GcrDecoderResult::Sync => true,
                GcrDecoderResult::Byte(_) => false,
            };
            pos = pos + 1;
            if is_sync && pos < results.len() {
                let block_type: u8 = match &results[pos] {
                    GcrDecoderResult::Byte(v) => *v,
                    GcrDecoderResult::Sync => 0,
                };
                let is_byte = match &results[pos] {
                    GcrDecoderResult::Byte(_) => true,
                    GcrDecoderResult::Sync => false,
                };
                pos = pos + 1;
                if is_byte && block_type == 0x08 {
                    let hdr = read_block(results.as_slice(), &mut pos, 5);
                    if hdr.len() == 0 {
                        end = C64ScanEnd::Malformed;
                        break;
                    }
                    let checksum = xor_all(&hdr);
                    if hdr.len() == 5 && checksum == 0 {
                        let ghost before = sectors_view(collected_sectors@);
                        let mut already = false;
                        let mut k: usize = 0;
                        while k < collected_sectors.len()
                            invariant
                                k <= collected_sectors@.len(),
                                hdr@.len() == 5,
                                before == sectors_view(collected_sectors@),
                                already <==> exists|j: int|
                                    0 <= j < k && (#[trigger] before[j]).0 == hdr@[1] as u32,
                            decreases collected_sectors@.len() - k,
                        {
                            assert(before[k as int].0 == collected_sectors@[k as int].index);
                            if collected_sectors[k].index == hdr[1] as u32 {
                                already = true;
                            }
                            k = k + 1;
                            assert(already <==> exists|j: int|
                                0 <= j < k && (#[trigger] before[j]).0 == hdr@[1] as u32) by {
                                if already && collected_sectors@[k - 1].index != hdr@[1] as u32 {
                                    let j = choose|j: int|
                                        0 <= j < k - 1 && (#[trigger] before[j]).0 == hdr@[1] as u32;
                                    assert(0 <= j < k && before[j].0 == hdr@[1] as u32);
                                }
                            }
                        }
                        assert(already == has_sector(before, hdr@[1] as u32));
                        if !already {
                            awaiting_data_block = 20;
                        }
                        if hdr[2] as u32 != expected_track_number {
                            end = C64ScanEnd::WrongTrack;
                            sector_header = hdr;
                            break;
                        }
                    } else if hdr.len() < 2 {
                        end = C64ScanEnd::Malformed;
                        break;
                    }
                    sector_header = hdr;
                } else if is_byte && block_type == 0x07 && awaiting_data_block > 0 {
                    let ghost p_data = pos as int;
                    let mut sector_data = read_block(results.as_slice(), &mut pos, 257);
                    let ghost d = sector_data@;
                    if sector_data.len() == 0 || sector_header.len() < 2 {
                        end = C64ScanEnd::Malformed;
                        break;
                    }
                    let checksum = xor_all(&sector_data);
                    if checksum == 0 {
                        sector_data.resize(256, 0);
                        proof {
                            if d.len() < 256 {
                                assert forall|i: int| d.len() <= i < 256 implies sector_data@[i]
                                    == 0u8 by {
                                    assert(cloned::<u8>(0u8, sector_data@[i]));
                                }
                            }
                            assert(sector_data@ =~= resize_256(d));
                        }
                        collected_sectors.push(
                            CollectedSector { index: sector_header[1] as u32, payload: sector_data },
                        );
                        assert(sectors_view(collected_sectors@) =~= col0.push(
                            (hdr0[1] as u32, resize_256(d)),
                        ));
                    }
                }
            }
        }
        if end != C64ScanEnd::Done {
            self.collected_sectors = Some(collected_sectors);
            return if end == C64ScanEnd::WrongTrack {
                Err(TrackParseError::WrongTrack)
            } else {
                Err(TrackParseError::Malformed)
            };
        }
        if collected_sectors.len() != track_config.sectors as usize {
            self.collected_sectors = Some(collected_sectors);
            return Err(TrackParseError::MissingSectors);
        }
        let etn_minus_one: u32 = expected_track_number - 1;
        assert((etn_minus_one << 1u32) == (etn_minus_one * 2) as u32) by (bit_vector)
            requires
                etn_minus_one < 0x8000_0000u32,
        ;
        Ok(concatenate_sectors(collected_sectors, (expected_track_number - 1) << 1, 0))
    }

    fn expect_track(&mut self, cylinder: u32, head: u32)
        ensures
            final(self).expected_track() == Some(((cylinder >> 1u32) + 1) as u32),
            final(self).config() == Some(spec_track_settings((cylinder >> 1u32) + 1)),
            final(self).collected() == Some(Seq::<(u32, Seq<u8>)>::empty()),
    {
        assert(cylinder >> 1u32 <= 0x7fff_ffffu32) by (bit_vector);
        let expected_track_number = (cylinder >> 1) + 1;
        let track_config = get_track_settings(expected_track_number as usize);
        self.track_config = Some(track_config);
        self.expected_track_number = Some(expected_track_number);
        self.collected_sectors = Some(Vec::new());
        assert(sectors_view(Seq::<CollectedSector>::empty()) =~= Seq::<(u32, Seq<u8>)>::empty());
    }

    fn step_size(&self) -> (r: usize)
        ensures
            r == 2,
    {
        2
    }

    fn track_density(&self) -> (r: Density)
        ensures
            r == Density::SingleDouble,
    {
        Density::SingleDouble
    }

    fn duration_to_record(&self, rotation: &RotationTicks) -> (r: usize)
        ensures
            r == rotation.inch5_25 * 110 / 100,
    {
        rotation.inch5_25 * 110 / 100
    }

    fn format_name(&self) -> (r: &'static str)
        ensures
            r == "C64 1541",
    {
        "C64 1541"
    }

    fn default_trackfilter(&self) -> (r: TrackFilter)
        ensures
            r == (TrackFilter { cyl_start: Some(0), cyl_end: Some(68), head: Some(0), is_range: true }),
    {
        TrackFilter { cyl_start: Some(0), cyl_end: Some(68), head: Some(0), is_range: true }
    }

    fn default_file_extension(&self) -> (r: &'static str)
        ensures
            r == "d64",
    {
        "d64"
    }
}

/// The results from `p` on, `n` of them, are bytes and no sync.
pub open spec fn all_bytes(r: Seq<GcrDecoderResult>, p: int, n: int) -> bool {
    forall|i: int| p <= i < p + n ==> #[trigger] r[i] is Byte
}

/// The results from `q` on are the bytes `v`.
pub open spec fn bytes_from(r: Seq<GcrDecoderResult>, q: int, v: Seq<u8>) -> bool {
    &&& 0 <= q
    &&& q + v.len() <= r.len()
    &&& forall|i: int| 0 <= i < v.len() ==> #[trigger] r[q + i] == GcrDecoderResult::Byte(v[i])
}

proof fn lemma_bytes_run_exact(r: Seq<GcrDecoderResult>, q: int, v: Seq<u8>)
    requires
        bytes_from(r, q, v),
    ensures
        bytes_run(r, q, v.len()) == v,
        run_consumed(r, q, v.len()) == v.len(),
    decreases v.len(),
{
    if v.len() > 0 {
        assert(r[q + 0] == GcrDecoderResult::Byte(v[0]));
        assert(byte_at(r, q) == Some(v[0]));
        let rest = v.drop_first();
        assert forall|i: int| 0 <= i < rest.len() implies #[trigger] r[(q + 1) + i] == GcrDecoderResult::Byte(rest[i]) by {
            assert(r[q + (i + 1)] == GcrDecoderResult::Byte(v[i + 1]));
        }
        lemma_bytes_run_exact(r, q + 1, rest);
        assert(seq![v[0]] + rest =~= v);
    }
}

proof fn lemma_scan_skips_bytes(
    r: Seq<GcrDecoderResult>,
    p: int,
    n: nat,
    aw: nat,
    header: Seq<u8>,
    collected: Seq<(u32, Seq<u8>)>,
    etn: u32,
)
    requires
        0 <= p,
        p + n <= r.len(),
        all_bytes(r, p, n as int),
    ensures
        c64_scan(r, p, aw, header, collected, etn) == c64_scan(
            r,
            p + n,
            if aw >= n {
                (aw - n) as nat
            } else {
                0
            },
            header,
            collected,
            etn,
        ),
    decreases n,
{
    if n > 0 {
        assert(r[p] is Byte);
        let aw1: nat = if aw > 0 {
            (aw - 1) as nat
        } else {
            0
        };
        lemma_scan_skips_bytes(r, p + 1, (n - 1) as nat, aw1, header, collected, etn);
    }
}

proof fn lemma_xor_check(chk_in: u8, s: u8, t: u8, a: u8, b: u8, x: u8)
    by (bit_vector)
    ensures
        chk_in == (s ^ t ^ b ^ a) ==> ((((0u8 ^ chk_in) ^ s) ^ t) ^ a) ^ b == 0u8,
        x ^ x == 0u8,
{
}

proof fn lemma_xor_bytes_push(v: Seq<u8>, x: u8)
    ensures
        xor_bytes(v.push(x)) == xor_bytes(v) ^ x,
{
    assert(v.push(x).drop_last() =~= v);
}

/// The scan takes a sector block by block: after bytes without a sync, a valid header of the
/// expected track for a sector not collected yet, then a data block within the window after
/// it whose checksum is valid, it has collected that sector with its 256 bytes.
pub proof fn lemma_sector_scanned(
    r: Seq<GcrDecoderResult>,
    p: int,
    aw: nat,
    header: Seq<u8>,
    collected: Seq<(u32, Seq<u8>)>,
    g1: nat,
    g2: nat,
    tracknum: u8,
    sector: u8,
    d: Seq<u8>,
)
    requires
        0 <= p,
        all_bytes(r, p, g1 as int),
        bytes_from(r, p + g1 + 1, d64_header_bytes(tracknum, sector)),
        r[p + g1] == GcrDecoderResult::Sync,
        all_bytes(r, p + g1 + 9, g2 as int),
        g2 <= 16,
        r[p + g1 + 9 + g2] == GcrDecoderResult::Sync,
        bytes_from(r, p + g1 + 9 + g2 + 1, d64_data_bytes(d)),
        d.len() == 256,
        !has_sector(collected, sector as u32),
    ensures
        c64_scan(r, p, aw, header, collected, tracknum as u32) == c64_scan(
            r,
            p + g1 + 9 + g2 + 259,
            (17 - g2) as nat,
            d64_header_bytes(tracknum, sector).subrange(1, 6),
            collected.push((sector as u32, d)),
            tracknum as u32,
        ),
{
    let etn = tracknum as u32;
    let q = p + g1;
    let hb = d64_header_bytes(tracknum, sector);
    let h = hb.subrange(1, 6);
    lemma_scan_skips_bytes(r, p, g1, aw, header, collected, etn);
    let aw0: nat = if aw >= g1 {
        (aw - g1) as nat
    } else {
        0
    };
    // the header block
    assert(r[q + 1] == GcrDecoderResult::Byte(0x08)) by {
        assert(r[(q + 1) + 0] == GcrDecoderResult::Byte(hb[0]));
    }
    assert forall|i: int| 0 <= i < h.len() implies #[trigger] r[(q + 2) + i] == GcrDecoderResult::Byte(h[i]) by {
        assert(r[(q + 1) + (i + 1)] == GcrDecoderResult::Byte(hb[i + 1]));
    }
    lemma_bytes_run_exact(r, q + 2, h);
    lemma_xor_check(h[0], sector, tracknum, ID2, ID1, 0);
    assert(h =~= seq![h[0], h[1], h[2], h[3]].push(h[4]));
    assert(seq![h[0], h[1], h[2], h[3]] =~= seq![h[0], h[1], h[2]].push(h[3]));
    assert(seq![h[0], h[1], h[2]] =~= seq![h[0], h[1]].push(h[2]));
    assert(seq![h[0], h[1]] =~= seq![h[0]].push(h[1]));
    assert(seq![h[0]] =~= Seq::<u8>::empty().push(h[0]));
    lemma_xor_bytes_push(Seq::<u8>::empty(), h[0]);
    lemma_xor_bytes_push(seq![h[0]], h[1]);
    lemma_xor_bytes_push(seq![h[0], h[1]], h[2]);
    lemma_xor_bytes_push(seq![h[0], h[1], h[2]], h[3]);
    lemma_xor_bytes_push(seq![h[0], h[1], h[2], h[3]], h[4]);
    assert(xor_bytes(Seq::<u8>::empty()) == 0u8);
    assert(xor_bytes(h) == 0u8);
    assert(h.len() == 5);
    assert(h[1] == sector);
    assert(h[2] == tracknum);
    assert(bytes_run(r, q + 2, 5) == h);
    assert(c64_scan(r, q, aw0, header, collected, etn) == c64_scan(r, q + 7, 20, h, collected, etn));
    // the two bytes that end the header block and the gap
    assert(all_bytes(r, q + 7, 2 + g2 as int)) by {
        assert forall|i: int| q + 7 <= i < q + 7 + (2 + g2) implies #[trigger] r[i] is Byte by {
            if i < q + 9 {
                assert(r[(q + 1) + (i - q - 1)] == GcrDecoderResult::Byte(hb[i - q - 1]));
            }
        }
    }
    lemma_scan_skips_bytes(r, q + 7, (2 + g2) as nat, 20, h, collected, etn);
    // the data block
    let q2 = q + 9 + g2;
    let db = d64_data_bytes(d);
    let dd = db.subrange(1, 258);
    assert(r[q2 + 1] == GcrDecoderResult::Byte(0x07)) by {
        assert(r[(q2 + 1) + 0] == GcrDecoderResult::Byte(db[0]));
    }
    assert forall|i: int| 0 <= i < dd.len() implies #[trigger] r[(q2 + 2) + i] == GcrDecoderResult::Byte(dd[i]) by {
        assert(r[(q2 + 1) + (i + 1)] == GcrDecoderResult::Byte(db[i + 1]));
    }
    lemma_bytes_run_exact(r, q2 + 2, dd);
    assert(dd =~= d.push(xor_bytes(d)));
    lemma_xor_bytes_push(d, xor_bytes(d));
    lemma_xor_check(0, 0, 0, 0, 0, xor_bytes(d));
    assert(xor_bytes(dd) == 0u8);
    assert(h[1] == sector);
    assert(resize_256(dd) =~= d);
}

proof fn lemma_sector_cell_bits()
    by (bit_vector)
    ensures
        ((0xffu8 >> 7u8) & 1u8) == 1u8 && ((0xffu8 >> 6u8) & 1u8) == 1u8 && ((0xffu8 >> 5u8) & 1u8)
            == 1u8 && ((0xffu8 >> 4u8) & 1u8) == 1u8,
        ((0xffu8 >> 3u8) & 1u8) == 1u8 && ((0xffu8 >> 2u8) & 1u8) == 1u8 && ((0xffu8 >> 1u8) & 1u8)
            == 1u8 && ((0xffu8 >> 0u8) & 1u8) == 1u8,
        ((0x55u8 >> 7u8) & 1u8) != 1u8 && ((0x55u8 >> 6u8) & 1u8) == 1u8 && ((0x55u8 >> 5u8) & 1u8)
            != 1u8 && ((0x55u8 >> 4u8) & 1u8) == 1u8,
        ((0x55u8 >> 3u8) & 1u8) != 1u8 && ((0x55u8 >> 2u8) & 1u8) == 1u8 && ((0x55u8 >> 1u8) & 1u8)
            != 1u8 && ((0x55u8 >> 0u8) & 1u8) == 1u8,
        (0x08u8 >> 4u8) == 0u8 && (0x07u8 >> 4u8) == 0u8,
        ((0b01010u8 >> 4u8) & 1u8) != 1u8,
{
}

/// Cell `i` of a run of raw bytes is cell `i % 8` of the byte.
proof fn lemma_raw_run_index(b: u8, n: nat, i: int)
    requires
        0 <= i < 8 * n,
    ensures
        raw_run(b, n)[i] == byte_cells(b)[i % 8],
    decreases n,
{
    lemma_raw_run_len(b, (n - 1) as nat);
    if i < 8 * (n - 1) {
        lemma_raw_run_index(b, (n - 1) as nat, i);
    } else {
        assert(i % 8 == i - 8 * (n - 1));
    }
}

/// The cells of a run of `0xff` bytes are all one cells.
proof fn lemma_ones_run(n: nat)
    ensures
        forall|k: int| 0 <= k < raw_run(0xff, n).len() ==> (#[trigger] raw_run(0xff, n)[k]).0,
{
    lemma_raw_run_len(0xff, n);
    lemma_sector_cell_bits();
    assert forall|k: int| 0 <= k < raw_run(0xff, n).len() implies (#[trigger] raw_run(0xff, n)[k]).0 by {
        lemma_raw_run_index(0xff, n, k);
        let j = k % 8;
        assert(byte_cells(0xff)[j].0 == msb_bit(0xff, j));
        assert(0 <= j < 8);
        if j == 0 {} else if j == 1 {} else if j == 2 {} else if j == 3 {} else if j == 4 {} else if j == 5 {} else if j == 6 {} else {}
    }
}

/// The cells of a run of `0x55` bytes alternate, starting with a zero cell.
proof fn lemma_gap_run(n: nat)
    ensures
        forall|k: int| 0 <= k < raw_run(0x55, n).len() ==> (#[trigger] raw_run(0x55, n)[k]).0 == (k % 2 == 1),
{
    lemma_raw_run_len(0x55, n);
    lemma_sector_cell_bits();
    assert forall|k: int| 0 <= k < raw_run(0x55, n).len() implies (#[trigger] raw_run(0x55, n)[k]).0 == (k % 2 == 1) by {
        lemma_raw_run_index(0x55, n, k);
        let j = k % 8;
        assert(byte_cells(0x55)[j].0 == msb_bit(0x55, j));
        assert(k % 2 == j % 2);
        if j == 0 {} else if j == 1 {} else if j == 2 {} else if j == 3 {} else if j == 4 {} else if j == 5 {} else if j == 6 {} else {}
    }
}

proof fn lemma_ones_after_ones(r0: nat, x: Seq<Bit>)
    requires
        forall|k: int| 0 <= k < x.len() ==> (#[trigger] x[k]).0,
    ensures
        ones_after(r0, x) == r0 + x.len(),
    decreases x.len(),
{
    if x.len() > 0 {
        let pre = x.drop_last();
        assert forall|k: int| 0 <= k < pre.len() implies (#[trigger] pre[k]).0 by {
            assert(pre[k] == x[k]);
        }
        lemma_ones_after_ones(r0, pre);
        assert(x.last() == x[x.len() - 1]);
    }
}

/// A gap of `0x55` bytes read in sync at a word boundary brings bytes and no sync, and
/// ends at a word boundary again, with at most one one cell counted.
proof fn lemma_gap_decodes(s: GcrState, n: nat)
    requires
        s.synced,
        s.pending.len() == 0,
        s.ones <= 4,
    ensures
        no_sync(gcr_run(s, raw_run(0x55, n)).1),
        gcr_run(s, raw_run(0x55, n)).1.len() == (8 * n) / 10,
        gcr_run(s, raw_run(0x55, n)).0.synced,
        gcr_run(s, raw_run(0x55, n)).0.pending.len() == (8 * n) % 10,
        n > 0 ==> gcr_run(s, raw_run(0x55, n)).0.ones <= 1,
{
    let x = raw_run(0x55, n);
    lemma_raw_run_len(0x55, n);
    lemma_gap_run(n);
    assert forall|k: int| 0 <= k < x.len() && !(#[trigger] x[k]).0 implies ones_after(s.ones, x.take(k)) < 10 by {
        if k == 0 {
            assert(x.take(0) =~= Seq::<Bit>::empty());
        } else {
            assert(k % 2 == 0);
            assert(k >= 2);
            assert(!x[k - 2].0);
            lemma_ones_bound(s.ones, x, k, k - 2);
        }
    }
    lemma_gcr_run_no_sync(s, x);
    if n > 0 {
        assert(!x[x.len() - 2].0);
        lemma_ones_bound(s.ones, x, x.len() as int, x.len() - 2);
        assert(x.take(x.len() as int) =~= x);
    }
}

/// The results of decoding a sector written by the disk image writer, from wherever the
/// decoder was: some bytes, the sync and the header block, eight bytes of gap and sync, the
/// second sync and the data block.
proof fn lemma_sector_decodes(s: GcrState, tracknum: u8, sector: u8, d: Seq<u8>, gap: nat) -> (g1: nat)
    requires
        s.pending.len() < 10,
        d.len() == 256,
    ensures
        ({
            let r = gcr_run(s, d64_sector_cells(tracknum, sector, d, gap)).1;
            &&& all_bytes(r, 0, g1 as int)
            &&& r[g1 as int] == GcrDecoderResult::Sync
            &&& bytes_from(r, g1 as int + 1, d64_header_bytes(tracknum, sector))
            &&& all_bytes(r, g1 as int + 9, 8)
            &&& r[g1 as int + 17] == GcrDecoderResult::Sync
            &&& bytes_from(r, g1 as int + 18, d64_data_bytes(d))
        }),
{
    let hb = d64_header_bytes(tracknum, sector);
    let db = d64_data_bytes(d);
    let x1 = raw_run(0xff, 5);
    let x2 = gcr_bytes(hb);
    let x3 = raw_run(0x55, 5);
    let x4 = raw_run(0xff, 5);
    let x5 = gcr_bytes(db);
    let x6 = raw_run(0x55, gap);
    lemma_sector_cell_bits();
    lemma_raw_run_len(0xff, 5);
    // the first sync run
    lemma_ones_run(5);
    lemma_gcr_run_no_sync(s, x1);
    lemma_ones_after_ones(s.ones, x1);
    let st1 = gcr_run(s, x1);
    // the header block
    lemma_nibbles(0x08);
    assert(gcr_cells(hb[0])[0] == code_cells(gcr_encode_table()[0])[0]);
    lemma_gcr_sync_then_bytes(st1.0, hb);
    let st2 = gcr_run(st1.0, x2);
    // the gap and the second sync run
    lemma_gap_decodes(st2.0, 5);
    let st3 = gcr_run(st2.0, x3);
    lemma_gcr_run_no_sync(st3.0, x4);
    lemma_ones_after_ones(st3.0.ones, x4);
    let st4 = gcr_run(st3.0, x4);
    // the data block
    assert(db[0] == 0x07u8);
    lemma_nibbles(0x07);
    assert(gcr_cells(db[0])[0] == code_cells(gcr_encode_table()[0])[0]);
    lemma_gcr_sync_then_bytes(st4.0, db);
    let st5 = gcr_run(st4.0, x5);
    let st6 = gcr_run(st5.0, x6);
    // the results one after the other
    lemma_gcr_run_append(s, x1, x2);
    lemma_gcr_run_append(s, x1 + x2, x3);
    lemma_gcr_run_append(s, x1 + x2 + x3, x4);
    lemma_gcr_run_append(s, x1 + x2 + x3 + x4, x5);
    lemma_gcr_run_append(s, x1 + x2 + x3 + x4 + x5, x6);
    let r = gcr_run(s, d64_sector_cells(tracknum, sector, d, gap)).1;
    assert(r == st1.1 + st2.1 + st3.1 + st4.1 + st5.1 + st6.1);
    let g1 = st1.1.len();
    assert(st2.1.len() == 9);
    assert(st3.1.len() == 4);
    assert(st4.1.len() == 4);
    assert forall|i: int| 0 <= i < g1 implies #[trigger] r[i] is Byte by {
        assert(r[i] == st1.1[i]);
    }
    assert(r[g1 as int] == st2.1[0]);
    assert forall|i: int| 0 <= i < hb.len() implies #[trigger] r[(g1 + 1) + i] == GcrDecoderResult::Byte(hb[i]) by {
        assert(r[(g1 + 1) + i] == st2.1[1 + i]);
    }
    assert forall|i: int| g1 + 9 <= i < g1 + 9 + 8 implies #[trigger] r[i] is Byte by {
        if i < g1 + 13 {
            assert(r[i] == st3.1[i - g1 - 9]);
        } else {
            assert(r[i] == st4.1[i - g1 - 13]);
        }
    }
    assert(r[g1 as int + 17] == st5.1[0]);
    assert forall|i: int| 0 <= i < db.len() implies #[trigger] r[(g1 + 18) + i] == GcrDecoderResult::Byte(db[i]) by {
        assert(r[(g1 + 18) + i] == st5.1[1 + i]);
    }
    g1
}

/// A sector that the disk image writer wrote is read back by the scan: whatever state the
/// decoder was in when its cells began, scanning their decoded results collects the sector
/// with its 256 bytes, provided it is of the expected track and was not collected before.
pub proof fn lemma_c64_sector_reads_back(
    s: GcrState,
    tracknum: u8,
    sector: u8,
    d: Seq<u8>,
    gap: nat,
    aw: nat,
    header: Seq<u8>,
    collected: Seq<(u32, Seq<u8>)>,
)
    requires
        s.pending.len() < 10,
        d.len() == 256,
        !has_sector(collected, sector as u32),
    ensures
        exists|g1: nat|
            c64_scan(gcr_run(s, d64_sector_cells(tracknum, sector, d, gap)).1, 0, aw, header, collected, tracknum as u32)
                == #[trigger] c64_scan(
                gcr_run(s, d64_sector_cells(tracknum, sector, d, gap)).1,
                g1 as int + 276,
                9,
                d64_header_bytes(tracknum, sector).subrange(1, 6),
                collected.push((sector as u32, d)),
                tracknum as u32,
            ),
{
    let r = gcr_run(s, d64_sector_cells(tracknum, sector, d, gap)).1;
    let g1 = lemma_sector_decodes(s, tracknum, sector, d, gap);
    lemma_sector_scanned(r, 0, aw, header, collected, g1, 8, tracknum, sector, d);
    assert(c64_scan(r, 0, aw, header, collected, tracknum as u32) == c64_scan(
        r,
        g1 as int + 276,
        9,
        d64_header_bytes(tracknum, sector).subrange(1, 6),
        collected.push((sector as u32, d)),
        tracknum as u32,
    ));
}

} // verus!
