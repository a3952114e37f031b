use vstd::prelude::*;

use crate::crc::{crc16_ccitt, crc16_ccitt_false};
use crate::mfm::{dec_init, dec_run, MfmWord};
use crate::rawtrack::TrackFilter;
use crate::track_parser::{
    concatenate_sectors, decode_mfm_track, flatten_payloads, has_sector,
    sectors_view, sort_by_index, track_cells, CollectedSector, RotationTicks, TrackParseError,
    TrackParser, TrackPayload,
};
use crate::types::{Density, DiskType};

verus! {

/// The data byte at position `p` of the decoded words, if there is one.
pub open spec fn enc_at(w: Seq<MfmWord>, p: int) -> Option<u8> {
    if 0 <= p < w.len() {
        match w[p] {
            MfmWord::Enc(v) => Some(v),
            MfmWord::SyncWord => None,
        }
    } else {
        None
    }
}

/// The data bytes among the `n` words from `p` on; sync words among them are skipped.
pub open spec fn enc_values(w: Seq<MfmWord>, p: int, n: nat) -> Seq<u8>
    decreases n,
{
    if n == 0 || p < 0 || p >= w.len() {
        Seq::empty()
    } else {
        match enc_at(w, p) {
            Some(v) => seq![v] + enc_values(w, p + 1, (n - 1) as nat),
            None => enc_values(w, p + 1, (n - 1) as nat),
        }
    }
}

/// The data bytes from `p` on, at most `n`, up to the first word that is no data byte.
pub open spec fn enc_run(w: Seq<MfmWord>, p: int, n: nat) -> Seq<u8>
    decreases n,
{
    if n == 0 {
        Seq::empty()
    } else {
        match enc_at(w, p) {
            Some(v) => seq![v] + enc_run(w, p + 1, (n - 1) as nat),
            None => Seq::empty(),
        }
    }
}

/// The number of words taken while reading [`enc_run`]: the bytes, and the word that stopped
/// the run early, if any.
pub open spec fn enc_run_consumed(w: Seq<MfmWord>, p: int, n: nat) -> nat
    decreases n,
{
    if n == 0 || p < 0 || p >= w.len() {
        0
    } else {
        match enc_at(w, p) {
            Some(_) => 1 + enc_run_consumed(w, p + 1, (n - 1) as nat),
            None => 1,
        }
    }
}

pub proof fn lemma_enc_run_bound(w: Seq<MfmWord>, p: int, n: nat)
    requires
        0 <= p <= w.len(),
    ensures
        p + enc_run_consumed(w, p, n) <= w.len(),
        enc_run(w, p, n).len() <= n,
    decreases n,
{
    if n > 0 && p < w.len() {
        if enc_at(w, p) is Some {
            lemma_enc_run_bound(w, p + 1, (n - 1) as nat);
        }
    }
}

/// `d` cut or padded with zero bytes to `size` bytes.
pub open spec fn resize_to(d: Seq<u8>, size: nat) -> Seq<u8> {
    if d.len() >= size {
        d.take(size as int)
    } else {
        d + Seq::new((size - d.len()) as nat, |i: int| 0u8)
    }
}

/// The bytes that the checksum of a sector header covers before the header itself.
pub open spec fn idam_prefix() -> Seq<u8> {
    seq![0xa1u8, 0xa1u8, 0xa1u8, 0xfeu8]
}

/// The bytes that the checksum of a sector's data covers before the data itself.
pub open spec fn dam_prefix() -> Seq<u8> {
    seq![0xa1u8, 0xa1u8, 0xa1u8, 0xfbu8]
}

/// How the search through a track ended.
#[derive(Clone, Copy, Debug, PartialEq, Eq, Structural)]
pub enum IsoScanEnd {
    /// All words were searched, or all expected sectors were found.
    Done,
    /// A valid header named another cylinder or head.
    WrongTrack,
    /// A valid header too short to name a sector, or a data block behind a header without a
    /// usable size code (at most 15).
    Malformed,
}

/// The state of the search through the words of a track.
pub struct IsoScan {
    /// Words after a new header within which a data block is taken.
    pub awaiting: nat,
    /// The last sector header read.
    pub header: Seq<u8>,
    /// Valid headers of sectors that had been collected already.
    pub duplicates: nat,
    pub collected: Seq<(u32, Seq<u8>)>,
}

/// The search from position `pos` on. After three syncs, an id address mark (`0xfe`) starts
/// six header bytes (cylinder, head, sector, size code and checksum), a data address mark
/// (`0xfb`) within 40 words after a new valid header starts `128 << size` data bytes and
/// their checksum.
pub open spec fn iso_scan(
    w: Seq<MfmWord>,
    pos: int,
    s: IsoScan,
    cylinder: u32,
    head: u32,
    expected_sectors: Option<usize>,
) -> (IsoScanEnd, IsoScan)
    decreases w.len() - pos,
{
    if pos < 0 || pos >= w.len() {
        (IsoScanEnd::Done, s)
    } else {
        let aw: nat = if s.awaiting > 0 {
            (s.awaiting - 1) as nat
        } else {
            0
        };
        if w[pos] is SyncWord && pos + 1 < w.len() {
            let mark = w[pos + 1];
            proof {
                lemma_enc_run_bound(w, pos + 2, 2);
            }
            if mark == MfmWord::Enc(0xfe) {
                let hdr = enc_values(w, pos + 2, 6);
                let next = if pos + 8 < w.len() {
                    pos + 8
                } else {
                    w.len() as int
                };
                if crc16_ccitt_false(idam_prefix() + hdr) == 0 {
                    if hdr.len() < 3 {
                        (IsoScanEnd::Malformed, IsoScan { awaiting: aw, ..s })
                    } else {
                        let fresh = !has_sector(s.collected, hdr[2] as u32);
                        let s2 = IsoScan {
                            awaiting: if fresh {
                                40
                            } else {
                                aw
                            },
                            header: hdr,
                            duplicates: if fresh {
                                s.duplicates
                            } else {
                                s.duplicates + 1
                            },
                            collected: s.collected,
                        };
                        if hdr[0] as u32 != cylinder || hdr[1] as u32 != head {
                            (IsoScanEnd::WrongTrack, s2)
                        } else {
                            iso_scan(w, next, s2, cylinder, head, expected_sectors)
                        }
                    }
                } else {
                    iso_scan(
                        w,
                        next,
                        IsoScan { awaiting: aw, header: hdr, ..s },
                        cylinder,
                        head,
                        expected_sectors,
                    )
                }
            } else if mark == MfmWord::Enc(0xfb) && aw > 0 {
                if s.header.len() < 4 || s.header[3] > 15 {
                    (IsoScanEnd::Malformed, IsoScan { awaiting: aw, ..s })
                } else {
                    let size: nat = (128 * pow2_u8(s.header[3])) as nat;
                    let data = enc_run(w, pos + 2, size + 2);
                    let next = pos + 2 + enc_run_consumed(w, pos + 2, size + 2);
                    proof {
                        lemma_enc_run_bound(w, pos + 2, size + 2);
                    }
                    if crc16_ccitt_false(dam_prefix() + data) == 0 {
                        let collected = s.collected.push((s.header[2] as u32, resize_to(data, size)));
                        let s2 = IsoScan { awaiting: aw, collected, ..s };
                        if expected_sectors == Some(collected.len() as usize) {
                            (IsoScanEnd::Done, s2)
                        } else {
                            iso_scan(w, next, s2, cylinder, head, expected_sectors)
                        }
                    } else {
                        iso_scan(w, next, IsoScan { awaiting: aw, ..s }, cylinder, head, expected_sectors)
                    }
                }
            } else {
                iso_scan(w, pos + 2, IsoScan { awaiting: aw, ..s }, cylinder, head, expected_sectors)
            }
        } else {
            iso_scan(w, pos + 1, IsoScan { awaiting: aw, ..s }, cylinder, head, expected_sectors)
        }
    }
}

/// Two to the power of `e`.
pub open spec fn pow2_u8(e: u8) -> int
    decreases e,
{
    if e == 0 {
        1
    } else {
        2 * pow2_u8((e - 1) as u8)
    }
}

/// Reads the data bytes among the next `n` words, skipping sync words.
fn read_values(words: &[MfmWord], pos: &mut usize, n: usize) -> (r: Vec<u8>)
    requires
        *old(pos) <= words@.len(),
    ensures
        r@ == enc_values(words@, *old(pos) as int, n as nat),
        *final(pos) == (if *old(pos) + n < words@.len() {
            *old(pos) + n
        } else {
            words@.len() as int
        }),
{
    let ghost w = words@;
    let ghost p0 = *pos as int;
    let mut out: Vec<u8> = Vec::new();
    let mut i: usize = 0;
    while i < n && *pos < words.len()
        invariant
            i <= n,
            w == words@,
            *pos == p0 + i,
            *pos <= w.len(),
            out@ + enc_values(w, *pos as int, (n - i) as nat) == enc_values(w, p0, n as nat),
        decreases n - i,
    {
        match &words[*pos] {
            MfmWord::Enc(v) => {
                out.push(*v);
            },
            MfmWord::SyncWord => {},
        }
        *pos = *pos + 1;
        i = i + 1;
        assert(out@ + enc_values(w, *pos as int, (n - i) as nat) =~= enc_values(w, p0, n as nat));
    }
    assert(out@ =~= out@ + enc_values(w, *pos as int, (n - i) as nat));
    out
}

/// Reads at most `n` data bytes, up to the first word that is no data byte.
fn read_run(words: &[MfmWord], pos: &mut usize, n: usize) -> (r: Vec<u8>)
    requires
        *old(pos) <= words@.len(),
    ensures
        r@ == enc_run(words@, *old(pos) as int, n as nat),
        *final(pos) == *old(pos) + enc_run_consumed(words@, *old(pos) as int, n as nat),
        *final(pos) <= words@.len(),
{
    proof {
        lemma_enc_run_bound(words@, *old(pos) as int, n as nat);
    }
    let ghost w = words@;
    let ghost p0 = *pos as int;
    let mut out: Vec<u8> = Vec::new();
    let mut i: usize = 0;
    let mut stopped = false;
    while i < n && !stopped
        invariant
            i <= n,
            w == words@,
            *pos <= w.len(),
            !stopped ==> *pos == p0 + i,
            !stopped ==> out@ + enc_run(w, *pos as int, (n - i) as nat) == enc_run(w, p0, n as nat),
            !stopped ==> i + enc_run_consumed(w, *pos as int, (n - i) as nat) == enc_run_consumed(
                w,
                p0,
                n as nat,
            ),
            stopped ==> out@ == enc_run(w, p0, n as nat),
            stopped ==> *pos == p0 + enc_run_consumed(w, p0, n as nat),
        decreases n - i, (if stopped { 0int } else { 1int }),
    {
        if *pos < words.len() {
            match &words[*pos] {
                MfmWord::Enc(v) => {
                    out.push(*v);
                    *pos = *pos + 1;
                    i = i + 1;
                    assert(out@ + enc_run(w, *pos as int, (n - i) as nat) =~= enc_run(
                        w,
                        p0,
                        n as nat,
                    ));
                },
                MfmWord::SyncWord => {
                    *pos = *pos + 1;
                    stopped = true;
                    assert(out@ =~= out@ + enc_run(w, *pos - 1, (n - i) as nat));
                },
            }
        } else {
            stopped = true;
            assert(out@ =~= out@ + enc_run(w, *pos as int, (n - i) as nat));
        }
    }
    if !stopped {
        assert(out@ =~= out@ + enc_run(w, *pos as int, 0));
    }
    out
}

/// The checksum of `prefix` followed by `data`.
fn crc_with_prefix(prefix: u8, data: &Vec<u8>) -> (r: u16)
    ensures
        r == crc16_ccitt_false(seq![0xa1u8, 0xa1u8, 0xa1u8, prefix] + data@),
{
    let mut covered: Vec<u8> = Vec::new();
    covered.push(0xa1);
    covered.push(0xa1);
    covered.push(0xa1);
    covered.push(prefix);
    let ghost head = covered@;
    let mut i: usize = 0;
    while i < data.len()
        invariant
            i <= data@.len(),
            head == seq![0xa1u8, 0xa1u8, 0xa1u8, prefix],
            covered@ == head + data@.take(i as int),
        decreases data@.len() - i,
    {
        covered.push(data[i]);
        i = i + 1;
        assert(covered@ =~= head + data@.take(i as int));
    }
    assert(data@.take(i as int) == data@);
    crc16_ccitt(covered.as_slice())
}

/// Reads ISO tracks, as written by PCs and the Atari ST.
pub struct IsoTrackParser {
    collected_sectors: Option<Vec<CollectedSector>>,
    expected_sectors_per_track: Option<usize>,
    expected_cylinder: Option<u32>,
    expected_head: Option<u32>,
    density: Density,
    assumed_disk_type: Option<DiskType>,
}

/// The cell size of a density, in timer ticks.
pub open spec fn iso_cellsize(density: Density) -> i32 {
    match density {
        Density::High => 84,
        Density::SingleDouble => 168,
    }
}

impl IsoTrackParser {
    pub closed spec fn collected(&self) -> Option<Seq<(u32, Seq<u8>)>> {
        match self.collected_sectors {
            Some(v) => Some(sectors_view(v@)),
            None => None,
        }
    }

    pub closed spec fn expected_sectors(&self) -> Option<usize> {
        self.expected_sectors_per_track
    }

    pub closed spec fn expected_cylinder(&self) -> Option<u32> {
        self.expected_cylinder
    }

    pub closed spec fn expected_head(&self) -> Option<u32> {
        self.expected_head
    }

    pub closed spec fn density(&self) -> Density {
        self.density
    }

    /// The drive assumed after the first track: many repeated headers mean a 5.25 inch drive,
    /// which turns slower and sees its track go by more often.
    pub closed spec fn assumed_disk_type(&self) -> Option<DiskType> {
        self.assumed_disk_type
    }

    /// A parser for `density`; without `expected_sectors_per_track`, the first track read
    /// decides it.
    pub fn new(expected_sectors_per_track: Option<usize>, density: Density) -> (r: Self)
        ensures
            r.collected() is None,
            r.expected_sectors() == expected_sectors_per_track,
            r.expected_cylinder() is None,
            r.expected_head() is None,
            r.density() == density,
            r.assumed_disk_type() is None,
    {
        IsoTrackParser {
            collected_sectors: None,
            expected_sectors_per_track,
            expected_cylinder: None,
            expected_head: None,
            density,
            assumed_disk_type: None,
        }
    }
}

impl TrackParser for IsoTrackParser {
    open spec fn expecting(&self) -> bool {
        &&& self.collected() is Some
        &&& self.expected_cylinder() is Some
        &&& self.expected_head() is Some
    }

    open spec fn head_ok(&self, head: u32) -> bool {
        true
    }

    /// Collects the sectors of the track, added to those collected before for the same
    /// track; the first successful track fixes the number of sectors and the assumed drive.
    fn parse_raw_track(&mut self, track: &[u8]) -> (r: Result<TrackPayload, TrackParseError>)
        ensures
            ({
                let cyl = old(self).expected_cylinder().unwrap();
                let hd = old(self).expected_head().unwrap();
                let words = dec_run(dec_init(), track_cells(track@, iso_cellsize(old(self).density()) as int)).1;
                let start = IsoScan {
                    awaiting: 0,
                    header: Seq::empty(),
                    duplicates: 0,
                    collected: old(self).collected().unwrap(),
                };
                let (end, s) = iso_scan(words, 0, start, cyl, hd, old(self).expected_sectors());
                let found = s.collected;
                let assumed = match old(self).assumed_disk_type() {
                    Some(t) => t,
                    None => if s.duplicates > 5 {
                        DiskType::Inch5_25
                    } else {
                        DiskType::Inch3_5
                    },
                };
                &&& final(self).expected_cylinder() == old(self).expected_cylinder()
                &&& final(self).expected_head() == old(self).expected_head()
                &&& final(self).density() == old(self).density()
                &&& end == IsoScanEnd::WrongTrack ==> {
                    &&& r == Err::<TrackPayload, TrackParseError>(TrackParseError::WrongTrack)
                    &&& final(self).collected() == Some(found)
                    &&& final(self).assumed_disk_type() == old(self).assumed_disk_type()
                    &&& final(self).expected_sectors() == old(self).expected_sectors()
                }
                &&& end == IsoScanEnd::Malformed ==> {
                    &&& r == Err::<TrackPayload, TrackParseError>(TrackParseError::Malformed)
                    &&& final(self).collected() == Some(found)
                    &&& final(self).assumed_disk_type() == old(self).assumed_disk_type()
                    &&& final(self).expected_sectors() == old(self).expected_sectors()
                }
                &&& end == IsoScanEnd::Done && found.len() == 0 ==> {
                    &&& r == Err::<TrackPayload, TrackParseError>(TrackParseError::MissingSectors)
                    &&& final(self).collected() == Some(found)
                    &&& final(self).assumed_disk_type() == old(self).assumed_disk_type()
                    &&& final(self).expected_sectors() == old(self).expected_sectors()
                }
                &&& end == IsoScanEnd::Done && found.len() > 0 ==> {
                    &&& final(self).assumed_disk_type() == Some(assumed)
                    &&& (old(self).expected_sectors() matches Some(n) && n != found.len()) ==> {
                        &&& r == Err::<TrackPayload, TrackParseError>(
                            TrackParseError::MissingSectors,
                        )
                        &&& final(self).collected() == Some(found)
                        &&& final(self).expected_sectors() == old(self).expected_sectors()
                    }
                    &&& !(old(self).expected_sectors() matches Some(n) && n != found.len()) ==> {
                        &&& r matches Ok(t)
                        &&& t.cylinder == cyl
                        &&& t.head == hd
                        &&& t.payload@ == flatten_payloads(sort_by_index(found))
                        &&& final(self).collected() is None
                        &&& final(self).expected_sectors() == Some(found.len() as usize)
                    }
                }
                // once a track read fixed the number of sectors, every later track is read
                // only with exactly that number of sectors
                &&& r is Ok ==> {
                    &&& final(self).expected_sectors() == Some(found.len() as usize)
                    &&& (old(self).expected_sectors() matches Some(n) ==> n == found.len())
                }
            }),
    {
        let expected_cylinder = match self.expected_cylinder {
            Some(c) => c,
            None => 0,
        };
        let expected_head = match self.expected_head {
            Some(h) => h,
            None => 0,
        };
        let cellsize: i32 = match self.density {
            Density::High => 84,
            Density::SingleDouble => 168,
        };
        let words = decode_mfm_track(track, cellsize);
        let ghost w = words@;
        let mut collected_sectors = match self.collected_sectors.take() {
            Some(v) => v,
            None => Vec::new(),
        };
        let expected_sectors = self.expected_sectors_per_track;
        let ghost start = IsoScan {
            awaiting: 0,
            header: Seq::empty(),
            duplicates: 0,
            collected: sectors_view(collected_sectors@),
        };
        let ghost goal = iso_scan(w, 0, start, expected_cylinder, expected_head, expected_sectors);
        let mut awaiting_dam: usize = 0;
        let mut sector_header: Vec<u8> = Vec::new();
        let mut duplicates: usize = 0;
        let mut pos: usize = 0;
        let mut end = IsoScanEnd::Done;
        while pos < words.len()
            invariant_except_break
                pos <= w.len(),
                w == words@,
                end == IsoScanEnd::Done,
                duplicates <= pos,
                goal == iso_scan(
                    w,
                    pos as int,
                    IsoScan {
                        awaiting: awaiting_dam as nat,
                        header: sector_header@,
                        duplicates: duplicates as nat,
                        collected: sectors_view(collected_sectors@),
                    },
                    expected_cylinder,
                    expected_head,
                    expected_sectors,
                ),
            ensures
                goal == (
                    end,
                    IsoScan {
                        awaiting: awaiting_dam as nat,
                        header: sector_header@,
                        duplicates: duplicates as nat,
                        collected: sectors_view(collected_sectors@),
                    },
                ),
            decreases w.len() - pos,
        {
            let ghost col0 = sectors_view(collected_sectors@);
            let ghost hdr0 = sector_header@;
            if awaiting_dam > 0 {
                awaiting_dam = awaiting_dam - 1;
            }
            let is_sync = match &words[pos] {
                MfmWord::SyncWord => true,
                MfmWord::Enc(_) => false,
            };
            pos = pos + 1;
            if is_sync && pos < words.len() {
                let mark: u8 = match &words[pos] {
                    MfmWord::Enc(v) => *v,
                    MfmWord::SyncWord => 0,
                };
                let is_enc = match &words[pos] {
                    MfmWord::Enc(_) => true,
                    MfmWord::SyncWord => false,
                };
                pos = pos + 1;
                if is_enc && mark == 0xfe {
                    let hdr = read_values(words.as_slice(), &mut pos, 6);
                    let crc = crc_with_prefix(0xfe, &hdr);
                    if crc == 0 {
                        if hdr.len() < 3 {
                            end = IsoScanEnd::Malformed;
                            break;
                        }
                        let ghost before = sectors_view(collected_sectors@);
                        let mut already = false;
                        let mut k: usize = 0;
                        while k < collected_sectors.len()
                            invariant
                                k <= collected_sectors@.len(),
                                hdr@.len() >= 3,
                                before == sectors_view(collected_sectors@),
                                already <==> exists|j: int|
                                    0 <= j < k && (#[trigger] before[j]).0 == hdr@[2] as u32,
                            decreases collected_sectors@.len() - k,
                        {
                            assert(before[k as int].0 == collected_sectors@[k as int].index);
                            if collected_sectors[k].index == hdr[2] as u32 {
                                already = true;
                            }
                            k = k + 1;
                            assert(already <==> exists|j: int|
                                0 <= j < k && (#[trigger] before[j]).0 == hdr@[2] as u32) by {
                                if already && collected_sectors@[k - 1].index != hdr@[2] as u32 {
                                    let j = choose|j: int|
                                        0 <= j < k - 1 && (#[trigger] before[j]).0 == hdr@[2] as u32;
                                    assert(0 <= j < k && before[j].0 == hdr@[2] as u32);
                                }
                            }
                        }
                        assert(already == has_sector(before, hdr@[2] as u32));
                        if !already {
                            awaiting_dam = 40;
                        } else {
                            duplicates = duplicates + 1;
                        }
                        let wrong = hdr[0] as u32 != expected_cylinder || hdr[1] as u32 != expected_head;
                        sector_header = hdr;
                        if wrong {
                            end = IsoScanEnd::WrongTrack;
                            break;
                        }
                    } else {
                        sector_header = hdr;
                    }
                } else if is_enc && mark == 0xfb && awaiting_dam > 0 {
                    if sector_header.len() < 4 || sector_header[3] > 15 {
                        end = IsoScanEnd::Malformed;
                        break;
                    }
                    let size_code: u8 = sector_header[3];
                    let sector_size: usize = 128usize << size_code;
                    assert(sector_size == 128 * pow2_u8(size_code)) by {
                        lemma_shift_pow2(size_code);
                    }
                    let ghost p_data = pos as int;
                    let mut sector_data = read_run(words.as_slice(), &mut pos, sector_size + 2);
                    let ghost d = sector_data@;
                    let crc = crc_with_prefix(0xfb, &sector_data);
                    if crc == 0 {
                        sector_data.resize(sector_size, 0);
                        proof {
                            if d.len() < sector_size {
                                assert forall|i: int| d.len() <= i < sector_size implies sector_data@[i]
                                    == 0u8 by {
                                    assert(cloned::<u8>(0u8, sector_data@[i]));
                                }
                            }
                            assert(sector_data@ =~= resize_to(d, sector_size as nat));
                        }
                        collected_sectors.push(
                            CollectedSector { index: sector_header[2] as u32, payload: sector_data },
                        );
                        assert(sectors_view(collected_sectors@) =~= col0.push(
                            (hdr0[2] as u32, resize_to(d, sector_size as nat)),
                        ));
                        let done = match expected_sectors {
                            Some(n) => n == collected_sectors.len(),
                            None => false,
                        };
                        if done {
                            break;
                        }
                    }
                }
            }
        }
        if end != IsoScanEnd::Done {
            self.collected_sectors = Some(collected_sectors);
            return if end == IsoScanEnd::WrongTrack {
                Err(TrackParseError::WrongTrack)
            } else {
                Err(TrackParseError::Malformed)
            };
        }
        if collected_sectors.len() == 0 {
            self.collected_sectors = Some(collected_sectors);
            return Err(TrackParseError::MissingSectors);
        }
        if self.assumed_disk_type.is_none() {
            self.assumed_disk_type = Some(
                if duplicates > 5 {
                    DiskType::Inch5_25
                } else {
                    DiskType::Inch3_5
                },
            );
        }
        match self.expected_sectors_per_track {
            Some(n) => {
                if collected_sectors.len() != n {
                    self.collected_sectors = Some(collected_sectors);
                    return Err(TrackParseError::MissingSectors);
                }
            },
            None => {
                self.expected_sectors_per_track = Some(collected_sectors.len());
            },
        }
        Ok(concatenate_sectors(collected_sectors, expected_cylinder, expected_head))
    }

    fn expect_track(&mut self, cylinder: u32, head: u32)
        ensures
            final(self).expected_cylinder() == Some(cylinder),
            final(self).expected_head() == Some(head),
            final(self).collected() == Some(Seq::<(u32, Seq<u8>)>::empty()),
            final(self).expected_sectors() == old(self).expected_sectors(),
            final(self).density() == old(self).density(),
            final(self).assumed_disk_type() == old(self).assumed_disk_type(),
    {
        self.expected_cylinder = Some(cylinder);
        self.expected_head = Some(head);
        self.collected_sectors = Some(Vec::new());
        assert(sectors_view(Seq::<CollectedSector>::empty()) =~= Seq::<(u32, Seq<u8>)>::empty());
    }

    fn step_size(&self) -> (r: usize)
        ensures
            r == 1,
    {
        1
    }

    fn track_density(&self) -> (r: Density)
        ensures
            r == self.density(),
    {
        self.density
    }

    /// A revolution of the assumed drive, or of the slowest one before the first track, with
    /// 6 percent to spare on high density disks and 10 percent otherwise.
    fn duration_to_record(&self, rotation: &RotationTicks) -> (r: usize)
        ensures
            r == (match self.assumed_disk_type() {
                Some(DiskType::Inch3_5) => rotation.inch3_5,
                Some(DiskType::Inch5_25) => rotation.inch5_25,
                None => rotation.slowest,
            }) * (if self.density() == Density::High { 106int } else { 110int }) / 100,
    {
        let rpm_ticks = match self.assumed_disk_type {
            Some(DiskType::Inch3_5) => rotation.inch3_5,
            Some(DiskType::Inch5_25) => rotation.inch5_25,
            None => rotation.slowest,
        };
        let percent: usize = match self.density {
            Density::High => 106,
            Density::SingleDouble => 110,
        };
        rpm_ticks * percent / 100
    }

    fn format_name(&self) -> (r: &'static str)
        ensures
            r == match self.density() {
                Density::High => "High Density ISO - could be MS-DOS",
                Density::SingleDouble => "Double Density ISO - could be Atari ST",
            },
    {
        match self.density {
            Density::High => "High Density ISO - could be MS-DOS",
            Density::SingleDouble => "Double Density ISO - could be Atari ST",
        }
    }

    fn default_trackfilter(&self) -> (r: TrackFilter)
        ensures
            r == (TrackFilter { cyl_start: Some(0), cyl_end: Some(79), head: None, is_range: true }),
    {
        TrackFilter { cyl_start: Some(0), cyl_end: Some(79), head: None, is_range: true }
    }

    fn default_file_extension(&self) -> (r: &'static str)
        ensures
            r == match self.density() {
                Density::High => "img",
                Density::SingleDouble => "st",
            },
    {
        match self.density {
            Density::High => "img",
            Density::SingleDouble => "st",
        }
    }
}

proof fn lemma_shift_values(e: u8)
    by (bit_vector)
    requires
        e <= 15,
    ensures
        e == 0 ==> (128usize << e) == 128,
        e == 1 ==> (128usize << e) == 256,
        e == 2 ==> (128usize << e) == 512,
        e == 3 ==> (128usize << e) == 1024,
        e == 4 ==> (128usize << e) == 2048,
        e == 5 ==> (128usize << e) == 4096,
        e == 6 ==> (128usize << e) == 8192,
        e == 7 ==> (128usize << e) == 16384,
        e == 8 ==> (128usize << e) == 32768,
        e == 9 ==> (128usize << e) == 65536,
        e == 10 ==> (128usize << e) == 131072,
        e == 11 ==> (128usize << e) == 262144,
        e == 12 ==> (128usize << e) == 524288,
        e == 13 ==> (128usize << e) == 1048576,
        e == 14 ==> (128usize << e) == 2097152,
        e == 15 ==> (128usize << e) == 4194304,
{
}

/// Shifting 128 left by `e` multiplies it by two to the power of `e`.
pub proof fn lemma_shift_pow2(e: u8)
    requires
        e <= 15,
    ensures
        (128usize << e) == 128 * pow2_u8(e),
{
    reveal_with_fuel(pow2_u8, 16);
    lemma_shift_values(e);
    assert(e == 0 || e == 1 || e == 2 || e == 3 || e == 4 || e == 5 || e == 6 || e == 7 || e == 8
        || e == 9 || e == 10 || e == 11 || e == 12 || e == 13 || e == 14 || e == 15);
}

} // verus!
