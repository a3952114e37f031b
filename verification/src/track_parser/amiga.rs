use vstd::prelude::*;

use crate::bitfacts::lemma_xor_facts;
use crate::image_adf::{amiga_checksum, amiga_header, amiga_sector_items, be_long, data_checksum};
use crate::mfm::{sep_init, sep_run, MfmItem, RawMfmWord};
use crate::rawtrack::TrackFilter;
use crate::track_parser::{
    concatenate_sectors, flatten_payloads, has_sector, lemma_flatten_pieces,
    lemma_sort_sorted_identity, sectors_view,
    separate_mfm_track, sort_by_index, track_cells, CollectedSector, RotationTicks,
    TrackParseError, TrackParser, TrackPayload,
};
use crate::types::Density;

verus! {

pub const AMIGA_MFM_MASK: u32 = 0x5555_5555;

pub const WORDS_PER_SECTOR: usize = 128;

pub const SECTORS_PER_AMIGA_DD_TRACK: usize = 11;

/// The data bits of word `p`: the bits of a raw word that its mask keeps; 0 for a sync word
/// and past the end.
pub open spec fn even_word(w: Seq<RawMfmWord>, p: int) -> u32 {
    if 0 <= p < w.len() {
        match w[p] {
            RawMfmWord::Raw(r) => r & 0x5555_5555u32,
            RawMfmWord::SyncWord => 0,
        }
    } else {
        0
    }
}

/// Position `p`, but at most `len`.
pub open spec fn clamp(p: int, len: int) -> int {
    if p < len {
        p
    } else {
        len
    }
}

/// The data bits of the `n` words from `start` on, combined by exclusive or.
pub open spec fn xor_words(w: Seq<RawMfmWord>, start: int, n: nat) -> u32
    decreases n,
{
    if n == 0 {
        0
    } else {
        xor_words(w, start, (n - 1) as nat) ^ even_word(w, start + n - 1)
    }
}

/// Why words after a sync are no AmigaDOS sector of the expected track.
#[derive(Clone, Copy, Debug, PartialEq, Eq, Structural)]
pub enum AmigaSectorError {
    /// The header does not start with `0xff`.
    NoHeaderMark,
    /// The header names another track.
    WrongTrack,
    /// The checksum of header and label does not match.
    HeaderChecksum,
    /// The checksum of the data does not match.
    DataChecksum,
}

/// Where the header of a sector whose words start at `p` begins: a sync word read as a zero
/// header word is skipped, as no real header word is zero.
pub open spec fn amiga_header_start(w: Seq<RawMfmWord>, p: int) -> int {
    if even_word(w, p) == 0 {
        p + 1
    } else {
        p
    }
}

/// The header long of the sector whose header begins at `hs`: odd bits, then even bits.
pub open spec fn amiga_header_long(w: Seq<RawMfmWord>, hs: int) -> u32 {
    (even_word(w, hs) << 1u32) | even_word(w, hs + 1)
}

/// Data long `i` of the sector whose header begins at `hs`: its odd bits come from the first
/// block of 128 words, its even bits from the second.
pub open spec fn amiga_data_long(w: Seq<RawMfmWord>, hs: int, i: int) -> u32 {
    (even_word(w, hs + 14 + i) << 1u32) | even_word(w, hs + 142 + i)
}

/// The 512 data bytes of the sector whose header begins at `hs`, each long big endian.
pub open spec fn amiga_sector_data(w: Seq<RawMfmWord>, hs: int) -> Seq<u8> {
    Seq::new(
        512,
        |k: int| ((amiga_data_long(w, hs, k / 4) >> ((24 - 8 * (k % 4)) as u32)) & 0xffu32) as u8,
    )
}

/// The sector whose words start at `p` right after a sync: its number and data, or why it is
/// none, and the position after the words read.
pub open spec fn amiga_sector_spec(w: Seq<RawMfmWord>, p: int, expected_track_number: u32) -> (
    Result<(u32, Seq<u8>), AmigaSectorError>,
    int,
) {
    let len = w.len() as int;
    let hs = amiga_header_start(w, p);
    let header = amiga_header_long(w, hs);
    if header & 0xff00_0000u32 != 0xff00_0000u32 {
        (Err(AmigaSectorError::NoHeaderMark), clamp(hs + 2, len))
    } else if (header >> 16u32) & 0xffu32 != expected_track_number {
        (Err(AmigaSectorError::WrongTrack), clamp(hs + 2, len))
    } else if even_word(w, hs) ^ even_word(w, hs + 1) ^ xor_words(w, hs + 2, 10) != 0 {
        (Err(AmigaSectorError::HeaderChecksum), clamp(hs + 12, len))
    } else if even_word(w, hs + 12) ^ even_word(w, hs + 13) ^ xor_words(w, hs + 14, 256) != 0 {
        (Err(AmigaSectorError::DataChecksum), clamp(hs + 270, len))
    } else {
        (Ok(((header >> 8u32) & 0xffu32, amiga_sector_data(w, hs))), clamp(hs + 270, len))
    }
}

/// Reading a sector never moves backwards nor past the end, and moves on unless at the end.
pub proof fn lemma_sector_advances(w: Seq<RawMfmWord>, p: int, expected_track_number: u32)
    requires
        0 <= p <= w.len(),
    ensures
        amiga_sector_spec(w, p, expected_track_number).1 >= p,
        p < w.len() ==> amiga_sector_spec(w, p, expected_track_number).1 > p,
        amiga_sector_spec(w, p, expected_track_number).1 <= w.len(),
{
}

/// The sectors collected from the words `pos..` after the sectors `collected`: after every
/// sync word a sector is read; a sector whose number was not collected yet is added, and the
/// search ends once `want` sectors are collected.
pub open spec fn amiga_scan(
    w: Seq<RawMfmWord>,
    pos: int,
    collected: Seq<(u32, Seq<u8>)>,
    expected_track_number: u32,
    want: nat,
) -> Seq<(u32, Seq<u8>)>
    decreases w.len() - pos,
{
    if pos < 0 || pos >= w.len() {
        collected
    } else if w[pos] is SyncWord {
        let (res, next) = amiga_sector_spec(w, pos + 1, expected_track_number);
        proof {
            lemma_sector_advances(w, pos + 1, expected_track_number);
        }
        match res {
            Ok(sector) => if has_sector(collected, sector.0) {
                amiga_scan(w, next, collected, expected_track_number, want)
            } else if collected.len() + 1 == want {
                collected.push(sector)
            } else {
                amiga_scan(w, next, collected.push(sector), expected_track_number, want)
            },
            Err(_) => amiga_scan(w, next, collected, expected_track_number, want),
        }
    } else {
        amiga_scan(w, pos + 1, collected, expected_track_number, want)
    }
}

/// Reads the data bits of the word at `pos` and moves past it.
pub fn read_even_bits(words: &[RawMfmWord], pos: &mut usize) -> (r: u32)
    requires
        *old(pos) <= words@.len(),
    ensures
        r == even_word(words@, *old(pos) as int),
        *final(pos) == clamp(*old(pos) + 1, words@.len() as int),
{
    if *pos < words.len() {
        let r = match &words[*pos] {
            RawMfmWord::Raw(raw) => *raw & AMIGA_MFM_MASK,
            RawMfmWord::SyncWord => 0,
        };
        *pos = *pos + 1;
        r
    } else {
        0
    }
}

/// Reads the sector whose words start at `pos`, right after a sync, as
/// [`amiga_sector_spec`] says.
pub fn parse_amiga_sector(words: &[RawMfmWord], pos: &mut usize, expected_track_number: u32) -> (r:
    Result<CollectedSector, AmigaSectorError>)
    requires
        *old(pos) <= words@.len(),
    ensures
        ({
            let (res, next) = amiga_sector_spec(words@, *old(pos) as int, expected_track_number);
            &&& *final(pos) == next
            &&& match r {
                Ok(s) => res == Ok::<(u32, Seq<u8>), AmigaSectorError>((s.index, s.payload@)),
                Err(e) => res == Err::<(u32, Seq<u8>), AmigaSectorError>(e),
            }
        }),
{
    let ghost w = words@;
    let ghost len = words@.len() as int;
    let ghost p = *pos as int;
    let mut sector_header_odd = read_even_bits(words, pos);
    if sector_header_odd == 0 {
        sector_header_odd = read_even_bits(words, pos);
    }
    let ghost hs = amiga_header_start(w, p);
    assert(sector_header_odd == even_word(w, hs));
    assert(*pos == clamp(hs + 1, len));
    let sector_header_even = read_even_bits(words, pos);
    assert(sector_header_even == even_word(w, hs + 1));
    let sector_header = (sector_header_odd << 1) | sector_header_even;
    if sector_header & 0xff00_0000 != 0xff00_0000 {
        return Err(AmigaSectorError::NoHeaderMark);
    }
    let track = (sector_header >> 16) & 0xff;
    let sector = (sector_header >> 8) & 0xff;
    if expected_track_number != track {
        return Err(AmigaSectorError::WrongTrack);
    }
    let mut checksum: u32 = sector_header_odd ^ sector_header_even;
    let mut i: usize = 0;
    assert(xor_words(w, hs + 2, 0) == 0);
    proof {
        lemma_xor_facts(checksum, 0, 0);
    }
    while i < 10
        invariant
            i <= 10,
            w == words@,
            len == w.len(),
            0 <= hs,
            *pos == clamp(hs + 2 + i, len),
            checksum == (sector_header_odd ^ sector_header_even) ^ xor_words(w, hs + 2, i as nat),
        decreases 10 - i,
    {
        let word = read_even_bits(words, pos);
        let ghost x = xor_words(w, hs + 2, i as nat);
        let ghost a = sector_header_odd ^ sector_header_even;
        assert(word == even_word(w, hs + 2 + i));
        proof {
            lemma_xor_facts(a, x, word);
        }
        checksum = checksum ^ word;
        i = i + 1;
    }
    if checksum != 0 {
        return Err(AmigaSectorError::HeaderChecksum);
    }
    let c1 = read_even_bits(words, pos);
    let c2 = read_even_bits(words, pos);
    let mut checksum: u32 = c1 ^ c2;
    proof {
        lemma_xor_facts(checksum, 0, 0);
    }
    let mut odd: Vec<u32> = Vec::new();
    let mut i: usize = 0;
    while i < WORDS_PER_SECTOR
        invariant
            i <= 128,
            w == words@,
            len == w.len(),
            0 <= hs,
            *pos == clamp(hs + 14 + i, len),
            checksum == (c1 ^ c2) ^ xor_words(w, hs + 14, i as nat),
            odd@.len() == i,
            forall|k: int| 0 <= k < i ==> odd@[k] == even_word(w, hs + 14 + k),
        decreases 128 - i,
    {
        let word = read_even_bits(words, pos);
        let ghost x = xor_words(w, hs + 14, i as nat);
        let ghost a = c1 ^ c2;
        proof {
            lemma_xor_facts(a, x, word);
        }
        checksum = checksum ^ word;
        odd.push(word);
        i = i + 1;
    }
    let mut sector_data: Vec<u8> = Vec::new();
    let mut i: usize = 0;
    while i < WORDS_PER_SECTOR
        invariant
            i <= 128,
            w == words@,
            len == w.len(),
            0 <= hs,
            *pos == clamp(hs + 142 + i, len),
            checksum == (c1 ^ c2) ^ xor_words(w, hs + 14, (128 + i) as nat),
            odd@.len() == 128,
            forall|k: int| 0 <= k < 128 ==> odd@[k] == even_word(w, hs + 14 + k),
            sector_data@.len() == 4 * i,
            forall|k: int| 0 <= k < 4 * i ==> sector_data@[k] == amiga_sector_data(w, hs)[k],
        decreases 128 - i,
    {
        let word = read_even_bits(words, pos);
        let ghost x = xor_words(w, hs + 14, (128 + i) as nat);
        let ghost a = c1 ^ c2;
        proof {
            lemma_xor_facts(a, x, word);
        }
        checksum = checksum ^ word;
        let long: u32 = (odd[i] << 1) | word;
        assert(long == amiga_data_long(w, hs, i as int));
        let b0 = (long >> 24) as u8;
        let b1 = ((long >> 16) & 0xff) as u8;
        let b2 = ((long >> 8) & 0xff) as u8;
        let b3 = (long & 0xff) as u8;
        assert(b0 == ((long >> 24u32) & 0xffu32) as u8 && b3 == ((long >> 0u32) & 0xffu32) as u8)
            by (bit_vector)
            requires
                b0 == (long >> 24u32) as u8,
                b3 == (long & 0xffu32) as u8,
        ;
        sector_data.push(b0);
        sector_data.push(b1);
        sector_data.push(b2);
        sector_data.push(b3);
        assert forall|k: int| 0 <= k < 4 * (i + 1) implies sector_data@[k] == amiga_sector_data(
            w,
            hs,
        )[k] by {
            if k >= 4 * i {
                assert(k / 4 == i);
            }
        }
        i = i + 1;
    }
    if checksum != 0 {
        return Err(AmigaSectorError::DataChecksum);
    }
    assert(sector_data@ =~= amiga_sector_data(w, hs));
    Ok(CollectedSector { index: sector, payload: sector_data })
}

/// Reads AmigaDOS tracks.
pub struct AmigaTrackParser {
    collected_sectors: Option<Vec<CollectedSector>>,
    expected_sectors_per_track: usize,
    expected_track_number: Option<u32>,
}

impl AmigaTrackParser {
    /// The sectors collected so far for the expected track, if one is expected.
    pub closed spec fn collected(&self) -> Option<Seq<(u32, Seq<u8>)>> {
        match self.collected_sectors {
            Some(v) => Some(sectors_view(v@)),
            None => None,
        }
    }

    /// The track number (cylinder times two plus head) expected.
    pub closed spec fn expected_track(&self) -> Option<u32> {
        self.expected_track_number
    }

    /// The number of sectors a track has.
    pub closed spec fn sectors_per_track(&self) -> nat {
        self.expected_sectors_per_track as nat
    }

    /// A parser for disks of the density `disk_type`: 22 sectors on high density tracks, 11
    /// otherwise.
    pub fn new(disk_type: Density) -> (r: Self)
        ensures
            r.collected() is None,
            r.expected_track() is None,
            r.sectors_per_track() == (if disk_type == Density::High { 22nat } else { 11nat }),
    {
        let expected_sectors_per_track = match disk_type {
            Density::High => 22,
            Density::SingleDouble => 11,
        };
        Self { collected_sectors: None, expected_sectors_per_track, expected_track_number: None }
    }
}

impl TrackParser for AmigaTrackParser {
    open spec fn expecting(&self) -> bool {
        self.collected() is Some && self.expected_track() is Some
    }

    open spec fn head_ok(&self, head: u32) -> bool {
        true
    }

    /// Collects sectors from the words after the sync words of the track, added to those
    /// collected before for the same track; returns them in order once all are there.
    fn parse_raw_track(&mut self, track: &[u8]) -> (r: Result<TrackPayload, TrackParseError>)
        ensures
            ({
                let words = sep_run(sep_init(), track_cells(track@, 168)).1;
                let etn = old(self).expected_track().unwrap();
                let found = amiga_scan(
                    words,
                    0,
                    old(self).collected().unwrap(),
                    etn,
                    old(self).sectors_per_track(),
                );
                &&& final(self).expected_track() == old(self).expected_track()
                &&& final(self).sectors_per_track() == old(self).sectors_per_track()
                &&& found.len() == old(self).sectors_per_track() ==> {
                    &&& r matches Ok(t)
                    &&& t.cylinder == etn >> 1u32
                    &&& t.head == etn & 1u32
                    &&& t.payload@ == flatten_payloads(sort_by_index(found))
                    &&& final(self).collected() is None
                }
                &&& found.len() != old(self).sectors_per_track() ==> {
                    &&& r == Err::<TrackPayload, TrackParseError>(TrackParseError::MissingSectors)
                    &&& final(self).collected() == Some(found)
                }
            }),
    {
        let expected_track_number = match self.expected_track_number {
            Some(t) => t,
            None => 0,
        };
        let words = separate_mfm_track(track, 168);
        let ghost w = words@;
        let mut collected_sectors = match self.collected_sectors.take() {
            Some(v) => v,
            None => Vec::new(),
        };
        let ghost start = sectors_view(collected_sectors@);
        let want = self.expected_sectors_per_track;
        let mut pos: usize = 0;
        while pos < words.len()
            invariant_except_break
                pos <= words@.len(),
                w == words@,
                amiga_scan(w, 0, start, expected_track_number, want as nat) == amiga_scan(
                    w,
                    pos as int,
                    sectors_view(collected_sectors@),
                    expected_track_number,
                    want as nat,
                ),
            ensures
                amiga_scan(w, 0, start, expected_track_number, want as nat) == sectors_view(
                    collected_sectors@,
                ),
            decreases words@.len() - pos,
        {
            let searchword_is_sync = match &words[pos] {
                RawMfmWord::SyncWord => true,
                RawMfmWord::Raw(_) => false,
            };
            pos = pos + 1;
            if searchword_is_sync {
                let ghost before = sectors_view(collected_sectors@);
                let ghost p0 = pos as int;
                proof {
                    lemma_sector_advances(w, p0, expected_track_number);
                }
                match parse_amiga_sector(words.as_slice(), &mut pos, expected_track_number) {
                    Ok(just_gotten_sector) => {
                        let mut already = false;
                        let mut k: usize = 0;
                        while k < collected_sectors.len()
                            invariant
                                k <= collected_sectors@.len(),
                                before == sectors_view(collected_sectors@),
                                already <==> exists|j: int|
                                    0 <= j < k && (#[trigger] before[j]).0
                                        == just_gotten_sector.index,
                            decreases collected_sectors@.len() - k,
                        {
                            assert(before[k as int].0 == collected_sectors@[k as int].index);
                            if collected_sectors[k].index == just_gotten_sector.index {
                                already = true;
                            }
                            k = k + 1;
                            assert(already <==> exists|j: int|
                                0 <= j < k && (#[trigger] before[j]).0 == just_gotten_sector.index)
                                by {
                                if already && collected_sectors@[k - 1].index
                                    != just_gotten_sector.index {
                                    let j = choose|j: int|
                                        0 <= j < k - 1 && (#[trigger] before[j]).0
                                            == just_gotten_sector.index;
                                    assert(0 <= j < k && before[j].0 == just_gotten_sector.index);
                                }
                            }
                        }
                        assert(already == has_sector(before, just_gotten_sector.index));
                        if !already {
                            collected_sectors.push(just_gotten_sector);
                            assert(sectors_view(collected_sectors@) =~= before.push(
                                (just_gotten_sector.index, just_gotten_sector.payload@),
                            ));
                            if collected_sectors.len() == want {
                                break;
                            }
                        }
                    },
                    Err(_err) => {},
                }
            }
        }
        if collected_sectors.len() != self.expected_sectors_per_track {
            self.collected_sectors = Some(collected_sectors);
            return Err(TrackParseError::MissingSectors);
        }
        Ok(concatenate_sectors(collected_sectors, expected_track_number >> 1, expected_track_number & 1))
    }

    fn expect_track(&mut self, cylinder: u32, head: u32)
        ensures
            final(self).expected_track() == Some(((cylinder << 1u32) | head) as u32),
            final(self).collected() == Some(Seq::<(u32, Seq<u8>)>::empty()),
            final(self).sectors_per_track() == old(self).sectors_per_track(),
    {
        self.expected_track_number = Some((cylinder << 1) | head);
        self.collected_sectors = Some(Vec::new());
        assert(sectors_view(Seq::<CollectedSector>::empty()) =~= Seq::<(u32, Seq<u8>)>::empty());
    }

    fn step_size(&self) -> (r: usize)
        ensures
            r == 1,
    {
        1
    }

    fn track_density(&self) -> (r: Density)
        ensures
            r == Density::SingleDouble,
    {
        Density::SingleDouble
    }

    fn duration_to_record(&self, rotation: &RotationTicks) -> (r: usize)
        ensures
            r == rotation.inch3_5 * 110 / 100,
    {
        rotation.inch3_5 * 110 / 100
    }

    fn format_name(&self) -> (r: &'static str)
        ensures
            r == "AmigaDOS",
    {
        "AmigaDOS"
    }

    fn default_trackfilter(&self) -> (r: TrackFilter)
        ensures
            r == (TrackFilter { cyl_start: Some(0), cyl_end: Some(79), head: None, is_range: true }),
    {
        TrackFilter { cyl_start: Some(0), cyl_end: Some(79), head: None, is_range: true }
    }

    fn default_file_extension(&self) -> (r: &'static str)
        ensures
            r == "adf",
    {
        "adf"
    }
}

/// The data bits that the separator reads from the 32 cells of an encoder item: the odd
/// bits of a long for `Odd`, its even bits for `Even`.
pub open spec fn item_data_bits(it: MfmItem) -> u32 {
    match it {
        MfmItem::Odd(v) => (v >> 1u32) & 0x5555_5555u32,
        MfmItem::Even(v) => v & 0x5555_5555u32,
        _ => 0,
    }
}

proof fn lemma_long_parts(x: u32, y: u32)
    by (bit_vector)
    ensures
        ((((x >> 1u32) & 0x5555_5555u32) << 1u32) | (x & 0x5555_5555u32)) == x,
        ((((x >> 1u32) & 0x5555_5555u32) ^ (x & 0x5555_5555u32)) & 0x5555_5555u32) == (((x >> 1u32)
            & 0x5555_5555u32) ^ (x & 0x5555_5555u32)),
        (x & 0x5555_5555u32) == x && (y & 0x5555_5555u32) == y ==> ((x ^ y) & 0x5555_5555u32) == (x
            ^ y),
        x ^ x == 0u32,
        ((0u32 >> 1u32) & 0x5555_5555u32) == 0u32,
        (0u32 & 0x5555_5555u32) == 0u32,
{
}

proof fn lemma_header_fields(c: u32, h: u32, s: u32)
    by (bit_vector)
    requires
        c < 128,
        h < 2,
        s < 11,
    ensures
        ((0xff00_0000u32 | (c << 17u32) | (h << 16u32) | (s << 8u32) | ((11 - s) as u32)) as u32)
            & 0xff00_0000u32 == 0xff00_0000u32,
        ((((0xff00_0000u32 | (c << 17u32) | (h << 16u32) | (s << 8u32) | ((11 - s) as u32)) as u32)
            >> 16u32) & 0xffu32) == ((c << 1u32) | h),
        ((((0xff00_0000u32 | (c << 17u32) | (h << 16u32) | (s << 8u32) | ((11 - s) as u32)) as u32)
            >> 8u32) & 0xffu32) == s,
        ((((0xff00_0000u32 | (c << 17u32) | (h << 16u32) | (s << 8u32) | ((11 - s) as u32)) as u32)
            >> 1u32) & 0x5555_5555u32) != 0u32,
{
}

proof fn lemma_long_bytes(d0: u8, d1: u8, d2: u8, d3: u8)
    by (bit_vector)
    ensures
        ((((((d0 as u32) << 24u32) | ((d1 as u32) << 16u32) | ((d2 as u32) << 8u32) | (d3 as u32))
            as u32) >> 24u32) & 0xffu32) as u8 == d0,
        ((((((d0 as u32) << 24u32) | ((d1 as u32) << 16u32) | ((d2 as u32) << 8u32) | (d3 as u32))
            as u32) >> 16u32) & 0xffu32) as u8 == d1,
        ((((((d0 as u32) << 24u32) | ((d1 as u32) << 16u32) | ((d2 as u32) << 8u32) | (d3 as u32))
            as u32) >> 8u32) & 0xffu32) as u8 == d2,
        ((((((d0 as u32) << 24u32) | ((d1 as u32) << 16u32) | ((d2 as u32) << 8u32) | (d3 as u32))
            as u32) >> 0u32) & 0xffu32) as u8 == d3,
{
}

/// The odd bits of the first `n` longs of `d`, combined by exclusive or.
pub open spec fn odd_xor(d: Seq<u8>, n: nat) -> u32
    decreases n,
{
    if n == 0 {
        0
    } else {
        odd_xor(d, (n - 1) as nat) ^ ((be_long(d, n - 1) >> 1u32) & 0x5555_5555u32)
    }
}

/// The even bits of the first `n` longs of `d`, combined by exclusive or.
pub open spec fn even_xor(d: Seq<u8>, n: nat) -> u32
    decreases n,
{
    if n == 0 {
        0
    } else {
        even_xor(d, (n - 1) as nat) ^ (be_long(d, n - 1) & 0x5555_5555u32)
    }
}

proof fn lemma_data_checksum_parts(d: Seq<u8>, n: nat)
    ensures
        data_checksum(d, n) == odd_xor(d, n) ^ even_xor(d, n),
        data_checksum(d, n) & 0x5555_5555u32 == data_checksum(d, n),
    decreases n,
{
    if n == 0 {
        lemma_xor_facts(0, 0, 0);
        lemma_long_parts(0, 0);
    } else {
        lemma_data_checksum_parts(d, (n - 1) as nat);
        let x = be_long(d, n - 1);
        let o = (x >> 1u32) & 0x5555_5555u32;
        let e = x & 0x5555_5555u32;
        let oo = odd_xor(d, (n - 1) as nat);
        let ee = even_xor(d, (n - 1) as nat);
        lemma_xor_facts(oo, ee, o ^ e);
        lemma_xor_facts(ee, o, e);
        lemma_xor_facts(0, ee, o);
        lemma_xor_facts(o, ee, e);
        lemma_xor_facts(oo, o, ee ^ e);
        assert((oo ^ ee) ^ (o ^ e) == (oo ^ o) ^ (ee ^ e));
        lemma_long_parts(x, 0);
        lemma_long_parts(data_checksum(d, (n - 1) as nat), o ^ e);
    }
}

proof fn lemma_data_words_xor(w: Seq<RawMfmWord>, p: int, d: Seq<u8>, k: nat)
    requires
        k <= 256,
        forall|i: int|
            0 <= i < 128 ==> #[trigger] even_word(w, p + 14 + i) == (be_long(d, i) >> 1u32) & 0x5555_5555u32,
        forall|i: int|
            0 <= i < 128 ==> #[trigger] even_word(w, p + 142 + i) == be_long(d, i) & 0x5555_5555u32,
    ensures
        k <= 128 ==> xor_words(w, p + 14, k) == odd_xor(d, k),
        k > 128 ==> xor_words(w, p + 14, k) == odd_xor(d, 128) ^ even_xor(d, (k - 128) as nat),
    decreases k,
{
    if k == 0 {
    } else {
        lemma_data_words_xor(w, p, d, (k - 1) as nat);
        if k <= 128 {
            assert(even_word(w, p + 14 + (k - 1)) == (be_long(d, k - 1) >> 1u32) & 0x5555_5555u32);
        } else {
            let j = k - 129;
            assert(p + 14 + k - 1 == p + 142 + j);
            assert(even_word(w, p + 142 + j) == be_long(d, j) & 0x5555_5555u32);
            let o = odd_xor(d, 128);
            let e = even_xor(d, j as nat);
            lemma_xor_facts(o, e, be_long(d, j) & 0x5555_5555u32);
            if j == 0 {
                lemma_xor_facts(o, 0, 0);
            }
        }
    }
}

/// The words right after a sync carry the data bits of the items of a generated sector.
pub open spec fn carries_sector(w: Seq<RawMfmWord>, p: int, items: Seq<MfmItem>) -> bool {
    forall|j: int| 0 <= j < 270 ==> #[trigger] even_word(w, p + j) == item_data_bits(items[4 + j])
}

#[verifier::rlimit(40)]
proof fn lemma_header_reads_back(w: Seq<RawMfmWord>, p: int, cylinder: u32, head: u32, sector: u32, d: Seq<u8>)
    requires
        cylinder < 128,
        head < 2,
        sector < 11,
        d.len() == 512,
        carries_sector(w, p, amiga_sector_items(cylinder, head, sector, d)),
    ensures
        amiga_header_start(w, p) == p,
        amiga_header_long(w, p) == amiga_header(cylinder, head, sector),
        even_word(w, p) ^ even_word(w, p + 1) ^ xor_words(w, p + 2, 10) == 0u32,
{
    let items = amiga_sector_items(cylinder, head, sector, d);
    let hd = amiga_header(cylinder, head, sector);
    lemma_header_fields(cylinder, head, sector);
    lemma_long_parts(hd, 0);
    lemma_long_parts(0, 0);
    assert(items[4] == MfmItem::Odd(hd));
    assert(items[5] == MfmItem::Even(hd));
    assert(even_word(w, p + 0) == item_data_bits(items[4int + 0]));
    assert(even_word(w, p + 1) == item_data_bits(items[4int + 1]));
    assert(even_word(w, p) == (hd >> 1u32) & 0x5555_5555u32);
    assert(even_word(w, p + 1) == hd & 0x5555_5555u32);
    assert(amiga_header_start(w, p) == p);
    assert(amiga_header_long(w, p) == hd);
    assert forall|j: int| 2 <= j < 11 implies #[trigger] even_word(w, p + j) == 0u32 by {
        assert(even_word(w, p + j) == item_data_bits(items[4 + j]));
    }
    assert(even_word(w, p + 11) == item_data_bits(items[4int + 11]));
    assert(items[15] == MfmItem::Even(amiga_checksum(hd)));
    let chk = amiga_checksum(hd);
    assert(even_word(w, p + 11) == chk);
    lemma_zero_words_xor(w, p, 9);
    assert(xor_words(w, p + 2, 10) == xor_words(w, p + 2, 9) ^ even_word(w, p + 2 + 9));
    lemma_xor_facts(chk, 0, 0);
    lemma_xor_facts(0, 0, chk);
    assert(xor_words(w, p + 2, 10) == chk);
    lemma_long_parts(chk, 0);
}

#[verifier::rlimit(40)]
proof fn lemma_data_reads_back(w: Seq<RawMfmWord>, p: int, cylinder: u32, head: u32, sector: u32, d: Seq<u8>)
    requires
        d.len() == 512,
        carries_sector(w, p, amiga_sector_items(cylinder, head, sector, d)),
    ensures
        even_word(w, p + 12) ^ even_word(w, p + 13) ^ xor_words(w, p + 14, 256) == 0u32,
        amiga_sector_data(w, p) == d,
{
    let items = amiga_sector_items(cylinder, head, sector, d);
    let dchk = data_checksum(d, 128);
    lemma_long_parts(0, 0);
    lemma_data_checksum_parts(d, 128);
    assert(even_word(w, p + 12) == item_data_bits(items[4int + 12]));
    assert(even_word(w, p + 13) == item_data_bits(items[4int + 13]));
    assert(even_word(w, p + 12) == 0u32);
    assert(even_word(w, p + 13) == dchk);
    assert forall|i: int| 0 <= i < 128 implies #[trigger] even_word(w, p + 14 + i) == (be_long(d, i)
        >> 1u32) & 0x5555_5555u32 by {
        assert(even_word(w, p + (14 + i)) == item_data_bits(items[4 + (14 + i)]));
        assert(items[18 + i] == MfmItem::Odd(be_long(d, i)));
    }
    assert forall|i: int| 0 <= i < 128 implies #[trigger] even_word(w, p + 142 + i) == be_long(d, i)
        & 0x5555_5555u32 by {
        assert(even_word(w, p + (142 + i)) == item_data_bits(items[4 + (142 + i)]));
        assert(items[146 + i] == MfmItem::Even(be_long(d, i)));
    }
    lemma_data_words_xor(w, p, d, 256);
    assert(xor_words(w, p + 14, 256) == dchk);
    lemma_xor_facts(0, 0, dchk);
    lemma_xor_facts(dchk, 0, 0);
    lemma_long_parts(dchk, 0);
    assert(even_word(w, p + 12) ^ even_word(w, p + 13) ^ xor_words(w, p + 14, 256) == 0u32);
    assert forall|k: int| 0 <= k < 512 implies #[trigger] amiga_sector_data(w, p)[k] == d[k] by {
        let i = k / 4;
        let m = k % 4;
        let l = be_long(d, i);
        lemma_long_parts(l, 0);
        assert(even_word(w, p + 14 + i) == (l >> 1u32) & 0x5555_5555u32);
        assert(even_word(w, p + 142 + i) == l & 0x5555_5555u32);
        assert(amiga_data_long(w, p, i) == l);
        lemma_long_bytes(d[4 * i], d[4 * i + 1], d[4 * i + 2], d[4 * i + 3]);
        assert(k == 4 * i + m);
        if m == 0 {
            assert(((24 - 8 * m) as u32) == 24u32);
        } else if m == 1 {
            assert(((24 - 8 * m) as u32) == 16u32);
        } else if m == 2 {
            assert(((24 - 8 * m) as u32) == 8u32);
        } else {
            assert(((24 - 8 * m) as u32) == 0u32);
        }
    }
    assert(amiga_sector_data(w, p) =~= d);
}

/// The sector parser reads back the sector that the sector generator wrote: given, right
/// after the sync, the words that carry the data bits of the generated sector's header,
/// label area, checksums and data, it returns that sector's number and its 512 bytes, and
/// moves past its 270 words.
pub proof fn lemma_sector_reads_back(
    w: Seq<RawMfmWord>,
    p: int,
    cylinder: u32,
    head: u32,
    sector: u32,
    d: Seq<u8>,
)
    requires
        cylinder < 128,
        head < 2,
        sector < 11,
        d.len() == 512,
        0 <= p,
        p + 270 <= w.len(),
        carries_sector(w, p, amiga_sector_items(cylinder, head, sector, d)),
    ensures
        amiga_sector_spec(w, p, (cylinder << 1u32) | head) == (
            Ok::<(u32, Seq<u8>), AmigaSectorError>((sector, d)),
            p + 270,
        ),
{
    lemma_header_reads_back(w, p, cylinder, head, sector, d);
    lemma_data_reads_back(w, p, cylinder, head, sector, d);
    lemma_header_fields(cylinder, head, sector);
}

proof fn lemma_zero_words_xor(w: Seq<RawMfmWord>, p: int, k: nat)
    requires
        k <= 9,
        forall|j: int| 2 <= j < 11 ==> #[trigger] even_word(w, p + j) == 0u32,
    ensures
        xor_words(w, p + 2, k) == 0u32,
    decreases k,
{
    if k > 0 {
        lemma_zero_words_xor(w, p, (k - 1) as nat);
        assert(even_word(w, p + 2 + (k - 1)) == 0u32) by {
            assert(even_word(w, p + (2 + k - 1)) == 0u32);
        }
        lemma_xor_facts(0, 0, 0);
    }
}

/// The items of sector `k` of a generated track of the data `d`.
pub open spec fn track_sector_items(cylinder: u32, head: u32, d: Seq<u8>, k: int) -> Seq<MfmItem> {
    amiga_sector_items(cylinder, head, k as u32, d.subrange(512 * k, 512 * k + 512))
}

/// The words from `base` on are those that the separator gives for a generated track: for
/// each of its 11 sectors a sync word and the 270 words that carry the sector, and between two
/// sectors one word, that of the zero bytes in front of the next sync.
pub open spec fn carries_track(w: Seq<RawMfmWord>, base: int, cylinder: u32, head: u32, d: Seq<u8>) -> bool {
    &&& 0 <= base
    &&& base + 272 * 10 + 271 <= w.len()
    &&& forall|k: int|
        0 <= k < 11 ==> {
            &&& #[trigger] w[base + 272 * k] is SyncWord
            &&& carries_sector(w, base + 272 * k + 1, track_sector_items(cylinder, head, d, k))
            &&& (k < 10 ==> w[base + 272 * k + 271] !is SyncWord)
        }
}

/// The first `k` sectors of the data `d`, numbered from 0.
pub open spec fn amiga_ordered(d: Seq<u8>, k: nat) -> Seq<(u32, Seq<u8>)> {
    Seq::new(k, |j: int| (j as u32, d.subrange(512 * j, 512 * j + 512)))
}

proof fn lemma_track_scan(
    w: Seq<RawMfmWord>,
    base: int,
    cylinder: u32,
    head: u32,
    d: Seq<u8>,
    k: nat,
)
    requires
        cylinder < 128,
        head < 2,
        d.len() == 11 * 512,
        k < 11,
        carries_track(w, base, cylinder, head, d),
    ensures
        amiga_scan(w, base + 272 * k, amiga_ordered(d, k), (cylinder << 1u32) | head, 11)
            == amiga_ordered(d, 11),
    decreases 11 - k,
{
    let pos = base + 272 * k;
    let dk = d.subrange(512 * k as int, 512 * k as int + 512);
    assert(w[base + 272 * k] is SyncWord);
    assert(carries_sector(w, pos + 1, track_sector_items(cylinder, head, d, k as int)));
    lemma_sector_reads_back(w, pos + 1, cylinder, head, k as u32, dk);
    assert(!has_sector(amiga_ordered(d, k), k as u32)) by {
        if has_sector(amiga_ordered(d, k), k as u32) {
            let i = choose|i: int| 0 <= i < amiga_ordered(d, k).len() && (#[trigger] amiga_ordered(
                d,
                k,
            )[i]).0 == k as u32;
        }
    }
    let etn = (cylinder << 1u32) | head;
    assert(amiga_ordered(d, k).push((k as u32, dk)) =~= amiga_ordered(d, k + 1));
    assert(pos + 271 <= w.len());
    assert(amiga_sector_spec(w, pos + 1, etn) == (
        Ok::<(u32, Seq<u8>), AmigaSectorError>((k as u32, dk)),
        pos + 271,
    ));
    assert(amiga_ordered(d, k).len() == k);
    if k + 1 < 11 {
        assert(w[base + 272 * k + 271] !is SyncWord);
        assert(pos + 271 < w.len());
        assert(amiga_scan(w, pos + 271, amiga_ordered(d, k + 1), etn, 11) == amiga_scan(
            w,
            pos + 272,
            amiga_ordered(d, k + 1),
            etn,
            11,
        ));
        lemma_track_scan(w, base, cylinder, head, d, k + 1);
        assert(base + 272 * (k + 1) == pos + 272);
    }
}

/// The track parser reads back a whole track that the track generator wrote: over the words
/// that the separator gives for a generated track, the search starting with nothing collected
/// collects the 11 sectors in order, and joined they are the track's data.
pub proof fn lemma_track_reads_back(
    w: Seq<RawMfmWord>,
    base: int,
    cylinder: u32,
    head: u32,
    d: Seq<u8>,
)
    requires
        cylinder < 128,
        head < 2,
        d.len() == 11 * 512,
        carries_track(w, base, cylinder, head, d),
    ensures
        amiga_scan(w, base, Seq::empty(), (cylinder << 1u32) | head, 11) == amiga_ordered(d, 11),
        flatten_payloads(sort_by_index(amiga_ordered(d, 11))) == d,
{
    assert(amiga_ordered(d, 0) =~= Seq::<(u32, Seq<u8>)>::empty());
    lemma_track_scan(w, base, cylinder, head, d, 0);
    lemma_sort_sorted_identity(amiga_ordered(d, 11));
    lemma_flatten_pieces(amiga_ordered(d, 11), d);
}

} // verus!
