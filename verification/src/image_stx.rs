use vstd::prelude::*;

use crate::bitstream::{bytes_cells, pack_cells};
use crate::bytes::{be16, le16, le32, read_be16, read_le16, read_le32};
use crate::digest::{md5_compute, md5_digest};
use crate::error::ImageError;
use crate::image_iso::{
    crc_items, data_crc, enc_items, gap_items, iso_broken_data_items, iso_data_crc,
    iso_data_header_items, iso_data_items, iso_sectorheader_items, plain_items, push_bytes,
    push_data_header, push_data_with_crc, push_gap, push_sectorheader, push_sync3, sync3,
    ISO_DAM, ISO_IDAM,
};
use crate::mfm::{item_ok, items_cells, items_last, MfmEncoder, MfmItem};
use crate::sorting::{lemma_sort_by_key, sort_by_key, stable_sort_by_key, Keyed};
use crate::track_parser::iso::{lemma_shift_pow2, pow2_u8};
use crate::types::Bit;

verus! {

// Layout of Pasti (STX) files:
// http://info-coach.fr/atari/documents/_mydoc/Pasti-documentation.pdf
// https://info-coach.fr/atari/documents/_mydoc/Atari-Copy-Protection.pdf
// https://github.com/sarnau/AtariSTCopyProtections/blob/master/protection_turrican.md
/// The track image header holds sync offset information.
pub const TRK_SYNC: u16 = 0x80;

/// The track record holds a track image.
pub const TRK_IMAGE: u16 = 0x40;

/// The track record holds sector descriptors.
pub const TRK_SECT: u16 = 0x01;

pub const FDC_FLAG_DELETED_DATA: u8 = 0x20;

pub const FDC_FLAG_RECORD_NOT_FOUND: u8 = 0x10;

pub const FDC_FLAG_CRC_ERROR: u8 = 0x08;

/// The cell width varies within the sector (Macrodos, Speedlock).
pub const FDC_FLAG_INTRA_SECTOR_BIT_WIDTH_VARIATION: u8 = 0x01;

pub const SECTOR_DESCRIPTOR_SIZE: usize = 16;

pub const TRACK_DESCRIPTOR_SIZE: usize = 16;

/// Minimal preamble of `0x00` before a sector header.
pub const GAP2_SIZE: usize = 3;

/// Minimal gap of `0x4e` between sector header and data.
pub const GAP3A_SIZE: usize = 22;

/// `0x00` bytes before a sector's data.
pub const GAP3B_SIZE: usize = 12;

/// The MD5 digest of the STX image of Turrican (1990), whose copy protection the file does
/// not describe well enough: it is rebuilt from sectors 0 and 16.
pub open spec fn turrican_digest() -> Seq<u8> {
    seq![
        0x48u8, 0x65u8, 0x95u8, 0x7cu8, 0xd8u8, 0x35u8, 0x62u8, 0x54u8, 0x7au8, 0x72u8, 0x2cu8,
        0x95u8, 0xe9u8, 0xa5u8, 0x42u8, 0x1au8,
    ]
}

/// A sector descriptor of a track record.
#[derive(Clone, Copy, Debug, PartialEq, Eq, Structural)]
pub struct StxSector {
    /// Where the sector's data start within the track data.
    pub data_offset: usize,
    /// Where the sector starts on the track, in bits after the index.
    pub bit_position: usize,
    /// Microseconds it takes to read the sector's data; 0 for the standard time.
    pub read_time: u32,
    pub idam_track: u8,
    pub idam_head: u8,
    pub idam_sector: u8,
    pub idam_size: u8,
    pub idam_crc: u16,
    pub fdc_flags: u8,
    pub sector_size: usize,
}

impl Keyed for StxSector {
    open spec fn key_of(&self) -> int {
        self.bit_position as int
    }

    fn key(&self) -> (r: u128) {
        self.bit_position as u128
    }
}

/// Where the cell size of a run of cell bytes comes from.
#[derive(Clone, Copy, Debug, PartialEq, Eq, Structural)]
pub enum CellTiming {
    /// The standard cell size of 2 microseconds.
    Nominal,
    /// The sector's read time: `read_time` microseconds for `sector_size * 16` cells.
    ReadTime { read_time: u32, sector_size: usize },
    /// A timing record value: four times the microseconds it takes to read 16 data bytes.
    TimingValue(u16),
}

/// A run of cell bytes of one cell size.
#[derive(Clone, Copy, Debug, PartialEq, Eq, Structural)]
pub struct SectorTiming {
    pub number_of_raw_bytes: usize,
    pub timing: CellTiming,
}

/// The number of cell bytes that the runs `d` cover together.
pub open spec fn run_total(d: Seq<SectorTiming>) -> int
    decreases d.len(),
{
    if d.len() == 0 {
        0
    } else {
        run_total(d.drop_last()) + d.last().number_of_raw_bytes
    }
}

/// The runs `d` with the last one replaced by `e`.
proof fn lemma_run_total_update_last(d: Seq<SectorTiming>, e: SectorTiming)
    requires
        d.len() > 0,
    ensures
        run_total(d.update(d.len() - 1, e)) == run_total(d) - d.last().number_of_raw_bytes
            + e.number_of_raw_bytes,
{
    assert(d.update(d.len() - 1, e).drop_last() =~= d.drop_last());
}

/// A track of an STX image: its cell bytes and where their cell sizes come from.
pub struct StxTrack {
    pub cylinder: u32,
    pub head: u32,
    pub raw_data: Vec<u8>,
    pub deviation_map: Vec<SectorTiming>,
    pub has_non_flux_reversal_area: bool,
}

impl Keyed for StxTrack {
    open spec fn key_of(&self) -> int {
        self.cylinder as int
    }

    fn key(&self) -> (r: u128) {
        self.cylinder as u128
    }
}

/// The sector descriptor at `at`.
pub open spec fn stx_descriptor(b: Seq<u8>, at: int) -> StxSector {
    StxSector {
        data_offset: le32(b, at) as usize,
        bit_position: le16(b, at + 4) as usize,
        read_time: le16(b, at + 6) as u32,
        idam_track: b[at + 8],
        idam_head: b[at + 9],
        idam_sector: b[at + 10],
        idam_size: b[at + 11],
        idam_crc: be16(b, at + 12),
        fdc_flags: b[at + 14],
        sector_size: (128 * pow2_u8(b[at + 11])) as usize,
    }
}

/// What is wrong with the sector descriptor at `at`, if anything: it must lie within the
/// file, have a size code of at most 15, a head of 0 or 1 and no deleted data.
pub open spec fn descriptor_error(b: Seq<u8>, at: int) -> Option<ImageError> {
    if at + 16 > b.len() {
        Some(ImageError::OutOfBounds)
    } else if b[at + 11] > 15 {
        Some(ImageError::Implausible)
    } else if b[at + 9] >= 2 {
        Some(ImageError::HeadOutOfRange)
    } else if b[at + 14] & 0x20u8 != 0 {
        Some(ImageError::Unsupported)
    } else {
        None
    }
}

/// The `count` sector descriptors from `at` on, in file order.
pub open spec fn stx_descriptors(b: Seq<u8>, at: int, count: nat) -> Result<Seq<StxSector>, ImageError>
    decreases count,
{
    if count == 0 {
        Ok(Seq::empty())
    } else {
        match descriptor_error(b, at) {
            Some(e) => Err(e),
            None => match stx_descriptors(b, at + 16, (count - 1) as nat) {
                Ok(rest) => Ok(seq![stx_descriptor(b, at)] + rest),
                Err(e) => Err(e),
            },
        }
    }
}

/// The size of the timing data that the sectors with varying cell width need: two bytes for
/// every 16 data bytes.
pub open spec fn timing_size(s: Seq<StxSector>) -> nat
    decreases s.len(),
{
    if s.len() == 0 {
        0
    } else {
        timing_size(s.drop_last()) + (if s.last().fdc_flags & 1u8 != 0 {
            (s.last().sector_size / 8) as nat
        } else {
            0
        })
    }
}

/// Reads the `sector_count` sector descriptors at `at`, ordered by their position on the
/// track, and the size of the timing data they need.
pub fn read_sector_descriptors(buffer: &[u8], at: usize, sector_count: usize) -> (r: Result<
    (Vec<StxSector>, u64),
    ImageError,
>)
    requires
        buffer@.len() <= isize::MAX,
        at <= isize::MAX,
        sector_count <= 0xffff,
    ensures
        match stx_descriptors(buffer@, at as int, sector_count as nat) {
            Ok(s) => (r matches Ok((v, t)) && v@ == sort_by_key(s) && t == timing_size(s) && t
                <= 0x8_0000_0000u64),
            Err(e) => r == Err::<(Vec<StxSector>, u64), ImageError>(e),
        },
{
    let mut sectors: Vec<StxSector> = Vec::new();
    let mut timing_data_size: u64 = 0;
    let mut i: usize = 0;
    while i < sector_count
        invariant
            i <= sector_count,
            buffer@.len() <= isize::MAX,
            at <= isize::MAX,
            sector_count <= 0xffff,
            sectors@.len() == i,
            timing_data_size == timing_size(sectors@),
            timing_data_size <= i * 0x8_0000,
            stx_descriptors(buffer@, at as int, sector_count as nat) == (match stx_descriptors(
                buffer@,
                (at + 16 * i) as int,
                (sector_count - i) as nat,
            ) {
                Ok(rest) => Ok(sectors@ + rest),
                Err(e) => Err::<Seq<StxSector>, ImageError>(e),
            }),
        decreases sector_count - i,
    {
        let d = at + 16 * i;
        let ghost rest_spec = stx_descriptors(buffer@, d + 16, (sector_count - i - 1) as nat);
        let data_offset = match read_le32(buffer, d) {
            Some(v) => v,
            None => {
                return Err(ImageError::OutOfBounds);
            },
        };
        if buffer.len() - d < 16 {
            return Err(ImageError::OutOfBounds);
        }
        let bit_position = read_le16(buffer, d + 4).unwrap();
        let read_time = read_le16(buffer, d + 6).unwrap();
        let idam_track = buffer[d + 8];
        let idam_head = buffer[d + 9];
        let idam_sector = buffer[d + 10];
        let idam_size = buffer[d + 11];
        let idam_crc = read_be16(buffer, d + 12).unwrap();
        let fdc_flags = buffer[d + 14];
        if idam_size > 15 {
            return Err(ImageError::Implausible);
        }
        let sector_size: usize = 128usize << idam_size;
        proof {
            lemma_shift_pow2(idam_size);
            reveal_with_fuel(pow2_u8, 16);
        }
        if idam_head >= 2 {
            return Err(ImageError::HeadOutOfRange);
        }
        if fdc_flags & FDC_FLAG_DELETED_DATA != 0 {
            return Err(ImageError::Unsupported);
        }
        let sector = StxSector {
            data_offset: data_offset as usize,
            bit_position: bit_position as usize,
            read_time: read_time as u32,
            idam_track,
            idam_head,
            idam_sector,
            idam_size,
            idam_crc,
            fdc_flags,
            sector_size,
        };
        assert(sector == stx_descriptor(buffer@, d as int));
        assert(sector_size <= 0x40_0000) by {
            assert(128 * pow2_u8(idam_size) <= 0x40_0000) by {
                reveal_with_fuel(pow2_u8, 16);
            }
        }
        let ghost before = sectors@;
        assert(stx_descriptors(buffer@, d as int, (sector_count - i) as nat) == match rest_spec {
            Ok(rest) => Ok(seq![sector] + rest),
            Err(e) => Err::<Seq<StxSector>, ImageError>(e),
        });
        if fdc_flags & FDC_FLAG_INTRA_SECTOR_BIT_WIDTH_VARIATION != 0 {
            timing_data_size = timing_data_size + (sector_size / 8) as u64;
        }
        sectors.push(sector);
        proof {
            assert(sectors@.drop_last() == before);
            assert((at + 16 * i) + 16 == at + 16 * (i + 1));
            match rest_spec {
                Ok(rest) => {
                    assert(before + (seq![sector] + rest) == sectors@ + rest);
                },
                Err(e) => {},
            }
        }
        i = i + 1;
    }
    let sorted = stable_sort_by_key(sectors);
    assert(sectors@ + Seq::<StxSector>::empty() == sectors@);
    assert(timing_data_size <= 0x8_0000_0000u64) by (nonlinear_arith)
        requires
            timing_data_size <= i * 0x8_0000,
            i <= 0xffff,
    ;
    Ok((sorted, timing_data_size))
}

/// The values of a timing record: flags 5, its size, then big endian values, one for every
/// 16 data bytes.
pub open spec fn stx_timing(rec: Seq<u8>) -> Result<Seq<u16>, ImageError> {
    if rec.len() < 4 {
        Err(ImageError::OutOfBounds)
    } else if le16(rec, 2) < 4 {
        Err(ImageError::Implausible)
    } else if le16(rec, 0) != 5 {
        Err(ImageError::Unsupported)
    } else if le16(rec, 2) != rec.len() {
        Err(ImageError::Implausible)
    } else {
        Ok(Seq::new(((le16(rec, 2) - 4) / 2) as nat, |i: int| be16(rec, 4 + 2 * i)))
    }
}

/// Reads a timing record.
pub fn read_timing_record(optional_timing_record: &[u8]) -> (r: Result<Vec<u16>, ImageError>)
    ensures
        match stx_timing(optional_timing_record@) {
            Ok(t) => (r matches Ok(v) && v@ == t),
            Err(e) => r == Err::<Vec<u16>, ImageError>(e),
        },
{
    let rec = optional_timing_record;
    let flags = match read_le16(rec, 0) {
        Some(v) => v,
        None => {
            return Err(ImageError::OutOfBounds);
        },
    };
    let timing_record_size = match read_le16(rec, 2) {
        Some(v) => v as usize,
        None => {
            return Err(ImageError::OutOfBounds);
        },
    };
    if timing_record_size < 4 {
        return Err(ImageError::Implausible);
    }
    let timing_data_size = timing_record_size - 4;
    if flags != 5 {
        return Err(ImageError::Unsupported);
    }
    if timing_record_size != rec.len() {
        return Err(ImageError::Implausible);
    }
    let mut timing_data: Vec<u16> = Vec::new();
    let mut i: usize = 0;
    while i < timing_data_size / 2
        invariant
            i <= timing_data_size / 2,
            rec@.len() == timing_record_size,
            timing_data_size == rec@.len() - 4,
            timing_data@.len() == i,
            forall|k: int| 0 <= k < i ==> timing_data@[k] == be16(rec@, 4 + 2 * k),
        decreases timing_data_size / 2 - i,
    {
        assert(4 + 2 * i + 2 <= rec@.len());
        let value = read_be16(rec, 4 + 2 * i).unwrap();
        timing_data.push(value);
        i = i + 1;
    }
    assert(timing_data@ =~= Seq::new(((le16(rec@, 2) - 4) / 2) as nat, |k: int| be16(rec@, 4 + 2 * k)));
    Ok(timing_data)
}

/// The sector is left out: Turrican's sector 16 lies within its sector 0.
pub fn patch_discard_sector(sector: &StxSector, file_hash: &[u8]) -> (r: bool)
    ensures
        r == (file_hash@ == turrican_digest() && sector.idam_sector == 16),
{
    is_turrican(file_hash) && sector.idam_sector == 16
}

fn is_turrican(file_hash: &[u8]) -> (r: bool)
    ensures
        r == (file_hash@ == turrican_digest()),
{
    let expected: [u8; 16] = [
        0x48, 0x65, 0x95, 0x7c, 0xd8, 0x35, 0x62, 0x54, 0x7a, 0x72, 0x2c, 0x95, 0xe9, 0xa5, 0x42,
        0x1a,
    ];
    assert(expected@ == turrican_digest());
    if file_hash.len() != 16 {
        return false;
    }
    let mut i: usize = 0;
    while i < 16
        invariant
            i <= 16,
            file_hash@.len() == 16,
            expected@ == turrican_digest(),
            forall|k: int| 0 <= k < i ==> file_hash@[k] == expected@[k],
        decreases 16 - i,
    {
        if file_hash[i] != expected[i] {
            return false;
        }
        i = i + 1;
    }
    assert(file_hash@ =~= expected@);
    true
}

/// Turrican's sector 0 rebuilt: a sector 0 header and data mark, inside which a sector 16
/// header and data mark are placed so that the clock bits of sector 0 are the data bits of
/// sector 16, and an area without flux reversals.
pub open spec fn turrican_items(sector: StxSector) -> Seq<MfmItem> {
    iso_sectorheader_items(3, sector.idam_track, sector.idam_head, 0, sector.idam_size) + gap_items(
        22,
        0x4e,
    ) + iso_data_header_items(12, None) + iso_sectorheader_items(
        16,
        sector.idam_track,
        sector.idam_head,
        16,
        sector.idam_size,
    ) + gap_items(22, 0x4e) + seq![MfmItem::RawVar(0x5555u32 >> 1u32, 15)] + iso_data_header_items(
        11,
        None,
    ) + gap_items(16, 0x00) + seq![MfmItem::RawVar(0xa000, 16)] + Seq::new(
        262,
        |i: int| MfmItem::Raw8(0),
    ) + seq![MfmItem::Raw8(0b1010_1010)]
}

/// The header of a normal sector, with the checksum the file gives, which may be wrong.
pub open spec fn stx_header_items(sector: StxSector) -> Seq<MfmItem> {
    gap_items(3, 0) + sync3() + enc_items(
        seq![
            ISO_IDAM,
            sector.idam_track,
            sector.idam_head,
            sector.idam_sector,
            sector.idam_size,
            (sector.idam_crc >> 8u16) as u8,
            (sector.idam_crc & 0xffu16) as u8,
        ],
    ) + gap_items(22, 0x4e) + iso_data_header_items(12, None)
}

/// The state of the generation of a track.
pub struct StxGen {
    pub items: Seq<MfmItem>,
    pub deviation: Seq<SectorTiming>,
    /// The cell bytes covered by `deviation`.
    pub pushed: nat,
    /// The position of the first sector written, in MFM words.
    pub offset: Option<int>,
    pub nfra: bool,
}

/// The number of whole cell bytes the items produce.
pub open spec fn item_bytes(items: Seq<MfmItem>) -> nat {
    items_cells(false, items).len() / 8
}

/// A run covering the cell bytes written since the last run.
pub open spec fn push_run(g: StxGen, timing: CellTiming) -> StxGen {
    let now = item_bytes(g.items);
    StxGen {
        deviation: g.deviation.push(
            SectorTiming { number_of_raw_bytes: (now - g.pushed) as usize, timing },
        ),
        pushed: now,
        ..g
    }
}

/// The first `n` chunks of a sector whose cell width varies, each followed by a run with its
/// timing value.
pub open spec fn stx_chunks(g: StxGen, data: Seq<u8>, timing: Seq<u16>, n: nat) -> StxGen
    decreases n,
{
    if n == 0 {
        g
    } else {
        let prev = stx_chunks(g, data, timing, (n - 1) as nat);
        let with_chunk = StxGen {
            items: prev.items + enc_items(data.subrange(16 * (n - 1), 16 * n as int)),
            ..prev
        };
        push_run(with_chunk, CellTiming::TimingValue(timing[n - 1]))
    }
}

/// Where the cell size of a sector comes from: its read time, or the standard size.
pub open spec fn cell_timing_of(sector: StxSector) -> CellTiming {
    if sector.read_time == 0 {
        CellTiming::Nominal
    } else {
        CellTiming::ReadTime { read_time: sector.read_time, sector_size: sector.sector_size }
    }
}

#[verifier::opaque]
/// The gap before a sector: the sector starts at its bit position counted from the first
/// sector written, in MFM words; `None` where that lies before the first sector.
pub open spec fn stx_place(g: StxGen, sector: StxSector, nsectors: nat) -> Option<StxGen> {
    let offset: int = match g.offset {
        Some(o) => o,
        None => if nsectors == 1 {
            0
        } else {
            (sector.bit_position / 4) as int
        },
    };
    let word_position = sector.bit_position / 4 - offset;
    let gap = word_position - item_bytes(g.items);
    if word_position < 0 {
        None
    } else {
        Some(
            StxGen {
                items: g.items + (if gap >= 0 {
                    gap_items((gap / 2) as nat, 0x4e)
                } else {
                    Seq::empty()
                }),
                offset: Some(offset),
                ..g
            },
        )
    }
}

#[verifier::opaque]
/// The sector itself: Turrican's rebuilt sector 0, or a header and the data as the flags
/// say: in chunks with their timing values, with a broken checksum, or plain.
pub open spec fn stx_body(
    g1: StxGen,
    sector: StxSector,
    track_data: Seq<u8>,
    turrican: bool,
    timing: Option<Seq<u16>>,
) -> Result<StxGen, ImageError> {
    if turrican && sector.idam_sector == 0 {
        Ok(StxGen { items: g1.items + turrican_items(sector), nfra: true, ..g1 })
    } else if sector.data_offset + sector.sector_size > track_data.len() {
        Err(ImageError::OutOfBounds)
    } else {
        let data = track_data.subrange(
            sector.data_offset as int,
            sector.data_offset + sector.sector_size,
        );
        let g2 = StxGen { items: g1.items + stx_header_items(sector), ..g1 };
        if sector.fdc_flags & 1u8 != 0 {
            match timing {
                None => Err(ImageError::Implausible),
                Some(t) => if data.len() / 16 != t.len() {
                    Err(ImageError::Implausible)
                } else {
                    let g3 = stx_chunks(g2, data, t, t.len());
                    Ok(StxGen { items: g3.items + crc_items(iso_data_crc(data, None)), ..g3 })
                },
            }
        } else if sector.fdc_flags & 0x18u8 == 0x08u8 {
            Ok(StxGen { items: g2.items + iso_broken_data_items(data), ..g2 })
        } else {
            Ok(StxGen { items: g2.items + iso_data_items(data, None), ..g2 })
        }
    }
}

/// One sector written onto the track being generated, followed by a run with its cell size;
/// Turrican's sector 16 is left out.
pub open spec fn stx_step(
    g: StxGen,
    sector: StxSector,
    nsectors: nat,
    track_data: Seq<u8>,
    turrican: bool,
    timing: Option<Seq<u16>>,
) -> Result<StxGen, ImageError> {
    if turrican && sector.idam_sector == 16 {
        Ok(g)
    } else {
        match stx_place(g, sector, nsectors) {
            None => Err(ImageError::Implausible),
            Some(g1) => match stx_body(g1, sector, track_data, turrican, timing) {
                Ok(g2) => Ok(push_run(g2, cell_timing_of(sector))),
                Err(e) => Err(e),
            },
        }
    }
}

/// The first `n` sectors written.
pub open spec fn stx_sectors(
    sectors: Seq<StxSector>,
    n: nat,
    track_data: Seq<u8>,
    turrican: bool,
    timing: Option<Seq<u16>>,
) -> Result<StxGen, ImageError>
    decreases n,
{
    if n == 0 {
        Ok(StxGen { items: Seq::empty(), deviation: Seq::empty(), pushed: 0, offset: None, nfra: false })
    } else {
        match stx_sectors(sectors, (n - 1) as nat, track_data, turrican, timing) {
            Ok(g) => stx_step(g, sectors[n - 1], sectors.len(), track_data, turrican, timing),
            Err(e) => Err(e),
        }
    }
}

/// Once writing a sector fails, writing the track fails in the same way.
pub proof fn lemma_stx_sectors_err(
    sectors: Seq<StxSector>,
    m: nat,
    n: nat,
    track_data: Seq<u8>,
    turrican: bool,
    timing: Option<Seq<u16>>,
)
    requires
        m <= n,
        stx_sectors(sectors, m, track_data, turrican, timing) is Err,
    ensures
        stx_sectors(sectors, n, track_data, turrican, timing) == stx_sectors(
            sectors,
            m,
            track_data,
            turrican,
            timing,
        ),
    decreases n - m,
{
    if m < n {
        lemma_stx_sectors_err(sectors, m, (n - 1) as nat, track_data, turrican, timing);
    }
}

#[verifier::opaque]
/// The whole track: all sectors, then the gap that fills it up to `track_length` MFM words;
/// the last run also covers that gap.
pub open spec fn stx_generate(
    sectors: Seq<StxSector>,
    track_data: Seq<u8>,
    turrican: bool,
    timing: Option<Seq<u16>>,
    track_length: nat,
) -> Result<StxGen, ImageError> {
    match stx_sectors(sectors, sectors.len(), track_data, turrican, timing) {
        Err(e) => Err(e),
        Ok(g) => {
            let len = item_bytes(g.items);
            if len > 2 * track_length {
                Err(ImageError::Implausible)
            } else if g.deviation.len() == 0 {
                Err(ImageError::Implausible)
            } else {
                let items = g.items + gap_items(((2 * track_length - len) / 2) as nat, 0x4e);
                let last = g.deviation.last();
                let grown = SectorTiming {
                    number_of_raw_bytes: (last.number_of_raw_bytes + (item_bytes(items) - g.pushed)) as usize,
                    ..last
                };
                Ok(StxGen { items, deviation: g.deviation.update(g.deviation.len() - 1, grown), ..g })
            }
        },
    }
}

/// Appends the items `new` to those written so far.
fn emit(
    encoder: &mut MfmEncoder,
    cells: &mut Vec<Bit>,
    Ghost(items): Ghost<Seq<MfmItem>>,
    new: &Vec<MfmItem>,
)
    requires
        old(cells)@ == items_cells(false, items),
        old(encoder)@ == items_last(false, items),
        forall|i: int| 0 <= i < new@.len() ==> item_ok(#[trigger] new@[i]),
    ensures
        final(cells)@ == items_cells(false, items + new@),
        final(encoder)@ == items_last(false, items + new@),
        final(cells)@.len() >= old(cells)@.len(),
{
    encoder.feed_items(new.as_slice(), cells);
    proof {
        crate::mfm::lemma_items_append(false, items, new@);
    }
}

proof fn lemma_plain_ok(s: Seq<MfmItem>)
    requires
        plain_items(s),
    ensures
        forall|i: int| 0 <= i < s.len() ==> item_ok(#[trigger] s[i]),
{
    assert forall|i: int| 0 <= i < s.len() implies item_ok(#[trigger] s[i]) by {
        assert(s[i] is Enc8 || s[i] is Sync);
    }
}

/// The items of Turrican's sector 0, in four parts.
fn turrican_parts(sector: &StxSector) -> (r: (Vec<MfmItem>, Vec<MfmItem>, Vec<MfmItem>, Vec<MfmItem>))
    ensures
        r.0@ + r.1@ + r.2@ + r.3@ == turrican_items(*sector),
        forall|i: int| 0 <= i < r.0@.len() ==> item_ok(#[trigger] r.0@[i]),
        forall|i: int| 0 <= i < r.1@.len() ==> item_ok(#[trigger] r.1@[i]),
        forall|i: int| 0 <= i < r.2@.len() ==> item_ok(#[trigger] r.2@[i]),
        forall|i: int| 0 <= i < r.3@.len() ==> item_ok(#[trigger] r.3@[i]),
{
    let mut a: Vec<MfmItem> = Vec::new();
    push_sectorheader(&mut a, GAP2_SIZE, sector.idam_track, sector.idam_head, 0, sector.idam_size);
    push_gap(&mut a, GAP3A_SIZE, 0x4e);
    push_data_header(&mut a, GAP3B_SIZE, None);
    push_sectorheader(&mut a, 16, sector.idam_track, sector.idam_head, 16, sector.idam_size);
    push_gap(&mut a, 22, 0x4e);
    let mut b: Vec<MfmItem> = Vec::new();
    b.push(MfmItem::RawVar(0x5555 >> 1, 15));
    let mut c: Vec<MfmItem> = Vec::new();
    push_data_header(&mut c, 11, None);
    push_gap(&mut c, 16, 0x00);
    let mut d: Vec<MfmItem> = Vec::new();
    d.push(MfmItem::RawVar(0xa000, 16));
    let mut i: usize = 0;
    while i < 262
        invariant
            i <= 262,
            d@ == seq![MfmItem::RawVar(0xa000, 16)] + Seq::new(i as nat, |k: int| MfmItem::Raw8(0)),
        decreases 262 - i,
    {
        d.push(MfmItem::Raw8(0));
        i = i + 1;
        assert(d@ =~= seq![MfmItem::RawVar(0xa000, 16)] + Seq::new(i as nat, |k: int| MfmItem::Raw8(0)));
    }
    d.push(MfmItem::Raw8(0b1010_1010));
    proof {
        lemma_plain_ok(a@);
        lemma_plain_ok(c@);
        assert(a@ + b@ + c@ + d@ =~= turrican_items(*sector));
    }
    (a, b, c, d)
}

/// The header items of a normal sector.
fn stx_header(sector: &StxSector) -> (r: Vec<MfmItem>)
    ensures
        r@ == stx_header_items(*sector),
        forall|i: int| 0 <= i < r@.len() ==> item_ok(#[trigger] r@[i]),
{
    let mut a: Vec<MfmItem> = Vec::new();
    push_gap(&mut a, GAP2_SIZE, 0);
    push_sync3(&mut a);
    let header: [u8; 7] = [
        ISO_IDAM,
        sector.idam_track,
        sector.idam_head,
        sector.idam_sector,
        sector.idam_size,
        (sector.idam_crc >> 8) as u8,
        (sector.idam_crc & 0xff) as u8,
    ];
    push_bytes(&mut a, &header);
    push_gap(&mut a, GAP3A_SIZE, 0x4e);
    push_data_header(&mut a, GAP3B_SIZE, None);
    proof {
        lemma_plain_ok(a@);
        assert(a@ =~= stx_header_items(*sector));
    }
    a
}

/// A track being written: the encoder, its cells, the runs of cell sizes and what the
/// generation needs to remember.
pub struct StxWriter {
    encoder: MfmEncoder,
    cells: Vec<Bit>,
    items: Ghost<Seq<MfmItem>>,
    deviation: Vec<SectorTiming>,
    pushed: usize,
    offset: Option<usize>,
    nfra: bool,
}

impl StxWriter {
    pub closed spec fn wf(&self) -> bool {
        &&& self.cells@ == items_cells(false, self.items@)
        &&& self.encoder@ == items_last(false, self.items@)
        &&& self.pushed <= self.cells@.len() / 8
        &&& run_total(self.deviation@) == self.pushed
        &&& forall|i: int|
            0 <= i < self.deviation@.len() ==> #[trigger] self.deviation@[i].number_of_raw_bytes
                <= self.pushed
    }

    pub closed spec fn state(&self) -> StxGen {
        StxGen {
            items: self.items@,
            deviation: self.deviation@,
            pushed: self.pushed as nat,
            offset: match self.offset {
                Some(o) => Some(o as int),
                None => None,
            },
            nfra: self.nfra,
        }
    }

    fn new() -> (r: Self)
        ensures
            r.wf(),
            r.state() == (StxGen {
                items: Seq::empty(),
                deviation: Seq::empty(),
                pushed: 0,
                offset: None,
                nfra: false,
            }),
    {
        StxWriter {
            encoder: MfmEncoder::new(),
            cells: Vec::new(),
            items: Ghost(Seq::empty()),
            deviation: Vec::new(),
            pushed: 0,
            offset: None,
            nfra: false,
        }
    }

    /// Appends the items `new`.
    fn emit(&mut self, new: &Vec<MfmItem>)
        requires
            old(self).wf(),
            forall|i: int| 0 <= i < new@.len() ==> item_ok(#[trigger] new@[i]),
        ensures
            final(self).wf(),
            final(self).state() == (StxGen { items: old(self).state().items + new@, ..old(self).state() }),
    {
        let ghost items = self.items@;
        emit(&mut self.encoder, &mut self.cells, Ghost(items), new);
        self.items = Ghost(items + new@);
    }

    /// Adds a run covering the cell bytes written since the last one.
    fn push_run(&mut self, timing: CellTiming)
        requires
            old(self).wf(),
        ensures
            final(self).wf(),
            final(self).state() == push_run(old(self).state(), timing),
    {
        let now = self.cells.len() / 8;
        let ghost before = self.deviation@;
        self.deviation.push(SectorTiming { number_of_raw_bytes: now - self.pushed, timing });
        assert(self.deviation@.drop_last() =~= before);
        self.pushed = now;
    }

    /// The data of a sector whose cell width varies: chunks of 16 bytes, each followed by a
    /// run with its timing value, then the checksum.
    fn write_chunks(&mut self, sector_data: &[u8], timing_data: &Vec<u16>)
        requires
            old(self).wf(),
            sector_data@.len() / 16 == timing_data@.len(),
        ensures
            final(self).wf(),
            ({
                let g3 = stx_chunks(old(self).state(), sector_data@, timing_data@, timing_data@.len());
                final(self).state() == (StxGen {
                    items: g3.items + crc_items(iso_data_crc(sector_data@, None)),
                    ..g3
                })
            }),
    {
        let ghost g2 = self.state();
        let mut i: usize = 0;
        while i < timing_data.len()
            invariant
                i <= timing_data@.len(),
                sector_data@.len() / 16 == timing_data@.len(),
                self.wf(),
                stx_chunks(g2, sector_data@, timing_data@, i as nat) == self.state(),
            decreases timing_data@.len() - i,
        {
            let sd_len = sector_data.len();
            assert(16 * i + 16 <= sector_data@.len()) by (nonlinear_arith)
                requires
                    i < sector_data@.len() / 16,
            ;
            let mut chunk: Vec<MfmItem> = Vec::new();
            push_bytes(&mut chunk, &sector_data[16 * i..16 * i + 16]);
            proof {
                lemma_plain_ok(chunk@);
            }
            self.emit(&chunk);
            self.push_run(CellTiming::TimingValue(timing_data[i]));
            i = i + 1;
        }
        let crc = data_crc(sector_data, ISO_DAM);
        let mut tail: Vec<MfmItem> = Vec::new();
        tail.push(MfmItem::Enc8((crc >> 8) as u8));
        tail.push(MfmItem::Enc8((crc & 0xff) as u8));
        assert(tail@ =~= crc_items(iso_data_crc(sector_data@, None)));
        self.emit(&tail);
    }

    /// Writes the gap before a sector, as [`stx_place`] says.
    fn place(&mut self, sector: &StxSector, nsectors: usize) -> (r: Result<(), ImageError>)
        requires
            old(self).wf(),
        ensures
            match stx_place(old(self).state(), *sector, nsectors as nat) {
                Some(g) => r is Ok && final(self).wf() && final(self).state() == g,
                None => r == Err::<(), ImageError>(ImageError::Implausible),
            },
    {
        reveal(stx_place);
        let off: usize = match self.offset {
            Some(o) => o,
            None => if nsectors == 1 {
                0
            } else {
                sector.bit_position / 4
            },
        };
        if sector.bit_position / 4 < off {
            return Err(ImageError::Implausible);
        }
        let word_position = sector.bit_position / 4 - off;
        let current = self.cells.len() / 8;
        let ghost g0 = self.state();
        if word_position >= current {
            let mut gap: Vec<MfmItem> = Vec::new();
            push_gap(&mut gap, (word_position - current) / 2, 0x4e);
            proof {
                lemma_plain_ok(gap@);
            }
            self.emit(&gap);
        } else {
            assert(g0.items + Seq::<MfmItem>::empty() == g0.items);
        }
        self.offset = Some(off);
        Ok(())
    }

    /// Writes a sector after its gap, as [`stx_body`] says.
    fn write_body(
        &mut self,
        sector: &StxSector,
        track_data: &[u8],
        turrican: bool,
        timing: &Option<Vec<u16>>,
    ) -> (r: Result<(), ImageError>)
        requires
            old(self).wf(),
        ensures
            match stx_body(
                old(self).state(),
                *sector,
                track_data@,
                turrican,
                match timing {
                    Some(t) => Some(t@),
                    None => None,
                },
            ) {
                Ok(g) => r is Ok && final(self).wf() && final(self).state() == g,
                Err(e) => r == Err::<(), ImageError>(e),
            },
    {
        reveal(stx_body);
        if turrican && sector.idam_sector == 0 {
            let (a, b, c, d) = turrican_parts(sector);
            let ghost before = self.state().items;
            self.emit(&a);
            self.emit(&b);
            self.emit(&c);
            self.emit(&d);
            assert(self.state().items =~= before + turrican_items(*sector));
            self.nfra = true;
            assert(self.state() == (StxGen {
                items: old(self).state().items + turrican_items(*sector),
                nfra: true,
                ..old(self).state()
            }));
            return Ok(());
        }
        if sector.data_offset > track_data.len() || track_data.len() - sector.data_offset
            < sector.sector_size {
            return Err(ImageError::OutOfBounds);
        }
        let sector_data = &track_data[sector.data_offset..sector.data_offset + sector.sector_size];
        let ghost data = track_data@.subrange(
            sector.data_offset as int,
            sector.data_offset + sector.sector_size,
        );
        assert(sector_data@ == data);
        let ghost g1 = self.state();
        let header = stx_header(sector);
        self.emit(&header);
        let ghost g2 = StxGen { items: g1.items + stx_header_items(*sector), ..g1 };
        assert(self.state() == g2);
        if sector.fdc_flags & FDC_FLAG_INTRA_SECTOR_BIT_WIDTH_VARIATION != 0 {
            let timing_data = match timing {
                Some(t) => t,
                None => {
                    return Err(ImageError::Implausible);
                },
            };
            if sector_data.len() / 16 != timing_data.len() {
                return Err(ImageError::Implausible);
            }
            self.write_chunks(sector_data, timing_data);
            assert(timing_data@.len() == sector_data@.len() / 16);
            let ghost g3 = stx_chunks(g2, data, timing_data@, timing_data@.len());
            assert(self.state() == (StxGen { items: g3.items + crc_items(iso_data_crc(data, None)), ..g3 }));
        } else if sector.fdc_flags & 0x18 == FDC_FLAG_CRC_ERROR {
            let crc = data_crc(sector_data, ISO_DAM);
            let broken: u16 = ((crc as u32 + 0x1212) % 0x10000) as u16;
            let mut body: Vec<MfmItem> = Vec::new();
            push_bytes(&mut body, sector_data);
            body.push(MfmItem::Enc8((broken >> 8) as u8));
            body.push(MfmItem::Enc8((broken & 0xff) as u8));
            assert(body@ =~= iso_broken_data_items(sector_data@));
            assert forall|i: int| 0 <= i < body@.len() implies item_ok(#[trigger] body@[i]) by {}
            self.emit(&body);
            assert(self.state().items =~= g2.items + iso_broken_data_items(data));
        } else {
            let mut body: Vec<MfmItem> = Vec::new();
            push_data_with_crc(&mut body, sector_data, None);
            assert(body@ =~= iso_data_items(sector_data@, None));
            proof {
                lemma_plain_ok(body@);
            }
            self.emit(&body);
            assert(self.state().items =~= g2.items + iso_data_items(data, None));
        }
        Ok(())
    }

    /// Writes one sector, as [`stx_step`] says.
    fn write_sector(
        &mut self,
        sector: &StxSector,
        nsectors: usize,
        track_data: &[u8],
        turrican: bool,
        timing: &Option<Vec<u16>>,
    ) -> (r: Result<(), ImageError>)
        requires
            old(self).wf(),
        ensures
            match stx_step(
                old(self).state(),
                *sector,
                nsectors as nat,
                track_data@,
                turrican,
                match timing {
                    Some(t) => Some(t@),
                    None => None,
                },
            ) {
                Ok(g) => r is Ok && final(self).wf() && final(self).state() == g,
                Err(e) => r == Err::<(), ImageError>(e),
            },
    {
        if turrican && sector.idam_sector == 16 {
            return Ok(());
        }
        let cell_timing = if sector.read_time == 0 {
            CellTiming::Nominal
        } else {
            CellTiming::ReadTime { read_time: sector.read_time, sector_size: sector.sector_size }
        };
        match self.place(sector, nsectors) {
            Ok(()) => {},
            Err(e) => {
                return Err(e);
            },
        }
        match self.write_body(sector, track_data, turrican, timing) {
            Ok(()) => {},
            Err(e) => {
                return Err(e);
            },
        }
        self.push_run(cell_timing);
        Ok(())
    }
}

/// Writes a track from its sectors, ordered by their position, as [`stx_generate`] says;
/// returns the cell bytes, the runs of cell sizes and whether an area without flux reversals
/// was written.
pub fn generate_stx_track(
    sectors: &Vec<StxSector>,
    track_data: &[u8],
    turrican: bool,
    timing: &Option<Vec<u16>>,
    track_length: u16,
) -> (r: Result<(Vec<u8>, Vec<SectorTiming>, bool), ImageError>)
    ensures
        match stx_generate(
            sectors@,
            track_data@,
            turrican,
            match timing {
                Some(t) => Some(t@),
                None => None,
            },
            track_length as nat,
        ) {
            Ok(g) => (r matches Ok((raw, dev, nfra)) && {
                &&& bytes_cells(raw@) == items_cells(false, g.items).take(8 * item_bytes(g.items) as int)
                &&& dev@ == g.deviation
                &&& nfra == g.nfra
                &&& run_total(dev@) == raw@.len()
            }),
            Err(e) => r == Err::<(Vec<u8>, Vec<SectorTiming>, bool), ImageError>(e),
        },
{
    reveal(stx_generate);
    let ghost timing_spec = match timing {
        Some(t) => Some(t@),
        None => None,
    };
    let mut w = StxWriter::new();
    let mut k: usize = 0;
    while k < sectors.len()
        invariant
            k <= sectors@.len(),
            w.wf(),
            timing_spec == match timing {
                Some(t) => Some(t@),
                None => None,
            },
            stx_sectors(sectors@, k as nat, track_data@, turrican, timing_spec) == Ok::<StxGen, ImageError>(w.state()),
        decreases sectors@.len() - k,
    {
        assert(stx_sectors(sectors@, (k + 1) as nat, track_data@, turrican, timing_spec) == stx_step(
            w.state(),
            sectors@[k as int],
            sectors@.len(),
            track_data@,
            turrican,
            timing_spec,
        ));
        let ghost before = w.state();
        let sector: StxSector = sectors[k];
        proof {
            reveal(stx_generate);
        }
        match w.write_sector(&sector, sectors.len(), track_data, turrican, timing) {
            Ok(()) => {
                assert(sector == sectors@[k as int]);
                assert(stx_step(before, sector, sectors@.len(), track_data@, turrican, timing_spec) == Ok::<
                    StxGen,
                    ImageError,
                >(w.state()));
                assert(stx_sectors(sectors@, (k + 1) as nat, track_data@, turrican, timing_spec) == Ok::<
                    StxGen,
                    ImageError,
                >(w.state()));
            },
            Err(e) => {
                proof {
                    lemma_stx_sectors_err(
                        sectors@,
                        (k + 1) as nat,
                        sectors@.len(),
                        track_data@,
                        turrican,
                        timing_spec,
                    );
                }
                return Err(e);
            },
        }
        k = k + 1;
    }
    let len = w.cells.len() / 8;
    if len > 2 * (track_length as usize) {
        return Err(ImageError::Implausible);
    }
    if w.deviation.len() == 0 {
        return Err(ImageError::Implausible);
    }
    let ghost g = w.state();
    let mut gap: Vec<MfmItem> = Vec::new();
    push_gap(&mut gap, (2 * (track_length as usize) - len) / 2, 0x4e);
    proof {
        lemma_plain_ok(gap@);
    }
    w.emit(&gap);
    let last_index = w.deviation.len() - 1;
    let last = w.deviation[last_index];
    let now = w.cells.len() / 8;
    let mut deviation = w.deviation;
    let ghost before = deviation@;
    let grown = SectorTiming { number_of_raw_bytes: last.number_of_raw_bytes + (now - w.pushed), ..last };
    deviation.set(last_index, grown);
    proof {
        lemma_run_total_update_last(before, grown);
        assert(deviation@ == before.update(before.len() - 1, grown));
    }
    let raw = pack_cells(w.cells.as_slice());
    Ok((raw, deviation, w.nfra))
}

/// The optional track image lies within the track data: its size follows its header.
pub open spec fn stx_track_image_ok(b: Seq<u8>, data_start: int, flags: u16, track_data_len: int) -> bool {
    if flags & 0x40u16 == 0 {
        true
    } else if flags & 0x80u16 == 0 {
        data_start + 2 <= b.len() && 2 + le16(b, data_start) <= track_data_len
    } else {
        data_start + 4 <= b.len() && 4 + le16(b, data_start + 2) <= track_data_len
    }
}

/// The timing values at the end of a track record, where its sectors need `tds` bytes.
pub open spec fn stx_timing_of(b: Seq<u8>, data_end: int, next: int, tds: int) -> Result<
    Option<Seq<u16>>,
    ImageError,
> {
    if tds == 0 {
        Ok(None)
    } else if next > b.len() {
        Err(ImageError::OutOfBounds)
    } else {
        match stx_timing(b.subrange(data_end, next)) {
            Err(e) => Err(e),
            Ok(t) => if t.len() * 2 != tds {
                Err(ImageError::Implausible)
            } else {
                Ok(Some(t))
            },
        }
    }
}

#[verifier::opaque]
/// The track record at `pos`: its track (cylinder, head and how it is written) unless it is
/// empty, and where the next record starts.
pub open spec fn stx_track_record(b: Seq<u8>, pos: int, turrican: bool, revision: u8) -> Result<
    (Option<(u32, u32, StxGen)>, int),
    ImageError,
> {
    if pos + 16 > b.len() {
        Err(ImageError::OutOfBounds)
    } else {
        let record_size = le32(b, pos) as int;
        let fuzzy = le32(b, pos + 4) as int;
        let sc = le16(b, pos + 8) as int;
        let flags = le16(b, pos + 10);
        let track_length = le16(b, pos + 12);
        let track_number = b[pos + 14];
        let data_start = pos + 16 + 16 * sc + fuzzy;
        let next = record_size + pos;
        match stx_descriptors(b, pos + 16, sc as nat) {
            Err(e) => Err(e),
            Ok(descs) => {
                let tds = timing_size(descs) as int;
                let trs = if tds > 0 {
                    tds + 4
                } else {
                    0
                };
                if tds > 0 && revision != 2 {
                    Err(ImageError::Unsupported)
                } else if trs > next {
                    Err(ImageError::Implausible)
                } else if !(data_start <= next - trs <= b.len()) {
                    Err(ImageError::OutOfBounds)
                } else {
                    let data_end = next - trs;
                    let track_data = b.subrange(data_start, data_end);
                    match stx_timing_of(b, data_end, next, tds) {
                        Err(e) => Err(e),
                        Ok(timing) => if !stx_track_image_ok(
                            b,
                            data_start,
                            flags,
                            track_data.len() as int,
                        ) {
                            Err(ImageError::OutOfBounds)
                        } else if sc == 0 {
                            Ok((None, next))
                        } else if flags & 1u16 == 0 {
                            Err(ImageError::Unsupported)
                        } else {
                            match stx_generate(
                                sort_by_key(descs),
                                track_data,
                                turrican,
                                timing,
                                track_length as nat,
                            ) {
                                Err(e) => Err(e),
                                Ok(g) => Ok(
                                    (
                                        Some(
                                            (
                                                (track_number & 0x7fu8) as u32,
                                                (track_number >> 7u8) as u32,
                                                g,
                                            ),
                                        ),
                                        next,
                                    ),
                                ),
                            }
                        },
                    }
                }
            },
        }
    }
}

proof fn lemma_track_number_bits(x: u8)
    by (bit_vector)
    ensures
        ((x & 0x7fu8) as u32) == (x as u32) % 128,
        ((x >> 7u8) as u32) == (x as u32) / 128,
{
}

/// The cylinder and head of a track record: bit 7 of the record's track number byte (at
/// offset 14) is the side, its low seven bits are the cylinder. So a cylinder is below 128
/// and a head is 0 or 1.
pub proof fn lemma_stx_record_position(b: Seq<u8>, pos: int, turrican: bool, revision: u8)
    requires
        0 <= pos,
    ensures
        stx_track_record(b, pos, turrican, revision) matches Ok((Some((c, h, _)), _)) ==> {
            &&& 0 <= pos && pos + 16 <= b.len()
            &&& c == b[pos + 14] % 128
            &&& h == b[pos + 14] / 128
            &&& c < 128
            &&& h < 2
        },
{
    reveal(stx_track_record);
    if pos + 16 <= b.len() {
        lemma_track_number_bits(b[pos + 14]);
        assert(b[pos + 14] as u32 % 128 < 128);
    }
}

/// The track number byte of a record at `p` of `b` names cylinder `c` and head `h`.
pub open spec fn record_names(b: Seq<u8>, p: int, c: u32, h: u32) -> bool {
    &&& 0 <= p && p + 16 <= b.len()
    &&& c == b[p + 14] % 128
    &&& h == b[p + 14] / 128
}

/// Some record of `b` names cylinder `c` and head `h`.
pub open spec fn named_by_record(b: Seq<u8>, c: u32, h: u32) -> bool {
    exists|p: int| #[trigger] record_names(b, p, c, h)
}

/// Every track of an STX file sits at the cylinder and head that the track number byte of
/// one of its records gives: the low seven bits and bit 7.
pub proof fn lemma_stx_tracks_positions(b: Seq<u8>, pos: int, n: nat, turrican: bool, revision: u8)
    requires
        0 <= pos,
    ensures
        stx_records(b, pos, n, turrican, revision) matches Ok(ts) ==> forall|i: int|
            0 <= i < ts.len() ==> #[trigger] named_by_record(b, ts[i].0, ts[i].1),
    decreases n,
{
    if n > 0 {
        lemma_stx_record_position(b, pos, turrican, revision);
        match stx_track_record(b, pos, turrican, revision) {
            Err(e) => {},
            Ok((opt, next)) => {
                assert(next >= pos) by {
                    reveal(stx_track_record);
                }
                lemma_stx_tracks_positions(b, next, (n - 1) as nat, turrican, revision);
                match stx_records(b, next, (n - 1) as nat, turrican, revision) {
                    Err(e) => {},
                    Ok(rest) => {
                        match opt {
                            Some(t) => {
                                let ts = seq![t] + rest;
                                assert forall|i: int| 0 <= i < ts.len() implies #[trigger] named_by_record(
                                    b,
                                    ts[i].0,
                                    ts[i].1,
                                ) by {
                                    if i == 0 {
                                        assert(record_names(b, pos, ts[0].0, ts[0].1));
                                    } else {
                                        assert(ts[i] == rest[i - 1]);
                                    }
                                }
                            },
                            None => {},
                        }
                    },
                }
            },
        }
    }
}

/// A track of the library holds what the generation gave for it.
pub open spec fn stx_track_matches(t: StxTrack, cylinder: u32, head: u32, g: StxGen) -> bool {
    &&& t.cylinder == cylinder
    &&& t.head == head
    &&& bytes_cells(t.raw_data@) == items_cells(false, g.items).take(8 * item_bytes(g.items) as int)
    &&& t.deviation_map@ == g.deviation
    &&& t.has_non_flux_reversal_area == g.nfra
    &&& run_total(t.deviation_map@) == t.raw_data@.len()
}

/// Reads the track record at `pos`, as [`stx_track_record`] says; `file_hash` is the MD5
/// digest of the whole file.
#[verifier::rlimit(60)]
pub fn process_track_record(buffer: &[u8], pos: u64, file_hash: &[u8], revision: u8) -> (r: Result<
    (Option<StxTrack>, u64),
    ImageError,
>)
    requires
        buffer@.len() <= isize::MAX,
    ensures
        match stx_track_record(buffer@, pos as int, file_hash@ == turrican_digest(), revision) {
            Err(e) => r == Err::<(Option<StxTrack>, u64), ImageError>(e),
            Ok((None, next)) => (r matches Ok((None, n)) && n == next),
            Ok((Some((c, h, g)), next)) => (r matches Ok((Some(t), n)) && n == next
                && stx_track_matches(t, c, h, g)),
        },
        r matches Ok((_, n)) ==> n <= pos + 0xffff_ffff,
        r matches Ok((Some(t), _)) ==> {
            &&& pos + 16 <= buffer@.len()
            &&& t.cylinder == buffer@[pos + 14] % 128
            &&& t.head == buffer@[pos + 14] / 128
            &&& t.cylinder < 128
            &&& t.head < 2
        },
{
    reveal(stx_track_record);
    proof {
        lemma_stx_record_position(buffer@, pos as int, file_hash@ == turrican_digest(), revision);
    }
    let len = buffer.len() as u64;
    if pos > len || len - pos < 16 {
        return Err(ImageError::OutOfBounds);
    }
    let p = pos as usize;
    let record_size = read_le32(buffer, p).unwrap() as u64;
    let fuzzy_count = read_le32(buffer, p + 4).unwrap() as u64;
    let sector_count = read_le16(buffer, p + 8).unwrap() as u64;
    let track_flags = read_le16(buffer, p + 10).unwrap();
    let track_length = read_le16(buffer, p + 12).unwrap();
    let track_number = buffer[p + 14];
    let track_data_start: u64 = pos + 16 + 16 * sector_count + fuzzy_count;
    let next_track_record_offset: u64 = record_size + pos;
    let (sectors, timing_data_size) = match read_sector_descriptors(buffer, p + 16, sector_count as usize) {
        Ok(v) => v,
        Err(e) => {
            return Err(e);
        },
    };
    if timing_data_size > 0 && revision != 2 {
        return Err(ImageError::Unsupported);
    }
    let optional_timing_record_size: u64 = if timing_data_size > 0 {
        timing_data_size + 4
    } else {
        0
    };
    if optional_timing_record_size > next_track_record_offset {
        return Err(ImageError::Implausible);
    }
    let track_data_end = next_track_record_offset - optional_timing_record_size;
    if !(track_data_start <= track_data_end && track_data_end <= len) {
        return Err(ImageError::OutOfBounds);
    }
    let track_data = &buffer[track_data_start as usize..track_data_end as usize];
    let optional_timing_data: Option<Vec<u16>> = if timing_data_size > 0 {
        if next_track_record_offset > len {
            return Err(ImageError::OutOfBounds);
        }
        let record = &buffer[track_data_end as usize..next_track_record_offset as usize];
        let timing_data = match read_timing_record(record) {
            Ok(t) => t,
            Err(e) => {
                return Err(e);
            },
        };
        if timing_data.len() as u64 * 2 != timing_data_size {
            return Err(ImageError::Implausible);
        }
        Some(timing_data)
    } else {
        None
    };
    if track_flags & TRK_IMAGE != 0 {
        let ds = track_data_start as usize;
        let (track_image_start, size_at): (usize, usize) = if track_flags & TRK_SYNC == 0 {
            (2, ds)
        } else {
            (4, ds + 2)
        };
        if (track_flags & TRK_SYNC) != 0 && len - track_data_start < 2 {
            return Err(ImageError::OutOfBounds);
        }
        let track_image_size = match read_le16(buffer, size_at) {
            Some(v) => v as usize,
            None => {
                return Err(ImageError::OutOfBounds);
            },
        };
        if track_image_start + track_image_size > track_data.len() {
            return Err(ImageError::OutOfBounds);
        }
    }
    if sector_count == 0 {
        return Ok((None, next_track_record_offset));
    }
    if track_flags & TRK_SECT == 0 {
        return Err(ImageError::Unsupported);
    }
    let turrican = is_turrican(file_hash);
    let (raw, deviation, nfra) = match generate_stx_track(
        &sectors,
        track_data,
        turrican,
        &optional_timing_data,
        track_length,
    ) {
        Ok(v) => v,
        Err(e) => {
            return Err(e);
        },
    };
    let track = StxTrack {
        cylinder: (track_number & 0x7f) as u32,
        head: (track_number >> 7) as u32,
        raw_data: raw,
        deviation_map: deviation,
        has_non_flux_reversal_area: nfra,
    };
    Ok((Some(track), next_track_record_offset))
}

/// The tracks of the `n` track records from `pos` on, leaving out empty ones.
pub open spec fn stx_records(b: Seq<u8>, pos: int, n: nat, turrican: bool, revision: u8) -> Result<
    Seq<(u32, u32, StxGen)>,
    ImageError,
>
    decreases n,
{
    if n == 0 {
        Ok(Seq::empty())
    } else {
        match stx_track_record(b, pos, turrican, revision) {
            Err(e) => Err(e),
            Ok((opt, next)) => match stx_records(b, next, (n - 1) as nat, turrican, revision) {
                Err(e) => Err(e),
                Ok(rest) => Ok(
                    match opt {
                        Some(t) => seq![t] + rest,
                        None => rest,
                    },
                ),
            },
        }
    }
}

/// The tracks of an STX file, in the order of their records: the file starts with `RSY\0`
/// and a descriptor of Pasti version 3 that gives the number of track records.
pub open spec fn stx_file(b: Seq<u8>, turrican: bool) -> Result<Seq<(u32, u32, StxGen)>, ImageError> {
    if b.len() < 4 {
        Err(ImageError::OutOfBounds)
    } else if b.take(4) != seq![0x52u8, 0x53u8, 0x59u8, 0x00u8] {
        Err(ImageError::BadSignature)
    } else if b.len() < 16 {
        Err(ImageError::OutOfBounds)
    } else if le16(b, 4) != 3 {
        Err(ImageError::Unsupported)
    } else {
        stx_records(b, 16, b[10] as nat, turrican, b[11])
    }
}

/// The tracks of an STX (Pasti) image, ordered by cylinder; their cell sizes are given by
/// where they come from.
pub fn parse_stx_image(buffer: &[u8]) -> (r: Result<Vec<StxTrack>, ImageError>)
    requires
        buffer@.len() <= isize::MAX,
    ensures
        match stx_file(buffer@, md5_digest(buffer@) == turrican_digest()) {
            Err(e) => r == Err::<Vec<StxTrack>, ImageError>(e),
            Ok(ts) => (r matches Ok(v) && exists|u: Seq<StxTrack>|
                {
                    &&& u.len() == ts.len()
                    &&& forall|i: int|
                        0 <= i < u.len() ==> stx_track_matches(
                            #[trigger] u[i],
                            ts[i].0,
                            ts[i].1,
                            ts[i].2,
                        )
                    &&& v@ == sort_by_key(u)
                }),
        },
        r matches Ok(v) ==> forall|i: int|
            0 <= i < v@.len() ==> {
                &&& #[trigger] v@[i].cylinder < 128
                &&& v@[i].head < 2
                &&& named_by_record(buffer@, v@[i].cylinder, v@[i].head)
            },
{
    let file_hash = md5_compute(buffer);
    let ghost turrican = md5_digest(buffer@) == turrican_digest();
    if buffer.len() < 4 {
        return Err(ImageError::OutOfBounds);
    }
    if !(buffer[0] == 0x52 && buffer[1] == 0x53 && buffer[2] == 0x59 && buffer[3] == 0x00) {
        assert(buffer@.take(4) != seq![0x52u8, 0x53u8, 0x59u8, 0x00u8]) by {
            if buffer@.take(4) == seq![0x52u8, 0x53u8, 0x59u8, 0x00u8] {
                assert(buffer@.take(4)[0] == buffer@[0]);
                assert(buffer@.take(4)[1] == buffer@[1]);
                assert(buffer@.take(4)[2] == buffer@[2]);
                assert(buffer@.take(4)[3] == buffer@[3]);
            }
        }
        return Err(ImageError::BadSignature);
    }
    assert(buffer@.take(4) =~= seq![0x52u8, 0x53u8, 0x59u8, 0x00u8]);
    if buffer.len() < 16 {
        return Err(ImageError::OutOfBounds);
    }
    let version = read_le16(buffer, 4).unwrap();
    if version != 3 {
        return Err(ImageError::Unsupported);
    }
    let track_count = buffer[10];
    let revision = buffer[11];
    let ghost goal = stx_records(buffer@, 16, track_count as nat, turrican, revision);
    assert(stx_file(buffer@, turrican) == goal);
    let ghost mut done: Seq<(u32, u32, StxGen)> = Seq::empty();
    let mut tracks: Vec<StxTrack> = Vec::new();
    let mut pos: u64 = 16;
    let mut i: u8 = 0;
    while i < track_count
        invariant
            i <= track_count,
            buffer@.len() <= isize::MAX,
            stx_file(buffer@, turrican) == goal,
            file_hash@ == md5_digest(buffer@),
            turrican == (md5_digest(buffer@) == turrican_digest()),
            pos <= 16 + (i as int) * 0x1_0000_0000,
            tracks@.len() == done.len(),
            forall|k: int|
                0 <= k < tracks@.len() ==> {
                    &&& #[trigger] tracks@[k].cylinder < 128
                    &&& tracks@[k].head < 2
                    &&& named_by_record(buffer@, tracks@[k].cylinder, tracks@[k].head)
                },
            forall|k: int|
                0 <= k < done.len() ==> stx_track_matches(
                    #[trigger] tracks@[k],
                    done[k].0,
                    done[k].1,
                    done[k].2,
                ),
            goal == match stx_records(buffer@, pos as int, (track_count - i) as nat, turrican, revision) {
                Ok(rest) => Ok(done + rest),
                Err(e) => Err::<Seq<(u32, u32, StxGen)>, ImageError>(e),
            },
        decreases track_count - i,
    {
        let ghost rest_after = stx_track_record(buffer@, pos as int, turrican, revision);
        let ghost done_old = done;
        match process_track_record(buffer, pos, &file_hash, revision) {
            Err(e) => {
                assert(stx_records(buffer@, pos as int, (track_count - i) as nat, turrican, revision)
                    == Err::<Seq<(u32, u32, StxGen)>, ImageError>(e));
                return Err(e);
            },
            Ok((optional_track, next)) => {
                proof {
                    assert(stx_records(buffer@, pos as int, (track_count - i) as nat, turrican, revision)
                        == match stx_records(buffer@, next as int, (track_count - i - 1) as nat, turrican, revision) {
                        Err(e) => Err(e),
                        Ok(rest) => Ok(
                            match rest_after {
                                Ok((Some(t), _)) => seq![t] + rest,
                                _ => rest,
                            },
                        ),
                    });
                }
                match optional_track {
                    Some(track) => {
                        proof {
                            let t = match rest_after {
                                Ok((Some(t), _)) => t,
                                _ => arbitrary(),
                            };
                            done = done.push(t);
                            match stx_records(buffer@, next as int, (track_count - i - 1) as nat, turrican, revision) {
                                Ok(rest) => {
                                    assert(done.drop_last() + (seq![t] + rest) == done + rest);
                                },
                                Err(e) => {},
                            }
                        }
                        proof {
                            assert(record_names(buffer@, pos as int, track.cylinder, track.head));
                        }
                        tracks.push(track);
                    },
                    None => {
                        assert(rest_after matches Ok((None, _)));
                    },
                }
                proof {
                    match stx_records(buffer@, next as int, (track_count - i - 1) as nat, turrican, revision) {
                        Ok(rest) => {
                            let old_rest = match rest_after {
                                Ok((Some(t), _)) => seq![t] + rest,
                                _ => rest,
                            };
                            assert(done_old + old_rest =~= done + rest);
                        },
                        Err(e) => {},
                    }
                }
                assert(goal == match stx_records(
                    buffer@,
                    next as int,
                    (track_count - i - 1) as nat,
                    turrican,
                    revision,
                ) {
                    Ok(rest) => Ok(done + rest),
                    Err(e) => Err::<Seq<(u32, u32, StxGen)>, ImageError>(e),
                });
                pos = next;
            },
        }
        i = i + 1;
    }
    assert(done + Seq::<(u32, u32, StxGen)>::empty() == done);
    let ghost unsorted = tracks@;
    let sorted = stable_sort_by_key(tracks);
    proof {
        lemma_sort_by_key(unsorted);
        unsorted.to_multiset_ensures();
        sorted@.to_multiset_ensures();
        assert forall|i: int| 0 <= i < sorted@.len() implies {
            &&& #[trigger] sorted@[i].cylinder < 128
            &&& sorted@[i].head < 2
            &&& named_by_record(buffer@, sorted@[i].cylinder, sorted@[i].head)
        } by {
            assert(sorted@.contains(sorted@[i]));
            assert(sorted@.to_multiset().count(sorted@[i]) > 0);
            assert(unsorted.contains(sorted@[i]));
            let k = choose|k: int| 0 <= k < unsorted.len() && unsorted[k] == sorted@[i];
            assert(unsorted[k].cylinder < 128);
        }
    }
    Ok(sorted)
}

} // verus!
