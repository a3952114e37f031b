use vstd::prelude::*;

use crate::bitfacts::lemma_xor_facts;
use crate::bitstream::{bytes_cells, pack_cells};
use crate::error::ImageError;
use crate::mfm::{
    item_cell_count, item_ok, items_cells, items_last, lemma_items_append, lemma_items_cells_bytes,
    MfmEncoder, MfmItem,
};
use crate::rawtrack::{RawImage, RawTrack};
use crate::types::{Density, DensityMapEntry, DiskType, Encoding, PulseDuration};
use crate::types::Bit;

verus! {

// Layout of AmigaDOS tracks: http://lclevy.free.fr/adflib/adf_info.html
pub const AMIGA_MFM_MASK: u32 = 0x5555_5555;

pub const SECTORS_PER_TRACK: u32 = 11;

pub const CYLINDERS: u32 = 80;

pub const HEADS: u32 = 2;

pub const BYTES_PER_SECTOR: u32 = 512;

/// The big endian long word number `i` of `d`.
pub open spec fn be_long(d: Seq<u8>, i: int) -> u32 {
    (((d[4 * i] as u32) << 24u32) | ((d[4 * i + 1] as u32) << 16u32) | ((d[4 * i + 2] as u32)
        << 8u32) | (d[4 * i + 3] as u32)) as u32
}

/// The sector header long: `0xff`, track number, sector number and sectors until the end of
/// the track.
pub open spec fn amiga_header(cylinder: u32, head: u32, sector: u32) -> u32 {
    (0xff00_0000u32 | (cylinder << 17u32) | (head << 16u32) | (sector << 8u32) | ((11 - sector) as u32)) as u32
}

/// The checksum contribution of a long: its odd and its even bits, xored.
pub open spec fn amiga_checksum(x: u32) -> u32 {
    ((x >> 1u32) & 0x5555_5555u32) ^ (x & 0x5555_5555u32)
}

/// The checksum of the first `n` longs of `d`.
pub open spec fn data_checksum(d: Seq<u8>, n: nat) -> u32
    decreases n,
{
    if n == 0 {
        0
    } else {
        data_checksum(d, (n - 1) as nat) ^ amiga_checksum(be_long(d, n - 1))
    }
}

/// Encoder items of one AmigaDOS sector: preamble, two sync words, the header with its
/// checksum, the label area, the data checksum, then the odd and the even bits of the data.
pub open spec fn amiga_sector_items(cylinder: u32, head: u32, sector: u32, d: Seq<u8>) -> Seq<
    MfmItem,
> {
    let h = amiga_header(cylinder, head, sector);
    seq![
        MfmItem::Enc8(0),
        MfmItem::Enc8(0),
        MfmItem::Sync,
        MfmItem::Sync,
        MfmItem::Odd(h),
        MfmItem::Even(h),
        MfmItem::Odd(0),
        MfmItem::Odd(0),
        MfmItem::Odd(0),
        MfmItem::Odd(0),
        MfmItem::Even(0),
        MfmItem::Even(0),
        MfmItem::Even(0),
        MfmItem::Even(0),
        MfmItem::Odd(0),
        MfmItem::Even(amiga_checksum(h)),
        MfmItem::Odd(0),
        MfmItem::Even(data_checksum(d, 128)),
    ] + Seq::new(128, |i: int| MfmItem::Odd(be_long(d, i))) + Seq::new(
        128,
        |i: int| MfmItem::Even(be_long(d, i)),
    )
}

/// Encoder items of the first `n` sectors of a track; sector `s` holds the bytes
/// `512 * s .. 512 * s + 512` of `d`.
pub open spec fn amiga_track_items(cylinder: u32, head: u32, d: Seq<u8>, n: nat) -> Seq<MfmItem>
    decreases n,
{
    if n == 0 {
        Seq::empty()
    } else {
        amiga_track_items(cylinder, head, d, (n - 1) as nat) + amiga_sector_items(
            cylinder,
            head,
            (n - 1) as u32,
            d.subrange(512 * (n - 1), 512 * n as int),
        )
    }
}

/// The cells of an AmigaDOS track holding the 11 sectors of `d`.
pub open spec fn amiga_track_cells(cylinder: u32, head: u32, d: Seq<u8>) -> Seq<Bit> {
    items_cells(false, amiga_track_items(cylinder, head, d, 11))
}

fn read_be_long(d: &[u8], i: usize) -> (r: u32)
    requires
        4 * i + 4 <= d@.len(),
    ensures
        r == be_long(d@, i as int),
{
    let _len = d.len();
    let b = 4 * i;
    ((d[b] as u32) << 24) | ((d[b + 1] as u32) << 16) | ((d[b + 2] as u32) << 8) | (d[b + 3] as u32)
}

/// The encoder items of one sector.
fn amiga_sector(cylinder: u32, head: u32, sector: u32, sectordata: &[u8]) -> (items: Vec<MfmItem>)
    requires
        sectordata@.len() == 512,
        sector <= 11,
    ensures
        items@ == amiga_sector_items(cylinder, head, sector, sectordata@),
{
    let amiga_sector_header: u32 = 0xff00_0000 | (cylinder << 17) | (head << 16) | (sector << 8) | (
    SECTORS_PER_TRACK - sector);
    let mut items: Vec<MfmItem> = Vec::new();
    items.push(MfmItem::Enc8(0));
    items.push(MfmItem::Enc8(0));
    items.push(MfmItem::Sync);
    items.push(MfmItem::Sync);
    items.push(MfmItem::Odd(amiga_sector_header));
    items.push(MfmItem::Even(amiga_sector_header));
    items.push(MfmItem::Odd(0));
    items.push(MfmItem::Odd(0));
    items.push(MfmItem::Odd(0));
    items.push(MfmItem::Odd(0));
    items.push(MfmItem::Even(0));
    items.push(MfmItem::Even(0));
    items.push(MfmItem::Even(0));
    items.push(MfmItem::Even(0));
    items.push(MfmItem::Odd(0));
    items.push(
        MfmItem::Even(
            ((amiga_sector_header >> 1) & AMIGA_MFM_MASK) ^ (amiga_sector_header & AMIGA_MFM_MASK),
        ),
    );
    let mut checksum: u32 = 0;
    let mut i: usize = 0;
    while i < 128
        invariant
            i <= 128,
            sectordata@.len() == 512,
            checksum == data_checksum(sectordata@, i as nat),
        decreases 128 - i,
    {
        let word = read_be_long(sectordata, i);
        checksum ^= word & AMIGA_MFM_MASK;
        checksum ^= (word >> 1) & AMIGA_MFM_MASK;
        proof {
            let c0 = data_checksum(sectordata@, i as nat);
            lemma_xor_facts(c0, word & 0x5555_5555u32, (word >> 1u32) & 0x5555_5555u32);
        }
        i = i + 1;
    }
    items.push(MfmItem::Odd(0));
    items.push(MfmItem::Even(checksum));
    let ghost head_items = items@;
    let mut i: usize = 0;
    while i < 128
        invariant
            i <= 128,
            sectordata@.len() == 512,
            items@ == head_items + Seq::new(i as nat, |k: int| MfmItem::Odd(be_long(sectordata@, k))),
        decreases 128 - i,
    {
        let word = read_be_long(sectordata, i);
        items.push(MfmItem::Odd(word));
        i = i + 1;
        assert(items@ =~= head_items + Seq::new(i as nat, |k: int| MfmItem::Odd(be_long(sectordata@, k))));
    }
    let ghost odd_items = items@;
    let mut i: usize = 0;
    while i < 128
        invariant
            i <= 128,
            sectordata@.len() == 512,
            items@ == odd_items + Seq::new(i as nat, |k: int| MfmItem::Even(be_long(sectordata@, k))),
        decreases 128 - i,
    {
        let word = read_be_long(sectordata, i);
        items.push(MfmItem::Even(word));
        i = i + 1;
        assert(items@ =~= odd_items + Seq::new(i as nat, |k: int| MfmItem::Even(be_long(sectordata@, k))));
    }
    assert(items@ =~= amiga_sector_items(cylinder, head, sector, sectordata@));
    items
}

/// Only whole bytes of cells and no raw cells are written for an Amiga sector.
proof fn lemma_sector_items_plain(cylinder: u32, head: u32, sector: u32, d: Seq<u8>)
    ensures
        forall|i: int|
            0 <= i < amiga_sector_items(cylinder, head, sector, d).len() ==> {
                &&& #[trigger] item_cell_count(amiga_sector_items(cylinder, head, sector, d)[i]) % 8
                    == 0
                &&& item_ok(amiga_sector_items(cylinder, head, sector, d)[i])
            },
{
}

proof fn lemma_track_items_plain(cylinder: u32, head: u32, d: Seq<u8>, n: nat)
    ensures
        forall|i: int|
            0 <= i < amiga_track_items(cylinder, head, d, n).len() ==> {
                &&& #[trigger] item_cell_count(amiga_track_items(cylinder, head, d, n)[i]) % 8 == 0
                &&& item_ok(amiga_track_items(cylinder, head, d, n)[i])
            },
    decreases n,
{
    if n > 0 {
        lemma_track_items_plain(cylinder, head, d, (n - 1) as nat);
        let a = amiga_track_items(cylinder, head, d, (n - 1) as nat);
        let b = amiga_sector_items(cylinder, head, (n - 1) as u32, d.subrange(512 * (n - 1), 512 * n as int));
        lemma_sector_items_plain(cylinder, head, (n - 1) as u32, d.subrange(512 * (n - 1), 512 * n as int));
        assert forall|i: int| 0 <= i < (a + b).len() implies {
            &&& #[trigger] item_cell_count((a + b)[i]) % 8 == 0
            &&& item_ok((a + b)[i])
        } by {
            if i < a.len() {
                assert((a + b)[i] == a[i]);
            } else {
                assert((a + b)[i] == b[i - a.len()]);
            }
        }
    }
}

/// Writes one AmigaDOS sector.
fn generate_sector(
    cylinder: u32,
    head: u32,
    sector: u32,
    sectordata: &[u8],
    encoder: &mut MfmEncoder,
    sink: &mut Vec<Bit>,
) -> (r: Result<(), ImageError>)
    requires
        sector <= 11,
    ensures
        head >= 2 ==> r == Err::<(), ImageError>(ImageError::HeadOutOfRange),
        head < 2 && sectordata@.len() != 512 ==> r == Err::<(), ImageError>(ImageError::WrongSectorSize),
        r is Err ==> final(sink)@ == old(sink)@ && final(encoder)@ == old(encoder)@,
        head < 2 && sectordata@.len() == 512 ==> r is Ok,
        r is Ok ==> {
            &&& head < 2
            &&& sectordata@.len() == 512
            &&& final(sink)@ == old(sink)@ + items_cells(
                old(encoder)@,
                amiga_sector_items(cylinder, head, sector, sectordata@),
            )
            &&& final(encoder)@ == items_last(
                old(encoder)@,
                amiga_sector_items(cylinder, head, sector, sectordata@),
            )
        },
{
    if head >= 2 {
        return Err(ImageError::HeadOutOfRange);
    }
    if sectordata.len() != 512 {
        return Err(ImageError::WrongSectorSize);
    }
    let items = amiga_sector(cylinder, head, sector, sectordata);
    proof {
        lemma_sector_items_plain(cylinder, head, sector, sectordata@);
    }
    encoder.feed_items(items.as_slice(), sink);
    Ok(())
}

/// Writes the 11 sectors of an AmigaDOS track, taken from the start of `sectors`, and
/// returns the cell bytes of the track.
pub fn generate_track(cylinder: u32, head: u32, sectors: &[u8]) -> (r: Result<Vec<u8>, ImageError>)
    ensures
        sectors@.len() < 512 ==> r == Err::<Vec<u8>, ImageError>(ImageError::NotEnoughSectors),
        sectors@.len() >= 512 && head >= 2 ==> r == Err::<Vec<u8>, ImageError>(
            ImageError::HeadOutOfRange,
        ),
        512 <= sectors@.len() < 11 * 512 && head < 2 ==> r == Err::<Vec<u8>, ImageError>(
            ImageError::NotEnoughSectors,
        ),
        sectors@.len() >= 11 * 512 && head < 2 ==> (r matches Ok(t) && bytes_cells(t@)
            == amiga_track_cells(cylinder, head, sectors@)),
{
    let mut cells: Vec<Bit> = Vec::new();
    let mut encoder = MfmEncoder::new();
    let mut sector: u32 = 0;
    while sector < SECTORS_PER_TRACK
        invariant
            sector <= 11,
            sector > 0 ==> head < 2 && sectors@.len() >= 512 * sector,
            cells@ == items_cells(false, amiga_track_items(cylinder, head, sectors@, sector as nat)),
            encoder@ == items_last(false, amiga_track_items(cylinder, head, sectors@, sector as nat)),
        decreases 11 - sector,
    {
        let start: usize = 512 * sector as usize;
        if sectors.len() < start + 512 {
            return Err(ImageError::NotEnoughSectors);
        }
        let sectordata = &sectors[start..start + 512];
        let ghost prev = amiga_track_items(cylinder, head, sectors@, sector as nat);
        let ghost next = amiga_sector_items(cylinder, head, sector, sectordata@);
        match generate_sector(cylinder, head, sector, sectordata, &mut encoder, &mut cells) {
            Ok(()) => {},
            Err(e) => {
                return Err(e);
            },
        }
        proof {
            lemma_items_append(false, prev, next);
            assert(amiga_track_items(cylinder, head, sectors@, (sector + 1) as nat) == prev + next);
        }
        sector = sector + 1;
    }
    proof {
        lemma_track_items_plain(cylinder, head, sectors@, 11);
        lemma_items_cells_bytes(false, amiga_track_items(cylinder, head, sectors@, 11));
        assert(cells@.take(8 * (cells@.len() / 8) as int) == cells@);
    }
    Ok(pack_cells(cells.as_slice()))
}

/// Two long words of zero data bits, written after the last sector so that the track ends
/// with proper fluxes.
pub open spec fn track_end_items() -> Seq<MfmItem> {
    seq![MfmItem::Even(0), MfmItem::Even(0)]
}

/// The cells of an AmigaDOS track that ends with `track_end_items`.
pub open spec fn amiga_track_with_end_cells(cylinder: u32, head: u32, d: Seq<u8>) -> Seq<Bit> {
    items_cells(false, amiga_track_items(cylinder, head, d, 11) + track_end_items())
}

/// Writes the 11 sectors of an AmigaDOS track, taken from the start of `sectors`, followed
/// by two long words of zero data bits, and returns the cell bytes of the track.
pub fn generate_amiga_track(cylinder: u32, head: u32, sectors: &[u8]) -> (r: Vec<u8>)
    requires
        head < 2,
        sectors@.len() >= 11 * 512,
    ensures
        bytes_cells(r@) == amiga_track_with_end_cells(cylinder, head, sectors@),
{
    let mut items: Vec<MfmItem> = Vec::new();
    let mut sector: u32 = 0;
    while sector < SECTORS_PER_TRACK
        invariant
            sector <= 11,
            sectors@.len() >= 11 * 512,
            items@ == amiga_track_items(cylinder, head, sectors@, sector as nat),
        decreases 11 - sector,
    {
        let start: usize = 512 * sector as usize;
        let sectordata = &sectors[start..start + 512];
        let part = amiga_sector(cylinder, head, sector, sectordata);
        let ghost before = items@;
        let mut i: usize = 0;
        while i < part.len()
            invariant
                i <= part@.len(),
                items@ == before + part@.take(i as int),
            decreases part@.len() - i,
        {
            items.push(part[i]);
            i = i + 1;
            assert(items@ =~= before + part@.take(i as int));
        }
        assert(part@.take(part@.len() as int) =~= part@);
        sector = sector + 1;
    }
    let ghost track = items@;
    items.push(MfmItem::Even(0));
    items.push(MfmItem::Even(0));
    assert(items@ =~= track + track_end_items());
    proof {
        lemma_track_items_plain(cylinder, head, sectors@, 11);
        assert forall|i: int| 0 <= i < items@.len() implies {
            &&& #[trigger] item_cell_count(items@[i]) % 8 == 0
            &&& item_ok(items@[i])
        } by {
            if i < track.len() {
                assert(items@[i] == track[i]);
            }
        }
        assert forall|i: int| 0 <= i < items@.len() implies item_ok(#[trigger] items@[i]) by {
            if i < track.len() {
                assert(items@[i] == track[i]);
                assert(item_cell_count(track[i]) % 8 == 0);
            }
        }
    }
    let mut cells: Vec<Bit> = Vec::new();
    let mut encoder = MfmEncoder::new();
    encoder.feed_items(items.as_slice(), &mut cells);
    proof {
        lemma_items_cells_bytes(false, items@);
        assert(cells@.take(8 * (cells@.len() / 8) as int) == cells@);
    }
    pack_cells(cells.as_slice())
}

/// The bytes of the track of cylinder `cylinder` and head `head` in an ADF image.
pub open spec fn adf_track_data(image: Seq<u8>, cylinder: int, head: int) -> Seq<u8> {
    image.subrange((2 * cylinder + head) * 5632, (2 * cylinder + head + 1) * 5632)
}

/// The raw tracks of an ADF image: 80 cylinders of 2 heads of 11 sectors of 512 bytes,
/// each written as an AmigaDOS track with a cell size of 168 timer ticks.
pub fn parse_adf_image(buffer: &[u8]) -> (r: Result<RawImage, ImageError>)
    ensures
        buffer@.len() != 901120 ==> (r matches Err(e) && e == ImageError::WrongImageSize),
        buffer@.len() == 901120 ==> (r matches Ok(image) && {
            &&& image.density == Density::SingleDouble
            &&& image.disk_type == DiskType::Inch3_5
            &&& image.tracks@.len() == 160
            &&& forall|k: int|
                0 <= k < 160 ==> {
                    let t = #[trigger] image.tracks@[k];
                    &&& t.cylinder == k / 2
                    &&& t.head == k % 2
                    &&& t.encoding == Encoding::MFM
                    &&& t.write_precompensation == 0
                    &&& !t.has_non_flux_reversal_area
                    &&& bytes_cells(t.raw_data@) == amiga_track_cells(
                        t.cylinder,
                        t.head,
                        adf_track_data(buffer@, k / 2, k % 2),
                    )
                    &&& t.densitymap@ == seq![
                        DensityMapEntry {
                            number_of_cellbytes: t.raw_data@.len() as usize,
                            cell_size: PulseDuration(168),
                        },
                    ]
                }
        }),
{
    if buffer.len() != 901120 {
        return Err(ImageError::WrongImageSize);
    }
    let mut tracks: Vec<RawTrack> = Vec::new();
    let mut cylinder: u32 = 0;
    while cylinder < CYLINDERS
        invariant
            cylinder <= 80,
            buffer@.len() == 901120,
            tracks@.len() == 2 * cylinder,
            forall|k: int|
                0 <= k < tracks@.len() ==> {
                    let t = #[trigger] tracks@[k];
                    &&& t.cylinder == k / 2
                    &&& t.head == k % 2
                    &&& t.encoding == Encoding::MFM
                    &&& t.write_precompensation == 0
                    &&& !t.has_non_flux_reversal_area
                    &&& bytes_cells(t.raw_data@) == amiga_track_cells(
                        t.cylinder,
                        t.head,
                        adf_track_data(buffer@, k / 2, k % 2),
                    )
                    &&& t.densitymap@ == seq![
                        DensityMapEntry {
                            number_of_cellbytes: t.raw_data@.len() as usize,
                            cell_size: PulseDuration(168),
                        },
                    ]
                },
        decreases 80 - cylinder,
    {
        let mut head: u32 = 0;
        while head < HEADS
            invariant
                cylinder < 80,
                head <= 2,
                buffer@.len() == 901120,
                tracks@.len() == 2 * cylinder + head,
                forall|k: int|
                    0 <= k < tracks@.len() ==> {
                        let t = #[trigger] tracks@[k];
                        &&& t.cylinder == k / 2
                        &&& t.head == k % 2
                        &&& t.encoding == Encoding::MFM
                        &&& t.write_precompensation == 0
                        &&& !t.has_non_flux_reversal_area
                        &&& bytes_cells(t.raw_data@) == amiga_track_cells(
                            t.cylinder,
                            t.head,
                            adf_track_data(buffer@, k / 2, k % 2),
                        )
                        &&& t.densitymap@ == seq![
                            DensityMapEntry {
                                number_of_cellbytes: t.raw_data@.len() as usize,
                                cell_size: PulseDuration(168),
                            },
                        ]
                    },
            decreases 2 - head,
        {
            let index: usize = (2 * cylinder + head) as usize;
            let data = &buffer[index * 5632..index * 5632 + 5632];
            let trackbuf = match generate_track(cylinder, head, data) {
                Ok(t) => t,
                Err(e) => {
                    return Err(e);
                },
            };
            let mut densitymap: Vec<DensityMapEntry> = Vec::new();
            densitymap.push(
                DensityMapEntry { number_of_cellbytes: trackbuf.len(), cell_size: PulseDuration(168) },
            );
            let track = RawTrack::new(cylinder, head, trackbuf, densitymap, Encoding::MFM);
            proof {
                let k = index as int;
                assert(k / 2 == cylinder && k % 2 == head);
                assert(data@ == adf_track_data(buffer@, k / 2, k % 2));
                assert(track.densitymap@ =~= seq![
                    DensityMapEntry {
                        number_of_cellbytes: track.raw_data@.len() as usize,
                        cell_size: PulseDuration(168),
                    },
                ]);
            }
            tracks.push(track);
            head = head + 1;
        }
        cylinder = cylinder + 1;
    }
    Ok(RawImage { tracks, density: Density::SingleDouble, disk_type: DiskType::Inch3_5 })
}

} // verus!
