use vstd::prelude::*;

use crate::bitstream::{byte_cells, bytes_cells, pack_cells, to_bit_stream};
use crate::c64_geometry::{get_track_settings, spec_track_settings, TrackConfiguration};
use crate::error::ImageError;
use crate::gcr::{gcr_bytes, lemma_gcr_bytes_append, lemma_gcr_roundtrip, to_gcr_stream};
use crate::rawtrack::{RawImage, RawTrack};
use crate::types::{Bit, Density, DensityMapEntry, DiskType, Encoding, PulseDuration};

verus! {

// Layout of 1541 tracks: http://www.baltissen.org/newhtm/1541c.htm
pub const CYLINDERS: u8 = 35;

pub const SECTORS_TOTAL: usize = 683;

pub const BYTES_PER_SECTOR: usize = 256;

/// The disk id written into every sector header; any value does.
pub const ID1: u8 = 0x39;

pub const ID2: u8 = 0x30;

/// `n` raw bytes `b`, each as eight cells.
pub open spec fn raw_run(b: u8, n: nat) -> Seq<Bit>
    decreases n,
{
    if n == 0 {
        Seq::empty()
    } else {
        raw_run(b, (n - 1) as nat) + byte_cells(b)
    }
}

/// All bytes of `s` combined by exclusive or.
pub open spec fn xor_bytes(s: Seq<u8>) -> u8
    decreases s.len(),
{
    if s.len() == 0 {
        0
    } else {
        xor_bytes(s.drop_last()) ^ s.last()
    }
}

/// The header block of a sector: its mark, checksum, sector, track and disk id.
pub open spec fn d64_header_bytes(tracknum: u8, sector: u8) -> Seq<u8> {
    seq![0x08u8, (sector ^ tracknum ^ ID1 ^ ID2) as u8, sector, tracknum, ID2, ID1, 0x0fu8, 0x0fu8]
}

/// The data block of a sector: its mark, the data, their checksum and two zero bytes.
pub open spec fn d64_data_bytes(d: Seq<u8>) -> Seq<u8> {
    seq![0x07u8] + d + seq![xor_bytes(d), 0u8, 0u8]
}

/// The cells of one 1541 sector: sync, header, gap, sync, data block and the trailing gap.
pub open spec fn d64_sector_cells(tracknum: u8, sector: u8, d: Seq<u8>, gap: nat) -> Seq<Bit> {
    raw_run(0xff, 5) + gcr_bytes(d64_header_bytes(tracknum, sector)) + raw_run(0x55, 5) + raw_run(
        0xff,
        5,
    ) + gcr_bytes(d64_data_bytes(d)) + raw_run(0x55, gap)
}

/// The cells of the first `n` sectors of a track; sector `s` holds the bytes
/// `256 * s .. 256 * s + 256` of `d`.
pub open spec fn d64_track_cells(tracknum: u8, d: Seq<u8>, n: nat, gap: nat) -> Seq<Bit>
    decreases n,
{
    if n == 0 {
        Seq::empty()
    } else {
        d64_track_cells(tracknum, d, (n - 1) as nat, gap) + d64_sector_cells(
            tracknum,
            (n - 1) as u8,
            d.subrange(256 * (n - 1), 256 * n as int),
            gap,
        )
    }
}

/// A run of `n` raw bytes has eight cells per byte.
pub proof fn lemma_raw_run_len(b: u8, n: nat)
    ensures
        raw_run(b, n).len() == 8 * n,
    decreases n,
{
    if n > 0 {
        lemma_raw_run_len(b, (n - 1) as nat);
    }
}

proof fn lemma_gcr_bytes_len(s: Seq<u8>)
    ensures
        gcr_bytes(s).len() == 10 * s.len(),
    decreases s.len(),
{
    if s.len() > 0 {
        lemma_gcr_bytes_len(s.drop_last());
        lemma_gcr_roundtrip(s.last());
    }
}

proof fn lemma_sector_cells_len(tracknum: u8, sector: u8, d: Seq<u8>, gap: nat)
    requires
        d.len() == 256,
    ensures
        d64_sector_cells(tracknum, sector, d, gap).len() == 2800 + 8 * gap,
{
    lemma_raw_run_len(0xff, 5);
    lemma_raw_run_len(0x55, 5);
    lemma_raw_run_len(0x55, gap);
    lemma_gcr_bytes_len(d64_header_bytes(tracknum, sector));
    lemma_gcr_bytes_len(d64_data_bytes(d));
}

proof fn lemma_track_cells_bytes(tracknum: u8, d: Seq<u8>, n: nat, gap: nat)
    requires
        d.len() >= 256 * n,
    ensures
        d64_track_cells(tracknum, d, n, gap).len() % 8 == 0,
    decreases n,
{
    if n > 0 {
        lemma_track_cells_bytes(tracknum, d, (n - 1) as nat, gap);
        let s = d.subrange(256 * (n - 1), 256 * n as int);
        lemma_sector_cells_len(tracknum, (n - 1) as u8, s, gap);
        let a = d64_track_cells(tracknum, d, (n - 1) as nat, gap).len();
        assert((a + 2800 + 8 * gap) % 8 == a % 8) by (nonlinear_arith);
    }
}

/// Appends `n` raw bytes `b`.
fn feed_raw_run(b: u8, n: usize, sink: &mut Vec<Bit>)
    ensures
        final(sink)@ == old(sink)@ + raw_run(b, n as nat),
{
    let ghost start = sink@;
    let mut i: usize = 0;
    while i < n
        invariant
            i <= n,
            sink@ == start + raw_run(b, i as nat),
        decreases n - i,
    {
        to_bit_stream(b, sink);
        i = i + 1;
        assert(start + raw_run(b, i as nat) == start + raw_run(b, (i - 1) as nat) + byte_cells(b));
    }
}

/// Appends the GCR cells of `bytes`.
fn feed_gcr_bytes(bytes: &[u8], sink: &mut Vec<Bit>)
    ensures
        final(sink)@ == old(sink)@ + gcr_bytes(bytes@),
{
    let ghost start = sink@;
    let mut i: usize = 0;
    while i < bytes.len()
        invariant
            i <= bytes@.len(),
            sink@ == start + gcr_bytes(bytes@.take(i as int)),
        decreases bytes@.len() - i,
    {
        to_gcr_stream(bytes[i], sink);
        assert(bytes@.take(i + 1).drop_last() == bytes@.take(i as int));
        i = i + 1;
    }
    assert(bytes@.take(i as int) == bytes@);
}

/// The checksum of a sector's data: all its bytes combined by exclusive or.
fn data_checksum(d: &[u8]) -> (r: u8)
    ensures
        r == xor_bytes(d@),
{
    let mut checksum: u8 = 0;
    let mut i: usize = 0;
    while i < d.len()
        invariant
            i <= d@.len(),
            checksum == xor_bytes(d@.take(i as int)),
        decreases d@.len() - i,
    {
        assert(d@.take(i + 1).drop_last() == d@.take(i as int));
        checksum = checksum ^ d[i];
        i = i + 1;
    }
    assert(d@.take(i as int) == d@);
    checksum
}

/// Writes one 1541 sector.
fn generate_sector(tracknum: u8, sector: u8, sector_buffer: &[u8], gap_size: usize, sink: &mut Vec<Bit>)
    requires
        sector_buffer@.len() == 256,
    ensures
        final(sink)@ == old(sink)@ + d64_sector_cells(tracknum, sector, sector_buffer@, gap_size as nat),
{
    let ghost start = sink@;
    feed_raw_run(0xff, 5, sink);
    let checksum: u8 = sector ^ tracknum ^ ID1 ^ ID2;
    let header: [u8; 8] = [0x08, checksum, sector, tracknum, ID2, ID1, 0x0f, 0x0f];
    assert(header@ == d64_header_bytes(tracknum, sector));
    feed_gcr_bytes(&header, sink);
    feed_raw_run(0x55, 5, sink);
    feed_raw_run(0xff, 5, sink);
    let data_sum = data_checksum(sector_buffer);
    let ghost before_data = sink@;
    let mark: [u8; 1] = [0x07];
    feed_gcr_bytes(&mark, sink);
    feed_gcr_bytes(sector_buffer, sink);
    let trailer: [u8; 3] = [data_sum, 0x00, 0x00];
    feed_gcr_bytes(&trailer, sink);
    proof {
        lemma_gcr_bytes_append(mark@, sector_buffer@);
        lemma_gcr_bytes_append(mark@ + sector_buffer@, trailer@);
        assert(mark@ + sector_buffer@ + trailer@ == d64_data_bytes(sector_buffer@));
        assert(sink@ == before_data + gcr_bytes(d64_data_bytes(sector_buffer@)));
    }
    feed_raw_run(0x55, gap_size, sink);
}

/// The cell bytes of 1541 track `tracknum` (counted from 1) and its recording settings.
/// The sectors are taken from the start of `sectors`, 256 bytes each.
pub fn generate_track(tracknum: u8, sectors: &[u8]) -> (r: Result<
    (Vec<u8>, TrackConfiguration),
    ImageError,
>)
    requires
        tracknum != 0,
    ensures
        ({
            let s = spec_track_settings(tracknum as int);
            &&& sectors@.len() < 256 * s.sectors ==> r == Err::<
                (Vec<u8>, TrackConfiguration),
                ImageError,
            >(ImageError::NotEnoughSectors)
            &&& sectors@.len() >= 256 * s.sectors ==> (r matches Ok((t, c)) && c == s && bytes_cells(t@)
                == d64_track_cells(tracknum, sectors@, s.sectors as nat, s.gap_size as nat))
        }),
{
    let settings = get_track_settings(tracknum as usize);
    if sectors.len() / BYTES_PER_SECTOR < settings.sectors as usize {
        return Err(ImageError::NotEnoughSectors);
    }
    let mut cells: Vec<Bit> = Vec::new();
    let mut sector: u8 = 0;
    while sector < settings.sectors
        invariant
            settings == spec_track_settings(tracknum as int),
            sector <= settings.sectors,
            sectors@.len() >= 256 * settings.sectors,
            cells@ == d64_track_cells(tracknum, sectors@, sector as nat, settings.gap_size as nat),
        decreases settings.sectors - sector,
    {
        let start: usize = BYTES_PER_SECTOR * sector as usize;
        let sector_buffer = &sectors[start..start + BYTES_PER_SECTOR];
        generate_sector(tracknum, sector, sector_buffer, settings.gap_size, &mut cells);
        sector = sector + 1;
    }
    proof {
        lemma_track_cells_bytes(tracknum, sectors@, settings.sectors as nat, settings.gap_size as nat);
        assert(cells@.take(8 * (cells@.len() / 8) as int) == cells@);
    }
    let trackbuf = pack_cells(cells.as_slice());
    Ok((trackbuf, settings))
}

/// The number of sectors on the tracks before track `t` (tracks counted from 1).
pub open spec fn sectors_before(t: nat) -> nat
    decreases t,
{
    if t <= 1 {
        0
    } else {
        sectors_before((t - 1) as nat) + (spec_track_settings(t - 1).sectors as nat)
    }
}

/// The bytes of the sectors of track `t` in a D64 image.
pub open spec fn d64_track_data(image: Seq<u8>, t: nat) -> Seq<u8> {
    image.subrange(256 * sectors_before(t) as int, 256 * sectors_before(t + 1) as int)
}

proof fn lemma_sectors_before_total()
    ensures
        sectors_before(36) == 683,
{
    reveal_with_fuel(sectors_before, 37);
}

proof fn lemma_sectors_before_mono(a: nat, b: nat)
    requires
        a <= b,
    ensures
        sectors_before(a) <= sectors_before(b),
    decreases b,
{
    if a < b {
        lemma_sectors_before_mono(a, (b - 1) as nat);
    }
}

/// The raw tracks of a D64 image: 35 tracks of 17 to 21 sectors of 256 bytes, written as
/// GCR onto every second cylinder of head 0.
pub fn parse_d64_image(buffer: &[u8]) -> (r: Result<RawImage, ImageError>)
    ensures
        buffer@.len() != 174848 ==> (r matches Err(e) && e == ImageError::WrongImageSize),
        buffer@.len() == 174848 ==> (r matches Ok(image) && {
            &&& image.density == Density::SingleDouble
            &&& image.disk_type == DiskType::Inch5_25
            &&& image.tracks@.len() == 35
            &&& forall|k: int|
                0 <= k < 35 ==> {
                    let t = #[trigger] image.tracks@[k];
                    let s = spec_track_settings(k + 1);
                    &&& t.cylinder == 2 * k
                    &&& t.head == 0
                    &&& t.encoding == Encoding::GCR
                    &&& t.write_precompensation == 0
                    &&& !t.has_non_flux_reversal_area
                    &&& bytes_cells(t.raw_data@) == d64_track_cells(
                        (k + 1) as u8,
                        d64_track_data(buffer@, (k + 1) as nat),
                        s.sectors as nat,
                        s.gap_size as nat,
                    )
                    &&& t.densitymap@ == seq![
                        DensityMapEntry {
                            number_of_cellbytes: t.raw_data@.len() as usize,
                            cell_size: PulseDuration(s.cellsize as i32),
                        },
                    ]
                }
        }),
{
    if buffer.len() != 174848 {
        return Err(ImageError::WrongImageSize);
    }
    proof {
        lemma_sectors_before_total();
    }
    let mut tracks: Vec<RawTrack> = Vec::new();
    let mut offset: usize = 0;
    let mut src_cylinder: u8 = 0;
    while src_cylinder < CYLINDERS
        invariant
            src_cylinder <= 35,
            buffer@.len() == 174848,
            sectors_before(36) == 683,
            offset == 256 * sectors_before((src_cylinder + 1) as nat),
            tracks@.len() == src_cylinder,
            forall|k: int|
                0 <= k < tracks@.len() ==> {
                    let t = #[trigger] tracks@[k];
                    let s = spec_track_settings(k + 1);
                    &&& t.cylinder == 2 * k
                    &&& t.head == 0
                    &&& t.encoding == Encoding::GCR
                    &&& t.write_precompensation == 0
                    &&& !t.has_non_flux_reversal_area
                    &&& bytes_cells(t.raw_data@) == d64_track_cells(
                        (k + 1) as u8,
                        d64_track_data(buffer@, (k + 1) as nat),
                        s.sectors as nat,
                        s.gap_size as nat,
                    )
                    &&& t.densitymap@ == seq![
                        DensityMapEntry {
                            number_of_cellbytes: t.raw_data@.len() as usize,
                            cell_size: PulseDuration(s.cellsize as i32),
                        },
                    ]
                },
        decreases 35 - src_cylinder,
    {
        let tracknum: u8 = src_cylinder + 1;
        let ghost t = tracknum as nat;
        proof {
            lemma_sectors_before_mono(t + 1, 36);
            assert(sectors_before(t + 1) == sectors_before(t) + spec_track_settings(t as int).sectors);
        }
        let settings = get_track_settings(tracknum as usize);
        let end: usize = offset + BYTES_PER_SECTOR * settings.sectors as usize;
        let data = &buffer[offset..end];
        assert(data@ == d64_track_data(buffer@, t));
        let (trackbuf, settings) = match generate_track(tracknum, data) {
            Ok(v) => v,
            Err(e) => {
                return Err(e);
            },
        };
        let mut densitymap: Vec<DensityMapEntry> = Vec::new();
        densitymap.push(
            DensityMapEntry {
                number_of_cellbytes: trackbuf.len(),
                cell_size: PulseDuration(settings.cellsize as i32),
            },
        );
        let track = RawTrack::new(
            src_cylinder as u32 * 2,
            0,
            trackbuf,
            densitymap,
            Encoding::GCR,
        );
        proof {
            assert(track.densitymap@ =~= seq![
                DensityMapEntry {
                    number_of_cellbytes: track.raw_data@.len() as usize,
                    cell_size: PulseDuration(settings.cellsize as i32),
                },
            ]);
        }
        tracks.push(track);
        offset = end;
        src_cylinder = src_cylinder + 1;
    }
    Ok(RawImage { tracks, disk_type: DiskType::Inch5_25, density: Density::SingleDouble })
}

} // verus!
