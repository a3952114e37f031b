use vstd::prelude::*;

use crate::bitstream::{bytes_cells, pack_cells};
use crate::crc::{crc16_ccitt, crc16_ccitt_false};
use crate::error::ImageError;
use crate::mfm::{
    item_cell_count, item_ok, items_cells, items_last, lemma_items_cells_bytes, MfmEncoder, MfmItem,
    ISO_SYNC_BYTE,
};
use crate::rawtrack::{RawImage, RawTrack};
use crate::types::{Bit, Density, DensityMapEntry, DiskType, Encoding, PulseDuration};

verus! {

// Layout of ISO tracks:
// https://www-user.tu-chemnitz.de/~heha/basteln/PC/usbfloppy/floppy.chm/
// http://info-coach.fr/atari/software/FD-Soft.php
/// First address mark after the index hole; not required.
pub const ISO_IAM: u8 = 0xfc;

/// Sector header address mark.
pub const ISO_IDAM: u8 = 0xfe;

/// Data address mark.
pub const ISO_DAM: u8 = 0xfb;

/// Deleted data address mark.
pub const ISO_DDAM: u8 = 0xf8;

pub const HEADS: usize = 2;

pub const BYTES_PER_SECTOR: usize = 512;

/// The track layout of an ISO disk: gap sizes in bytes and the sector interleaving.
#[derive(Clone, Copy, Debug, PartialEq, Eq, Structural)]
pub struct IsoGeometry {
    pub sectors_per_track: usize,
    /// After the index pulse, bytes `0x4e`.
    pub gap1_size: i32,
    /// Before each sector header, bytes `0x00`.
    pub gap2_size: i32,
    /// After each sector header, bytes `0x4e`.
    pub gap3a_size: i32,
    /// Before each sector's data, bytes `0x00`.
    pub gap3b_size: i32,
    /// After each sector's data, bytes `0x4e`.
    pub gap4_size: i32,
    /// At the end of the track, bytes `0x4e`.
    pub gap5_size: i32,
    /// With 0 no interleaving is applied.
    pub interleaving: u32,
}

/// The geometry used for `sectors_per_track` sectors: 10 and 11 sector tracks are packed
/// tighter and interleaved, every other count uses the standard gaps of 9 and 18 sectors.
pub open spec fn spec_iso_geometry(sectors_per_track: usize) -> IsoGeometry {
    if sectors_per_track == 10 {
        IsoGeometry {
            sectors_per_track,
            gap1_size: 60,
            gap2_size: 12,
            gap3a_size: 22,
            gap3b_size: 12,
            gap4_size: 40,
            gap5_size: 20,
            interleaving: 1,
        }
    } else if sectors_per_track == 11 {
        IsoGeometry {
            sectors_per_track,
            gap1_size: 10,
            gap2_size: 3,
            gap3a_size: 22,
            gap3b_size: 12,
            gap4_size: 1,
            gap5_size: 10,
            interleaving: 1,
        }
    } else if sectors_per_track == 1 {
        IsoGeometry {
            sectors_per_track,
            gap1_size: 60,
            gap2_size: 12,
            gap3a_size: 22,
            gap3b_size: 12,
            gap4_size: 1,
            gap5_size: 10,
            interleaving: 0,
        }
    } else {
        IsoGeometry {
            sectors_per_track,
            gap1_size: 60,
            gap2_size: 12,
            gap3a_size: 22,
            gap3b_size: 12,
            gap4_size: 40,
            gap5_size: 600,
            interleaving: 0,
        }
    }
}

impl IsoGeometry {
    pub fn new(sectors_per_track: usize) -> (r: Self)
        ensures
            r == spec_iso_geometry(sectors_per_track),
    {
        // gap sizes after http://info-coach.fr/atari/software/FD-Soft.php
        match sectors_per_track {
            10 => IsoGeometry {
                gap1_size: 60,
                gap2_size: 12,
                gap3a_size: 22,
                gap3b_size: 12,
                gap4_size: 40,
                gap5_size: 20,
                sectors_per_track,
                interleaving: 1,
            },
            11 => IsoGeometry {
                gap1_size: 10,
                gap2_size: 3,
                gap3a_size: 22,
                gap3b_size: 12,
                gap4_size: 1,
                gap5_size: 10,
                sectors_per_track,
                interleaving: 1,
            },
            1 => IsoGeometry {
                gap1_size: 60,
                gap2_size: 12,
                gap3a_size: 22,
                gap3b_size: 12,
                gap4_size: 1,
                gap5_size: 10,
                sectors_per_track,
                interleaving: 0,
            },
            _ => IsoGeometry {
                gap1_size: 60,
                gap2_size: 12,
                gap3a_size: 22,
                gap3b_size: 12,
                gap4_size: 40,
                // 664 would be usual; a drive needs about 588 microseconds after writing
                // before it reads again, and by then the index has passed anyway.
                gap5_size: 600,
                sectors_per_track,
                interleaving: 0,
            },
        }
    }
}

/// All gaps of the geometry are sizes, not negative.
pub open spec fn gaps_nonnegative(g: IsoGeometry) -> bool {
    &&& g.gap1_size >= 0
    &&& g.gap2_size >= 0
    &&& g.gap3a_size >= 0
    &&& g.gap3b_size >= 0
    &&& g.gap4_size >= 0
    &&& g.gap5_size >= 0
}

/// `n` bytes `v`, MFM encoded.
pub open spec fn gap_items(n: nat, v: u8) -> Seq<MfmItem> {
    Seq::new(n, |i: int| MfmItem::Enc8(v))
}

/// The bytes of `s`, MFM encoded.
pub open spec fn enc_items(s: Seq<u8>) -> Seq<MfmItem> {
    Seq::new(s.len(), |i: int| MfmItem::Enc8(s[i]))
}

/// A checksum written high byte first.
pub open spec fn crc_items(crc: u16) -> Seq<MfmItem> {
    seq![MfmItem::Enc8((crc >> 8u16) as u8), MfmItem::Enc8((crc & 0xffu16) as u8)]
}

/// Three sync words, which read as the bytes `0xa1 0xa1 0xa1`.
pub open spec fn sync3() -> Seq<MfmItem> {
    seq![MfmItem::Sync, MfmItem::Sync, MfmItem::Sync]
}

pub open spec fn sync_bytes() -> Seq<u8> {
    seq![ISO_SYNC_BYTE, ISO_SYNC_BYTE, ISO_SYNC_BYTE]
}

/// The bytes of a sector header that its checksum covers after the sync bytes.
pub open spec fn iso_sectorheader_bytes(cylinder: u8, head: u8, sector: u8, size: u8) -> Seq<u8> {
    seq![ISO_IDAM, cylinder, head, sector, size]
}

/// A sector header: gap, syncs, the address mark with the sector's id, and the checksum of
/// sync bytes and id.
pub open spec fn iso_sectorheader_items(gap2_size: nat, cylinder: u8, head: u8, sector: u8, size: u8) -> Seq<
    MfmItem,
> {
    let hdr = iso_sectorheader_bytes(cylinder, head, sector, size);
    gap_items(gap2_size, 0) + sync3() + enc_items(hdr) + crc_items(crc16_ccitt_false(sync_bytes() + hdr))
}

/// The data address mark used: the one given, else the plain data address mark.
pub open spec fn mark_or_dam(address_mark: Option<u8>) -> u8 {
    match address_mark {
        Some(m) => m,
        None => ISO_DAM,
    }
}

/// The start of a sector's data: gap, syncs and the data address mark.
pub open spec fn iso_data_header_items(gap3b_size: nat, address_mark: Option<u8>) -> Seq<MfmItem> {
    gap_items(gap3b_size, 0) + sync3() + seq![MfmItem::Enc8(mark_or_dam(address_mark))]
}

/// The checksum of a sector's data: it covers the sync bytes, the address mark and the data.
pub open spec fn iso_data_crc(d: Seq<u8>, address_mark: Option<u8>) -> u16 {
    crc16_ccitt_false(sync_bytes() + seq![mark_or_dam(address_mark)] + d)
}

/// A sector's data followed by its checksum.
pub open spec fn iso_data_items(d: Seq<u8>, address_mark: Option<u8>) -> Seq<MfmItem> {
    enc_items(d) + crc_items(iso_data_crc(d, address_mark))
}

/// A sector's data followed by a checksum that is off by `0x1212`, so that it never matches.
pub open spec fn iso_broken_data_items(d: Seq<u8>) -> Seq<MfmItem> {
    enc_items(d) + crc_items(((iso_data_crc(d, None) + 0x1212) % 0x10000) as u16)
}

/// The slot that sector `i` is placed at.
pub open spec fn interleave_target(spt: nat, interleaving: nat, i: int) -> int {
    (i * (interleaving + 1)) % (spt as int)
}

/// Slot `t` of the interleaving table after the first `n` sectors were placed: the last of
/// them whose target slot is `t`, or 0.
pub open spec fn interleave_slot(spt: nat, interleaving: nat, t: nat, n: nat) -> nat
    decreases n,
{
    if n == 0 {
        0
    } else if interleave_target(spt, interleaving, n - 1) == t {
        (n - 1) as nat
    } else {
        interleave_slot(spt, interleaving, t, (n - 1) as nat)
    }
}

/// The order in which the sectors are written: sector `i` is placed at slot
/// `(i * (interleaving + 1)) % spt`, later sectors overwriting earlier ones.
pub open spec fn interleaving_table(spt: nat, interleaving: nat) -> Seq<usize> {
    Seq::new(spt, |t: int| interleave_slot(spt, interleaving, t as nat, spt) as usize)
}

/// The bytes of sector `index` (counted from 0) of a track's data.
pub open spec fn sector_data(d: Seq<u8>, index: int) -> Seq<u8> {
    d.subrange(512 * index, 512 * index + 512)
}

/// One sector of a track: header, gap, data header, data and the gap behind it.
pub open spec fn iso_sector_items(cylinder: u8, head: u8, g: IsoGeometry, sector: u8, d: Seq<u8>) -> Seq<
    MfmItem,
> {
    iso_sectorheader_items(g.gap2_size as nat, cylinder, head, sector, 2) + gap_items(
        g.gap3a_size as nat,
        0x4e,
    ) + iso_data_header_items(g.gap3b_size as nat, None) + iso_data_items(d, None) + gap_items(
        g.gap4_size as nat,
        0x4e,
    )
}

/// The first `n` sectors of a track in the order of `table`; sector `i` carries the id
/// `i + 1`.
pub open spec fn iso_sectors_items(
    cylinder: u8,
    head: u8,
    g: IsoGeometry,
    d: Seq<u8>,
    table: Seq<usize>,
    n: nat,
) -> Seq<MfmItem>
    decreases n,
{
    if n == 0 {
        Seq::empty()
    } else {
        iso_sectors_items(cylinder, head, g, d, table, (n - 1) as nat) + iso_sector_items(
            cylinder,
            head,
            g,
            (table[n - 1] + 1) as u8,
            sector_data(d, table[n - 1] as int),
        )
    }
}

/// All items of a track: the gap after the index, the sectors in interleaved order and
/// the gap that ends the track.
pub open spec fn iso_track_items(cylinder: u32, head: u32, g: IsoGeometry, d: Seq<u8>) -> Seq<MfmItem> {
    gap_items(g.gap1_size as nat, 0x4e) + iso_sectors_items(
        cylinder as u8,
        head as u8,
        g,
        d,
        interleaving_table(g.sectors_per_track as nat, g.interleaving as nat),
        g.sectors_per_track as nat,
    ) + gap_items(g.gap5_size as nat, 0x4e)
}

/// Only bytes and sync words: every item can be encoded and writes 16 cells.
pub open spec fn plain_items(s: Seq<MfmItem>) -> bool {
    forall|i: int| 0 <= i < s.len() ==> (#[trigger] s[i] is Enc8 || s[i] is Sync)
}

proof fn lemma_plain_items(s: Seq<MfmItem>)
    requires
        plain_items(s),
    ensures
        forall|i: int| 0 <= i < s.len() ==> item_ok(#[trigger] s[i]),
        forall|i: int| 0 <= i < s.len() ==> #[trigger] item_cell_count(s[i]) % 8 == 0,
{
    assert forall|i: int| 0 <= i < s.len() implies item_ok(#[trigger] s[i]) by {
        assert(s[i] is Enc8 || s[i] is Sync);
    }
    assert forall|i: int| 0 <= i < s.len() implies #[trigger] item_cell_count(s[i]) % 8 == 0 by {
        assert(s[i] is Enc8 || s[i] is Sync);
    }
}

pub(crate) fn push_gap(items: &mut Vec<MfmItem>, gap_size: usize, value: u8)
    requires
        plain_items(old(items)@),
    ensures
        final(items)@ == old(items)@ + gap_items(gap_size as nat, value),
        plain_items(final(items)@),
{
    let ghost start = items@;
    let mut i: usize = 0;
    while i < gap_size
        invariant
            i <= gap_size,
            items@ == start + gap_items(i as nat, value),
            plain_items(items@),
        decreases gap_size - i,
    {
        items.push(MfmItem::Enc8(value));
        i = i + 1;
        assert(items@ =~= start + gap_items(i as nat, value));
    }
}

pub(crate) fn push_bytes(items: &mut Vec<MfmItem>, bytes: &[u8])
    requires
        plain_items(old(items)@),
    ensures
        final(items)@ == old(items)@ + enc_items(bytes@),
        plain_items(final(items)@),
{
    let ghost start = items@;
    let mut i: usize = 0;
    while i < bytes.len()
        invariant
            i <= bytes@.len(),
            items@ == start + enc_items(bytes@.take(i as int)),
            plain_items(items@),
        decreases bytes@.len() - i,
    {
        items.push(MfmItem::Enc8(bytes[i]));
        i = i + 1;
        assert(items@ =~= start + enc_items(bytes@.take(i as int)));
    }
    assert(bytes@.take(i as int) == bytes@);
}

pub(crate) fn push_sync3(items: &mut Vec<MfmItem>)
    requires
        plain_items(old(items)@),
    ensures
        final(items)@ == old(items)@ + sync3(),
        plain_items(final(items)@),
{
    items.push(MfmItem::Sync);
    items.push(MfmItem::Sync);
    items.push(MfmItem::Sync);
    assert(items@ =~= old(items)@ + sync3());
}

pub(crate) fn push_bytes_with_crc(items: &mut Vec<MfmItem>, bytes: &[u8], crc: u16)
    requires
        plain_items(old(items)@),
    ensures
        final(items)@ == old(items)@ + enc_items(bytes@) + crc_items(crc),
        plain_items(final(items)@),
{
    push_bytes(items, bytes);
    items.push(MfmItem::Enc8((crc >> 8) as u8));
    items.push(MfmItem::Enc8((crc & 0xff) as u8));
    assert(items@ =~= old(items)@ + enc_items(bytes@) + crc_items(crc));
}

pub(crate) fn push_sectorheader(
    items: &mut Vec<MfmItem>,
    gap2_size: usize,
    idam_cylinder: u8,
    idam_head: u8,
    idam_sector: u8,
    idam_size: u8,
)
    requires
        plain_items(old(items)@),
    ensures
        final(items)@ == old(items)@ + iso_sectorheader_items(
            gap2_size as nat,
            idam_cylinder,
            idam_head,
            idam_sector,
            idam_size,
        ),
        plain_items(final(items)@),
{
    push_gap(items, gap2_size, 0);
    push_sync3(items);
    let sector_header: [u8; 5] = [ISO_IDAM, idam_cylinder, idam_head, idam_sector, idam_size];
    let covered: [u8; 8] = [
        ISO_SYNC_BYTE,
        ISO_SYNC_BYTE,
        ISO_SYNC_BYTE,
        ISO_IDAM,
        idam_cylinder,
        idam_head,
        idam_sector,
        idam_size,
    ];
    assert(sector_header@ == iso_sectorheader_bytes(idam_cylinder, idam_head, idam_sector, idam_size));
    assert(covered@ == sync_bytes() + sector_header@);
    let crc = crc16_ccitt(&covered);
    push_bytes_with_crc(items, &sector_header, crc);
    assert(items@ =~= old(items)@ + iso_sectorheader_items(
        gap2_size as nat,
        idam_cylinder,
        idam_head,
        idam_sector,
        idam_size,
    ));
}

pub(crate) fn push_data_header(items: &mut Vec<MfmItem>, gap3b_size: usize, address_mark: Option<u8>)
    requires
        plain_items(old(items)@),
    ensures
        final(items)@ == old(items)@ + iso_data_header_items(gap3b_size as nat, address_mark),
        plain_items(final(items)@),
{
    push_gap(items, gap3b_size, 0);
    push_sync3(items);
    let mark = match address_mark {
        Some(m) => m,
        None => ISO_DAM,
    };
    items.push(MfmItem::Enc8(mark));
    assert(items@ =~= old(items)@ + iso_data_header_items(gap3b_size as nat, address_mark));
}

/// The checksum that covers the sync bytes, `mark` and `sectordata`.
pub(crate) fn data_crc(sectordata: &[u8], mark: u8) -> (r: u16)
    ensures
        r == crc16_ccitt_false(sync_bytes() + seq![mark] + sectordata@),
{
    let mut covered: Vec<u8> = Vec::new();
    covered.push(ISO_SYNC_BYTE);
    covered.push(ISO_SYNC_BYTE);
    covered.push(ISO_SYNC_BYTE);
    covered.push(mark);
    let ghost head = covered@;
    let mut i: usize = 0;
    while i < sectordata.len()
        invariant
            i <= sectordata@.len(),
            head == sync_bytes() + seq![mark],
            covered@ == head + sectordata@.take(i as int),
        decreases sectordata@.len() - i,
    {
        covered.push(sectordata[i]);
        i = i + 1;
        assert(covered@ =~= head + sectordata@.take(i as int));
    }
    assert(sectordata@.take(i as int) == sectordata@);
    assert(covered@ =~= sync_bytes() + seq![mark] + sectordata@);
    crc16_ccitt(covered.as_slice())
}

pub(crate) fn push_data_with_crc(items: &mut Vec<MfmItem>, sectordata: &[u8], address_mark: Option<u8>)
    requires
        plain_items(old(items)@),
    ensures
        final(items)@ == old(items)@ + iso_data_items(sectordata@, address_mark),
        plain_items(final(items)@),
{
    let mark = match address_mark {
        Some(m) => m,
        None => ISO_DAM,
    };
    let crc = data_crc(sectordata, mark);
    push_bytes_with_crc(items, sectordata, crc);
    assert(items@ =~= old(items)@ + iso_data_items(sectordata@, address_mark));
}

/// Writes `bytes` followed by the checksum `crc`, high byte first.
pub fn generate_iso_bytes_with_crc(
    bytes: &[u8],
    crc: u16,
    encoder: &mut MfmEncoder,
    sink: &mut Vec<Bit>,
)
    ensures
        final(sink)@ == old(sink)@ + items_cells(old(encoder)@, enc_items(bytes@) + crc_items(crc)),
        final(encoder)@ == items_last(old(encoder)@, enc_items(bytes@) + crc_items(crc)),
{
    let mut items: Vec<MfmItem> = Vec::new();
    push_bytes_with_crc(&mut items, bytes, crc);
    assert(items@ =~= enc_items(bytes@) + crc_items(crc));
    proof {
        lemma_plain_items(items@);
    }
    encoder.feed_items(items.as_slice(), sink);
}

/// Writes a sector header: `gap2_size` bytes `0x00`, three syncs, the id address mark, the
/// sector's id and its checksum.
pub fn generate_iso_sectorheader(
    gap2_size: usize,
    idam_cylinder: u8,
    idam_head: u8,
    idam_sector: u8,
    idam_size: u8,
    encoder: &mut MfmEncoder,
    sink: &mut Vec<Bit>,
)
    ensures
        ({
            let items = iso_sectorheader_items(
                gap2_size as nat,
                idam_cylinder,
                idam_head,
                idam_sector,
                idam_size,
            );
            &&& final(sink)@ == old(sink)@ + items_cells(old(encoder)@, items)
            &&& final(encoder)@ == items_last(old(encoder)@, items)
        }),
{
    let mut items: Vec<MfmItem> = Vec::new();
    assert(Seq::<MfmItem>::empty() + iso_sectorheader_items(
        gap2_size as nat,
        idam_cylinder,
        idam_head,
        idam_sector,
        idam_size,
    ) == iso_sectorheader_items(gap2_size as nat, idam_cylinder, idam_head, idam_sector, idam_size));
    push_sectorheader(&mut items, gap2_size, idam_cylinder, idam_head, idam_sector, idam_size);
    proof {
        lemma_plain_items(items@);
    }
    encoder.feed_items(items.as_slice(), sink);
}

/// Writes the start of a sector's data: `gap3b_size` bytes `0x00`, three syncs and the
/// address mark, the plain data address mark if none is given.
pub fn generate_iso_data_header(
    gap3b_size: usize,
    encoder: &mut MfmEncoder,
    address_mark: Option<u8>,
    sink: &mut Vec<Bit>,
)
    ensures
        final(sink)@ == old(sink)@ + items_cells(
            old(encoder)@,
            iso_data_header_items(gap3b_size as nat, address_mark),
        ),
        final(encoder)@ == items_last(old(encoder)@, iso_data_header_items(gap3b_size as nat, address_mark)),
{
    let mut items: Vec<MfmItem> = Vec::new();
    assert(Seq::<MfmItem>::empty() + iso_data_header_items(gap3b_size as nat, address_mark)
        == iso_data_header_items(gap3b_size as nat, address_mark));
    push_data_header(&mut items, gap3b_size, address_mark);
    proof {
        lemma_plain_items(items@);
    }
    encoder.feed_items(items.as_slice(), sink);
}

/// Writes a sector's data and its checksum, which covers the sync bytes and the address mark.
pub fn generate_iso_data_with_crc(
    sectordata: &[u8],
    encoder: &mut MfmEncoder,
    address_mark: Option<u8>,
    sink: &mut Vec<Bit>,
)
    ensures
        final(sink)@ == old(sink)@ + items_cells(old(encoder)@, iso_data_items(sectordata@, address_mark)),
        final(encoder)@ == items_last(old(encoder)@, iso_data_items(sectordata@, address_mark)),
{
    let mut items: Vec<MfmItem> = Vec::new();
    assert(Seq::<MfmItem>::empty() + iso_data_items(sectordata@, address_mark) == iso_data_items(
        sectordata@,
        address_mark,
    ));
    push_data_with_crc(&mut items, sectordata, address_mark);
    proof {
        lemma_plain_items(items@);
    }
    encoder.feed_items(items.as_slice(), sink);
}

/// Writes a sector's data with a checksum that does not match it.
pub fn generate_iso_data_with_broken_crc(
    sectordata: &[u8],
    encoder: &mut MfmEncoder,
    sink: &mut Vec<Bit>,
)
    ensures
        final(sink)@ == old(sink)@ + items_cells(old(encoder)@, iso_broken_data_items(sectordata@)),
        final(encoder)@ == items_last(old(encoder)@, iso_broken_data_items(sectordata@)),
{
    let crc = data_crc(sectordata, ISO_DAM);
    let broken: u16 = ((crc as u32 + 0x1212) % 0x10000) as u16;
    generate_iso_bytes_with_crc(sectordata, broken, encoder, sink);
}

/// Writes `gap_size` bytes `value`.
pub fn generate_iso_gap(gap_size: usize, value: u8, encoder: &mut MfmEncoder, sink: &mut Vec<Bit>)
    ensures
        final(sink)@ == old(sink)@ + items_cells(old(encoder)@, gap_items(gap_size as nat, value)),
        final(encoder)@ == items_last(old(encoder)@, gap_items(gap_size as nat, value)),
{
    let mut items: Vec<MfmItem> = Vec::new();
    push_gap(&mut items, gap_size, value);
    assert(items@ =~= gap_items(gap_size as nat, value));
    proof {
        lemma_plain_items(items@);
    }
    encoder.feed_items(items.as_slice(), sink);
}

/// The order in which the sectors of a track are written.
pub fn generate_interleaving_table(sectors_per_track: usize, interleaving: usize) -> (r: Vec<usize>)
    requires
        sectors_per_track * (interleaving + 1) <= usize::MAX,
    ensures
        r@ == interleaving_table(sectors_per_track as nat, interleaving as nat),
{
    let mut table: Vec<usize> = Vec::new();
    let mut k: usize = 0;
    while k < sectors_per_track
        invariant
            k <= sectors_per_track,
            table@.len() == k,
            forall|t: int| 0 <= t < k ==> table@[t] == 0,
        decreases sectors_per_track - k,
    {
        table.push(0);
        k = k + 1;
    }
    let mut index: usize = 0;
    while index < sectors_per_track
        invariant
            index <= sectors_per_track,
            sectors_per_track * (interleaving + 1) <= usize::MAX,
            table@.len() == sectors_per_track,
            forall|t: int|
                0 <= t < sectors_per_track ==> #[trigger] table@[t] == interleave_slot(
                    sectors_per_track as nat,
                    interleaving as nat,
                    t as nat,
                    index as nat,
                ),
        decreases sectors_per_track - index,
    {
        assert(index * (interleaving + 1) <= sectors_per_track * (interleaving + 1) && interleaving + 1
            <= sectors_per_track * (interleaving + 1)) by (nonlinear_arith)
            requires
                index < sectors_per_track,
        ;
        let target = (index * (interleaving + 1)) % sectors_per_track;
        table.set(target, index);
        index = index + 1;
    }
    assert(table@ =~= interleaving_table(sectors_per_track as nat, interleaving as nat));
    table
}

proof fn lemma_interleave_slot_found(spt: nat, interleaving: nat, i: nat, n: nat)
    requires
        i < n <= spt,
        forall|a: nat, b: nat|
            a < spt && b < spt && a != b ==> #[trigger] interleave_target(spt, interleaving, a as int)
                != #[trigger] interleave_target(spt, interleaving, b as int),
    ensures
        interleave_slot(spt, interleaving, interleave_target(spt, interleaving, i as int) as nat, n)
            == i,
    decreases n,
{
    if n - 1 != i {
        lemma_interleave_slot_found(spt, interleaving, i, (n - 1) as nat);
    }
}

/// Where no two sectors have the same target slot, the interleaving table places every sector
/// at its target slot, so that every sector is written exactly once.
pub proof fn lemma_interleaving_table_places_all(spt: nat, interleaving: nat)
    requires
        spt <= usize::MAX,
        forall|a: nat, b: nat|
            a < spt && b < spt && a != b ==> #[trigger] interleave_target(spt, interleaving, a as int)
                != #[trigger] interleave_target(spt, interleaving, b as int),
    ensures
        forall|i: nat|
            i < spt ==> interleaving_table(spt, interleaving)[interleave_target(
                spt,
                interleaving,
                i as int,
            )] == i,
{
    assert forall|i: nat| i < spt implies interleaving_table(spt, interleaving)[interleave_target(
        spt,
        interleaving,
        i as int,
    )] == i by {
        lemma_interleave_slot_found(spt, interleaving, i, spt);
        let t = interleave_target(spt, interleaving, i as int);
        assert(0 <= t < spt);
    }
}

/// No two sectors share a target slot.
pub open spec fn targets_distinct(spt: nat, interleaving: nat) -> bool {
    forall|a: nat, b: nat|
        a < spt && b < spt && a != b ==> #[trigger] interleave_target(spt, interleaving, a as int)
            != #[trigger] interleave_target(spt, interleaving, b as int)
}

/// Where no two sectors share a target slot, every slot is some sector's target, so the
/// interleaving table holds every sector exactly once.
pub proof fn lemma_interleaving_table_permutes(spt: nat, interleaving: nat)
    requires
        0 < spt <= usize::MAX,
        targets_distinct(spt, interleaving),
    ensures
        forall|t: int| 0 <= t < spt ==> #[trigger] interleaving_table(spt, interleaving)[t] < spt,
        forall|t1: int, t2: int|
            0 <= t1 < spt && 0 <= t2 < spt && t1 != t2 ==> #[trigger] interleaving_table(
                spt,
                interleaving,
            )[t1] != #[trigger] interleaving_table(spt, interleaving)[t2],
        forall|i: nat|
            i < spt ==> interleaving_table(spt, interleaving)[interleave_target(
                spt,
                interleaving,
                i as int,
            )] == i,
{
    lemma_interleaving_table_places_all(spt, interleaving);
    let table = interleaving_table(spt, interleaving);
    let slots = vstd::set_lib::set_int_range(0, spt as int);
    let f = |i: int| interleave_target(spt, interleaving, i);
    vstd::set_lib::lemma_int_range(0, spt as int);
    assert(vstd::relations::injective_on(f, slots)) by {
        assert forall|a: int, b: int|
            slots.contains(a) && slots.contains(b) && #[trigger] f(a) == #[trigger] f(b) implies a
            == b by {
            if a != b {
                assert(interleave_target(spt, interleaving, (a as nat) as int) != interleave_target(
                    spt,
                    interleaving,
                    (b as nat) as int,
                ));
            }
        }
    }
    let image = slots.map(f);
    vstd::set_lib::lemma_map_size(slots, image, f);
    assert(image.subset_of(slots)) by {
        assert forall|t: int| image.contains(t) implies slots.contains(t) by {
            let i = choose|i: int| slots.contains(i) && f(i) == t;
            assert(0 <= (i * (interleaving + 1)) % (spt as int) < spt);
        }
    }
    vstd::set_lib::lemma_subset_equality(image, slots);
    // every slot holds the sector whose target it is
    assert forall|t: int| 0 <= t < spt implies #[trigger] table[t] < spt && interleave_target(
        spt,
        interleaving,
        table[t] as int,
    ) == t by {
        assert(slots.contains(t));
        assert(image.contains(t));
        let i = choose|i: int| slots.contains(i) && f(i) == t;
        assert(table[interleave_target(spt, interleaving, (i as nat) as int)] == i as nat);
    }
    assert forall|t1: int, t2: int|
        0 <= t1 < spt && 0 <= t2 < spt && t1 != t2 implies #[trigger] table[t1] != #[trigger] table[t2] by {
        assert(interleave_target(spt, interleaving, table[t1] as int) == t1);
        assert(interleave_target(spt, interleaving, table[t2] as int) == t2);
    }
}

proof fn lemma_table_bounded(spt: nat, interleaving: nat, t: nat, n: nat)
    requires
        n <= spt,
    ensures
        interleave_slot(spt, interleaving, t, n) < spt || (spt == 0),
        n > 0 ==> interleave_slot(spt, interleaving, t, n) < n,
    decreases n,
{
    if n > 0 {
        lemma_table_bounded(spt, interleaving, t, (n - 1) as nat);
    }
}

/// The cell bytes of one ISO track holding the sectors at the start of `sectors_in`.
pub fn generate_iso_track(cylinder: u32, head: u32, geometry: &IsoGeometry, sectors_in: &[u8]) -> (r:
    Vec<u8>)
    requires
        gaps_nonnegative(*geometry),
        geometry.sectors_per_track <= 255,
        geometry.sectors_per_track * (geometry.interleaving + 1) <= usize::MAX,
        sectors_in@.len() >= 512 * geometry.sectors_per_track,
    ensures
        bytes_cells(r@) == items_cells(false, iso_track_items(cylinder, head, *geometry, sectors_in@)),
{
    let spt = geometry.sectors_per_track;
    let table = generate_interleaving_table(spt, geometry.interleaving as usize);
    let mut items: Vec<MfmItem> = Vec::new();
    push_gap(&mut items, geometry.gap1_size as usize, 0x4e);
    let ghost table_spec = interleaving_table(spt as nat, geometry.interleaving as nat);
    let ghost front = items@;
    let mut k: usize = 0;
    while k < spt
        invariant
            k <= spt,
            spt == geometry.sectors_per_track,
            spt <= 255,
            gaps_nonnegative(*geometry),
            sectors_in@.len() >= 512 * spt,
            table@ == table_spec,
            table_spec == interleaving_table(spt as nat, geometry.interleaving as nat),
            plain_items(items@),
            front == gap_items(geometry.gap1_size as nat, 0x4e),
            items@ == front + iso_sectors_items(
                cylinder as u8,
                head as u8,
                *geometry,
                sectors_in@,
                table_spec,
                k as nat,
            ),
        decreases spt - k,
    {
        let index = table[k];
        proof {
            lemma_table_bounded(spt as nat, geometry.interleaving as nat, k as nat, spt as nat);
            assert(index < spt);
        }
        let sectordata = &sectors_in[512 * index..512 * index + 512];
        let ghost before = items@;
        push_sectorheader(&mut items, geometry.gap2_size as usize, cylinder as u8, head as u8, (index + 1) as u8, 2);
        push_gap(&mut items, geometry.gap3a_size as usize, 0x4e);
        push_data_header(&mut items, geometry.gap3b_size as usize, None);
        push_data_with_crc(&mut items, sectordata, None);
        push_gap(&mut items, geometry.gap4_size as usize, 0x4e);
        assert(sectordata@ == sector_data(sectors_in@, index as int));
        assert(items@ =~= before + iso_sector_items(
            cylinder as u8,
            head as u8,
            *geometry,
            (index + 1) as u8,
            sector_data(sectors_in@, index as int),
        ));
        k = k + 1;
    }
    push_gap(&mut items, geometry.gap5_size as usize, 0x4e);
    assert(items@ =~= iso_track_items(cylinder, head, *geometry, sectors_in@));
    encode_plain_items(items.as_slice())
}

/// MFM encodes bytes and sync words, starting after a 0 cell, and packs the cells into
/// bytes.
pub(crate) fn encode_plain_items(items: &[MfmItem]) -> (r: Vec<u8>)
    requires
        plain_items(items@),
    ensures
        bytes_cells(r@) == items_cells(false, items@),
{
    let mut cells: Vec<Bit> = Vec::new();
    let mut encoder = MfmEncoder::new();
    proof {
        lemma_plain_items(items@);
    }
    encoder.feed_items(items, &mut cells);
    proof {
        lemma_items_cells_bytes(false, items@);
        assert(cells@.take(8 * (cells@.len() / 8) as int) == cells@);
    }
    pack_cells(cells.as_slice())
}

/// The cylinder counts an ISO image may have.
pub open spec fn possible_cylinder_counts() -> Seq<usize> {
    seq![38usize, 39, 40, 41, 42, 78, 79, 80, 81, 82]
}

/// The sector counts per track an ISO image may have.
pub open spec fn possible_sector_counts() -> Seq<usize> {
    seq![9usize, 10, 11, 15, 18]
}

/// The first of the candidates `k..50` whose image size is `number_bytes`; candidate `k` has
/// `possible_sector_counts()[k / 10]` sectors and `possible_cylinder_counts()[k % 10]`
/// cylinders, so that fewer sectors per track are preferred.
pub open spec fn geometry_search(number_bytes: nat, k: nat) -> Option<(usize, usize)>
    decreases 50 - k,
{
    if k >= 50 {
        None
    } else {
        let c = possible_cylinder_counts()[(k % 10) as int];
        let s = possible_sector_counts()[(k / 10) as int];
        if number_bytes == c * 2 * 512 * s {
            Some((c, s))
        } else {
            geometry_search(number_bytes, k + 1)
        }
    }
}

/// The cylinders and sectors per track of an ISO image of `number_bytes` bytes, or `None`
/// where no supported geometry has that size.
pub(crate) fn find_floppy_geometry(number_bytes: usize) -> (r: Option<(usize, usize)>)
    ensures
        r == geometry_search(number_bytes as nat, 0),
{
    let cylinder_counts: [usize; 10] = [38, 39, 40, 41, 42, 78, 79, 80, 81, 82];
    let sector_counts: [usize; 5] = [9, 10, 11, 15, 18];
    assert(cylinder_counts@ == possible_cylinder_counts());
    assert(sector_counts@ == possible_sector_counts());
    let mut si: usize = 0;
    while si < 5
        invariant
            si <= 5,
            cylinder_counts@ == possible_cylinder_counts(),
            sector_counts@ == possible_sector_counts(),
            geometry_search(number_bytes as nat, 0) == geometry_search(number_bytes as nat, (10 * si) as nat),
        decreases 5 - si,
    {
        let sectors = sector_counts[si];
        let mut ci: usize = 0;
        while ci < 10
            invariant
                si < 5,
                ci <= 10,
                sectors == possible_sector_counts()[si as int],
                cylinder_counts@ == possible_cylinder_counts(),
                sector_counts@ == possible_sector_counts(),
                geometry_search(number_bytes as nat, 0) == geometry_search(
                    number_bytes as nat,
                    (10 * si + ci) as nat,
                ),
            decreases 10 - ci,
        {
            let cylinders = cylinder_counts[ci];
            let ghost k: nat = (10 * si + ci) as nat;
            assert(k % 10 == ci && k / 10 == si);
            assert(cylinders * 2 * 512 * sectors <= 82 * 2 * 512 * 18) by (nonlinear_arith)
                requires
                    cylinders <= 82,
                    sectors <= 18,
            ;
            if number_bytes == cylinders * HEADS * BYTES_PER_SECTOR * sectors {
                return Some((cylinders, sectors));
            }
            ci = ci + 1;
        }
        si = si + 1;
    }
    None
}

/// The cylinders and sectors per track of an ISO image of `number_bytes` bytes, which some
/// supported geometry has; sector counts are tried first, so that 80 cylinders of 9 sectors
/// win over 40 cylinders of 18.
pub fn calculate_floppy_geometry(number_bytes: usize) -> (r: (usize, usize))
    requires
        geometry_search(number_bytes as nat, 0) is Some,
    ensures
        Some(r) == geometry_search(number_bytes as nat, 0),
{
    match find_floppy_geometry(number_bytes) {
        Some(g) => g,
        None => (0, 0),
    }
}

/// The bytes of track `index` (cylinder times two plus head) of an ISO image.
pub open spec fn iso_track_data(image: Seq<u8>, spt: int, index: int) -> Seq<u8> {
    image.subrange(index * spt * 512, (index + 1) * spt * 512)
}

/// The raw tracks of an ISO image, a plain sequence of 512 byte sectors, track after track
/// and head after head. The geometry comes from the image's size; 15 or more sectors per
/// track make a high density disk.
pub fn parse_iso_image(buffer: &[u8]) -> (r: Result<RawImage, ImageError>)
    ensures
        geometry_search(buffer@.len(), 0) is None ==> (r matches Err(e) && e
            == ImageError::WrongImageSize),
        geometry_search(buffer@.len(), 0) matches Some((cylinders, spt)) ==> (r matches Ok(image)
            && {
            let g = spec_iso_geometry(spt);
            let cellsize: i32 = if spt >= 15 { 84 } else { 168 };
            &&& image.density == (if spt >= 15 { Density::High } else { Density::SingleDouble })
            &&& image.disk_type == DiskType::Inch3_5
            &&& image.tracks@.len() == 2 * cylinders
            &&& forall|k: int|
                0 <= k < 2 * cylinders ==> {
                    let t = #[trigger] image.tracks@[k];
                    &&& t.cylinder == k / 2
                    &&& t.head == k % 2
                    &&& t.encoding == Encoding::MFM
                    &&& t.write_precompensation == 0
                    &&& !t.has_non_flux_reversal_area
                    &&& bytes_cells(t.raw_data@) == items_cells(
                        false,
                        iso_track_items(
                            t.cylinder,
                            t.head,
                            g,
                            iso_track_data(buffer@, spt as int, k),
                        ),
                    )
                    &&& t.densitymap@ == seq![
                        DensityMapEntry {
                            number_of_cellbytes: t.raw_data@.len() as usize,
                            cell_size: PulseDuration(cellsize),
                        },
                    ]
                }
        }),
{
    let (cylinders, sectors_per_track) = match find_floppy_geometry(buffer.len()) {
        Some(g) => g,
        None => {
            return Err(ImageError::WrongImageSize);
        },
    };
    proof {
        reveal_with_fuel(geometry_search, 51);
    }
    assert(cylinders <= 82 && 9 <= sectors_per_track <= 18);
    assert(buffer@.len() == cylinders * 2 * 512 * sectors_per_track);
    let geometry = IsoGeometry::new(sectors_per_track);
    let (cellsize, density) = if sectors_per_track >= 15 {
        (84i32, Density::High)
    } else {
        (168i32, Density::SingleDouble)
    };
    let track_bytes: usize = sectors_per_track * BYTES_PER_SECTOR;
    let mut tracks: Vec<RawTrack> = Vec::new();
    let mut cylinder: usize = 0;
    while cylinder < cylinders
        invariant
            cylinders <= 82,
            9 <= sectors_per_track <= 18,
            track_bytes == sectors_per_track * 512,
            buffer@.len() == cylinders * 2 * 512 * sectors_per_track,
            geometry == spec_iso_geometry(sectors_per_track),
            cellsize == (if sectors_per_track >= 15 { 84i32 } else { 168i32 }),
            cylinder <= cylinders,
            tracks@.len() == 2 * cylinder,
            forall|k: int|
                0 <= k < tracks@.len() ==> {
                    let t = #[trigger] tracks@[k];
                    &&& t.cylinder == k / 2
                    &&& t.head == k % 2
                    &&& t.encoding == Encoding::MFM
                    &&& t.write_precompensation == 0
                    &&& !t.has_non_flux_reversal_area
                    &&& bytes_cells(t.raw_data@) == items_cells(
                        false,
                        iso_track_items(
                            t.cylinder,
                            t.head,
                            geometry,
                            iso_track_data(buffer@, sectors_per_track as int, k),
                        ),
                    )
                    &&& t.densitymap@ == seq![
                        DensityMapEntry {
                            number_of_cellbytes: t.raw_data@.len() as usize,
                            cell_size: PulseDuration(cellsize),
                        },
                    ]
                },
        decreases cylinders - cylinder,
    {
        let mut head: usize = 0;
        while head < HEADS
            invariant
                cylinders <= 82,
                9 <= sectors_per_track <= 18,
                track_bytes == sectors_per_track * 512,
                buffer@.len() == cylinders * 2 * 512 * sectors_per_track,
                geometry == spec_iso_geometry(sectors_per_track),
                cellsize == (if sectors_per_track >= 15 { 84i32 } else { 168i32 }),
                cylinder < cylinders,
                head <= 2,
                tracks@.len() == 2 * cylinder + head,
                forall|k: int|
                    0 <= k < tracks@.len() ==> {
                        let t = #[trigger] tracks@[k];
                        &&& t.cylinder == k / 2
                        &&& t.head == k % 2
                        &&& t.encoding == Encoding::MFM
                        &&& t.write_precompensation == 0
                        &&& !t.has_non_flux_reversal_area
                        &&& bytes_cells(t.raw_data@) == items_cells(
                            false,
                            iso_track_items(
                                t.cylinder,
                                t.head,
                                geometry,
                                iso_track_data(buffer@, sectors_per_track as int, k),
                            ),
                        )
                        &&& t.densitymap@ == seq![
                            DensityMapEntry {
                                number_of_cellbytes: t.raw_data@.len() as usize,
                                cell_size: PulseDuration(cellsize),
                            },
                        ]
                    },
            decreases 2 - head,
        {
            let index: usize = 2 * cylinder + head;
            let buffer_len: usize = buffer.len();
            assert(index * track_bytes + track_bytes <= buffer@.len()) by (nonlinear_arith)
                requires
                    index < 2 * cylinders,
                    track_bytes == sectors_per_track * 512,
                    buffer@.len() == cylinders * 2 * 512 * sectors_per_track,
            ;
            let start: usize = index * track_bytes;
            let data = &buffer[start..start + track_bytes];
            assert(data@ == iso_track_data(buffer@, sectors_per_track as int, index as int)) by {
                assert(index * sectors_per_track * 512 == index * track_bytes) by (nonlinear_arith)
                    requires
                        track_bytes == sectors_per_track * 512,
                ;
                assert((index + 1) * sectors_per_track * 512 == index * track_bytes + track_bytes) by (nonlinear_arith)
                    requires
                        track_bytes == sectors_per_track * 512,
                ;
            }
            assert(geometry.sectors_per_track * (geometry.interleaving + 1) <= 36) by (nonlinear_arith)
                requires
                    geometry.sectors_per_track <= 18,
                    geometry.interleaving <= 1,
            ;
            let trackbuf = generate_iso_track(cylinder as u32, head as u32, &geometry, data);
            let mut densitymap: Vec<DensityMapEntry> = Vec::new();
            densitymap.push(
                DensityMapEntry { number_of_cellbytes: trackbuf.len(), cell_size: PulseDuration(cellsize) },
            );
            let track = RawTrack::new(cylinder as u32, head as u32, trackbuf, densitymap, Encoding::MFM);
            proof {
                let k = index as int;
                assert(k / 2 == cylinder && k % 2 == head);
                assert(track.densitymap@ =~= seq![
                    DensityMapEntry {
                        number_of_cellbytes: track.raw_data@.len() as usize,
                        cell_size: PulseDuration(cellsize),
                    },
                ]);
            }
            tracks.push(track);
            head = head + 1;
        }
        cylinder = cylinder + 1;
    }
    Ok(RawImage { tracks, disk_type: DiskType::Inch3_5, density })
}

} // verus!
