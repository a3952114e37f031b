//! Amstrad CPC disk images (DSK, plain and extended), turned into MFM tracks.
use vstd::arithmetic::power2::{lemma2_to64_rest, lemma_pow2_strictly_increases, pow2};
use vstd::bits::lemma_u64_shl_is_mul;
use vstd::prelude::*;

use crate::bitstream::bytes_cells;
use crate::bytes::{le16, read_le16, same_bytes};
use crate::error::ImageError;
use crate::image_iso::{
    encode_plain_items, gap_items, gaps_nonnegative, iso_data_header_items, iso_data_items,
    iso_sectorheader_items, plain_items, push_data_header, push_data_with_crc, push_gap,
    push_sectorheader, spec_iso_geometry, IsoGeometry, ISO_DDAM,
};
use crate::mfm::{items_cells, MfmItem};

verus! {

/// Bit of the second FDC status byte of a sector that marks its data as deleted.
pub const FDC_765_STAT2_CONTROL_MARK: u8 = 0x40;

/// One track of a DSK image: where it belongs and its MFM encoded bytes.
#[derive(Debug, Clone, PartialEq, Eq)]
pub struct DskTrack {
    pub cylinder: u32,
    pub head: u32,
    pub raw_data: Vec<u8>,
}

/// "MV - CPCEMU Disk-File\r\nDisk-Info\r\n"
pub open spec fn standard_signature() -> Seq<u8> {
    seq![
        0x4du8, 0x56, 0x20, 0x2d, 0x20, 0x43, 0x50, 0x43, 0x45, 0x4d, 0x55, 0x20, 0x44, 0x69,
        0x73, 0x6b, 0x2d, 0x46, 0x69, 0x6c, 0x65, 0x0d, 0x0a, 0x44, 0x69, 0x73, 0x6b, 0x2d, 0x49,
        0x6e, 0x66, 0x6f, 0x0d, 0x0a,
    ]
}

/// "EXTENDED CPC DSK File\r\nDisk-Info\r\n"
pub open spec fn extended_signature() -> Seq<u8> {
    seq![
        0x45u8, 0x58, 0x54, 0x45, 0x4e, 0x44, 0x45, 0x44, 0x20, 0x43, 0x50, 0x43, 0x20, 0x44,
        0x53, 0x4b, 0x20, 0x46, 0x69, 0x6c, 0x65, 0x0d, 0x0a, 0x44, 0x69, 0x73, 0x6b, 0x2d, 0x49,
        0x6e, 0x66, 0x6f, 0x0d, 0x0a,
    ]
}

/// "Track-Info\r\n"
pub open spec fn track_signature() -> Seq<u8> {
    seq![0x54u8, 0x72, 0x61, 0x63, 0x6b, 0x2d, 0x49, 0x6e, 0x66, 0x6f, 0x0d, 0x0a]
}

/// The number of data bytes of the sector whose information entry is at `p`: the stored
/// length in the extended format, else `128 << size`.
pub open spec fn sector_data_length(b: Seq<u8>, p: int, extended: bool) -> int {
    if extended {
        le16(b, p + 6) as int
    } else {
        (128 * pow2(b[p + 3] as nat)) as int
    }
}

/// `x` rounded up to a multiple of 256: where the next sector's data starts.
pub open spec fn round_up_256(x: int) -> int {
    if x % 256 == 0 {
        x
    } else {
        x - x % 256 + 256
    }
}

/// The data address mark of a sector: the deleted one where its status says so.
pub open spec fn deleted_mark(status2: u8) -> Option<u8> {
    if status2 & FDC_765_STAT2_CONTROL_MARK != 0 {
        Some(ISO_DDAM)
    } else {
        None
    }
}

/// A sector as the information entry at `p` describes it, with `data` as its contents.
pub open spec fn dsk_sector_items(g: IsoGeometry, b: Seq<u8>, p: int, data: Seq<u8>) -> Seq<MfmItem> {
    let mark = deleted_mark(b[p + 5]);
    iso_sectorheader_items(g.gap2_size as nat, b[p], b[p + 1], b[p + 2], b[p + 3]) + gap_items(
        g.gap3a_size as nat,
        0x4e,
    ) + iso_data_header_items(g.gap3b_size as nat, mark) + iso_data_items(data, mark) + gap_items(
        g.gap4_size as nat,
        0x4e,
    )
}

/// Sectors `i..n` of the track whose information block starts at `blk`, the data of sector
/// `i` starting at `off`: their items and where the data of the next track starts.
pub open spec fn dsk_sectors(
    b: Seq<u8>,
    extended: bool,
    g: IsoGeometry,
    blk: int,
    n: nat,
    i: nat,
    off: int,
) -> Result<(Seq<MfmItem>, int), ImageError>
    decreases n - i,
{
    if i >= n {
        Ok((Seq::empty(), off))
    } else {
        let p = blk + 0x18 + 8 * i;
        if p + 8 > b.len() {
            Err(ImageError::OutOfBounds)
        } else {
            let len = sector_data_length(b, p, extended);
            if off + len > b.len() {
                Err(ImageError::OutOfBounds)
            } else {
                let items = dsk_sector_items(g, b, p, b.subrange(off, off + len));
                match dsk_sectors(b, extended, g, blk, n, i + 1, round_up_256(off + len)) {
                    Err(e) => Err(e),
                    Ok((rest, next)) => Ok((items + rest, next)),
                }
            }
        }
    }
}

/// The track whose information block starts at `off`: its cylinder, head, items and where
/// the next track's information block starts.
pub open spec fn dsk_track(b: Seq<u8>, extended: bool, off: int) -> Result<
    (u8, u8, Seq<MfmItem>, int),
    ImageError,
> {
    if off + 12 > b.len() {
        Err(ImageError::OutOfBounds)
    } else if b.subrange(off, off + 12) != track_signature() {
        Err(ImageError::BadSignature)
    } else if off + 0x18 > b.len() {
        Err(ImageError::OutOfBounds)
    } else {
        let g = spec_iso_geometry(b[off + 0x15] as usize);
        match dsk_sectors(b, extended, g, off, b[off + 0x15] as nat, 0, off + 0x100) {
            Err(e) => Err(e),
            Ok((items, next)) => Ok(
                (
                    b[off + 0x10],
                    b[off + 0x11],
                    gap_items(g.gap1_size as nat, 0x4e) + items + gap_items(g.gap5_size as nat, 0x4e),
                    next,
                ),
            ),
        }
    }
}

/// Tracks `k..nt`, the next information block at `off`; a track whose size in the table of
/// an extended image is 0 is unformatted and skipped.
pub open spec fn dsk_tracks(b: Seq<u8>, extended: bool, nt: nat, k: nat, off: int) -> Result<
    Seq<(u8, u8, Seq<MfmItem>)>,
    ImageError,
>
    decreases nt - k,
{
    if k >= nt {
        Ok(Seq::empty())
    } else if off > b.len() {
        Err(ImageError::OutOfBounds)
    } else if extended && b[0x34 + k as int] == 0 {
        dsk_tracks(b, extended, nt, k + 1, off)
    } else {
        match dsk_track(b, extended, off) {
            Err(e) => Err(e),
            Ok((c, h, items, next)) => match dsk_tracks(b, extended, nt, k + 1, next) {
                Err(e) => Err(e),
                Ok(rest) => Ok(seq![(c, h, items)] + rest),
            },
        }
    }
}

/// The Track-Info block at `o` of `b` names cylinder `c` (its byte at `0x10`) and head `h`
/// (its byte at `0x11`).
pub open spec fn info_block_names(b: Seq<u8>, o: int, c: u8, h: u8) -> bool {
    &&& 0 <= o && o + 0x18 <= b.len()
    &&& b.subrange(o, o + 12) == track_signature()
    &&& c == b[o + 0x10]
    &&& h == b[o + 0x11]
}

/// Some Track-Info block of `b` names cylinder `c` and head `h`.
pub open spec fn named_by_info_block(b: Seq<u8>, c: u8, h: u8) -> bool {
    exists|o: int| #[trigger] info_block_names(b, o, c, h)
}

/// A track read from its Track-Info block is placed at the cylinder the block stores at
/// `0x10` and the head it stores at `0x11`.
pub proof fn lemma_dsk_track_position(b: Seq<u8>, extended: bool, off: int)
    requires
        0 <= off,
    ensures
        dsk_track(b, extended, off) matches Ok((c, h, _, _)) ==> info_block_names(b, off, c, h),
{
}

proof fn lemma_dsk_sectors_next(b: Seq<u8>, extended: bool, g: IsoGeometry, blk: int, n: nat, i: nat, off: int)
    ensures
        dsk_sectors(b, extended, g, blk, n, i, off) matches Ok((_, next)) ==> next >= off,
    decreases n - i,
{
    if i < n {
        let p = blk + 0x18 + 8 * i;
        if p + 8 <= b.len() {
            let len = sector_data_length(b, p, extended);
            if off + len <= b.len() {
                if !extended {
                    vstd::arithmetic::power2::lemma_pow2_pos(b[p + 3] as nat);
                }
                assert(len >= 0);
                let x = off + len;
                assert(round_up_256(x) >= x);
                lemma_dsk_sectors_next(b, extended, g, blk, n, i + 1, round_up_256(x));
            }
        }
    }
}

proof fn lemma_dsk_next_after(b: Seq<u8>, extended: bool, off: int)
    ensures
        dsk_track(b, extended, off) matches Ok((_, _, _, next)) ==> next >= off + 0x100,
{
    if off + 0x18 <= b.len() {
        let g = spec_iso_geometry(b[off + 0x15] as usize);
        lemma_dsk_sectors_next(b, extended, g, off, b[off + 0x15] as nat, 0, off + 0x100);
    }
}

/// Every track of a DSK image sits at the cylinder and head that one of its Track-Info blocks
/// stores at `0x10` and `0x11`.
pub proof fn lemma_dsk_tracks_positions(b: Seq<u8>, extended: bool, nt: nat, k: nat, off: int)
    requires
        0 <= off,
    ensures
        dsk_tracks(b, extended, nt, k, off) matches Ok(ts) ==> forall|i: int|
            0 <= i < ts.len() ==> #[trigger] named_by_info_block(b, ts[i].0, ts[i].1),
    decreases nt - k,
{
    if k < nt && off <= b.len() {
        if extended && b[0x34 + k as int] == 0 {
            lemma_dsk_tracks_positions(b, extended, nt, k + 1, off);
        } else {
            lemma_dsk_track_position(b, extended, off);
            match dsk_track(b, extended, off) {
                Err(e) => {},
                Ok((c, h, items, next)) => {
                    lemma_dsk_next_after(b, extended, off);
                    lemma_dsk_tracks_positions(b, extended, nt, k + 1, next);
                    match dsk_tracks(b, extended, nt, k + 1, next) {
                        Err(e) => {},
                        Ok(rest) => {
                            let ts = seq![(c, h, items)] + rest;
                            assert forall|i: int| 0 <= i < ts.len() implies #[trigger] named_by_info_block(
                                b,
                                ts[i].0,
                                ts[i].1,
                            ) by {
                                if i == 0 {
                                    assert(info_block_names(b, off, c, h));
                                } else {
                                    assert(ts[i] == rest[i - 1]);
                                }
                            }
                        },
                    }
                },
            }
        }
    }
}

/// Every track of a DSK image sits at the cylinder and head that one of its Track-Info blocks
/// stores at `0x10` and `0x11`.
pub proof fn lemma_dsk_image_positions(b: Seq<u8>)
    ensures
        dsk_image(b) matches Ok(ts) ==> forall|i: int|
            0 <= i < ts.len() ==> #[trigger] named_by_info_block(b, ts[i].0, ts[i].1),
{
    if b.len() >= 256 {
        let sig = b.subrange(0, 34);
        let extended = sig == extended_signature();
        let nt = b[0x30] as nat * b[0x31] as nat;
        lemma_dsk_tracks_positions(b, extended, nt, 0, 0x100);
    }
}

/// The tracks of a DSK image, each as cylinder, head and MFM items, or why it cannot be read.
pub open spec fn dsk_image(b: Seq<u8>) -> Result<Seq<(u8, u8, Seq<MfmItem>)>, ImageError> {
    if b.len() < 256 {
        Err(ImageError::OutOfBounds)
    } else {
        let sig = b.subrange(0, 34);
        if sig != standard_signature() && sig != extended_signature() {
            Err(ImageError::BadSignature)
        } else {
            let extended = sig == extended_signature();
            let nt = b[0x30] as nat * b[0x31] as nat;
            if extended && 0x34 + nt > 256 {
                Err(ImageError::OutOfBounds)
            } else {
                dsk_tracks(b, extended, nt, 0, 0x100)
            }
        }
    }
}

pub open spec fn prepend_items(acc: Seq<MfmItem>, r: Result<(Seq<MfmItem>, int), ImageError>) -> Result<
    (Seq<MfmItem>, int),
    ImageError,
> {
    match r {
        Err(e) => Err(e),
        Ok((rest, next)) => Ok((acc + rest, next)),
    }
}

pub open spec fn prepend_tracks(
    acc: Seq<(u8, u8, Seq<MfmItem>)>,
    r: Result<Seq<(u8, u8, Seq<MfmItem>)>, ImageError>,
) -> Result<Seq<(u8, u8, Seq<MfmItem>)>, ImageError> {
    match r {
        Err(e) => Err(e),
        Ok(rest) => Ok(acc + rest),
    }
}

/// `128 << size` where it fits in 64 bits; any larger length points past every buffer.
fn standard_sector_length(size: u8) -> (r: Option<u64>)
    ensures
        match r {
            Some(len) => len == 128 * pow2(size as nat),
            None => 128 * pow2(size as nat) > usize::MAX,
        },
{
    proof {
        lemma2_to64_rest();
    }
    if size < 57 {
        proof {
            if size < 56 {
                lemma_pow2_strictly_increases(size as nat, 56);
            }
            assert(pow2(56) == 0x100000000000000);
            lemma_u64_shl_is_mul(128, size as u64);
        }
        Some(128u64 << (size as u64))
    } else {
        proof {
            if size > 57 {
                lemma_pow2_strictly_increases(57, size as nat);
            }
            assert(pow2(57) == 0x200000000000000);
        }
        None
    }
}

/// Appends the sector whose information entry is at `p` and whose data starts at `off`;
/// gives where the next sector's data starts.
fn push_dsk_sector(
    b: &[u8],
    extended: bool,
    g: &IsoGeometry,
    p: usize,
    off: usize,
    v: &mut Vec<MfmItem>,
) -> (r: Result<usize, ImageError>)
    requires
        b@.len() <= usize::MAX - 0x1000,
        p + 8 <= b@.len(),
        off <= b@.len() + 0x100,
        gaps_nonnegative(*g),
        plain_items(old(v)@),
    ensures
        plain_items(final(v)@),
        match r {
            Ok(next) => {
                let len = sector_data_length(b@, p as int, extended);
                &&& off + len <= b@.len()
                &&& final(v)@ == old(v)@ + dsk_sector_items(*g, b@, p as int, b@.subrange(off as int, off + len))
                &&& next == round_up_256(off + len)
                &&& next <= b@.len() + 0x100
            },
            Err(e) => e == ImageError::OutOfBounds && off + sector_data_length(b@, p as int, extended) > b@.len(),
        },
{
    let size = b[p + 3];
    let len: u64 = if extended {
        match read_le16(b, p + 6) {
            Some(x) => x as u64,
            None => {
                return Err(ImageError::OutOfBounds);
            },
        }
    } else {
        match standard_sector_length(size) {
            Some(x) => x,
            None => {
                return Err(ImageError::OutOfBounds);
            },
        }
    };
    if off > b.len() || len > (b.len() - off) as u64 {
        return Err(ImageError::OutOfBounds);
    }
    let end = off + len as usize;
    let data = &b[off..end];
    let mark = if b[p + 5] & FDC_765_STAT2_CONTROL_MARK != 0 {
        Some(ISO_DDAM)
    } else {
        None
    };
    let ghost before = v@;
    push_sectorheader(v, g.gap2_size as usize, b[p], b[p + 1], b[p + 2], size);
    push_gap(v, g.gap3a_size as usize, 0x4e);
    push_data_header(v, g.gap3b_size as usize, mark);
    push_data_with_crc(v, data, mark);
    push_gap(v, g.gap4_size as usize, 0x4e);
    assert(data@ == b@.subrange(off as int, off + len));
    assert(v@ =~= before + dsk_sector_items(*g, b@, p as int, data@));
    if end % 256 == 0 {
        Ok(end)
    } else {
        Ok(end - end % 256 + 256)
    }
}

/// The sectors of the track whose information block starts at `blk`.
fn dsk_sector_run(b: &[u8], extended: bool, g: &IsoGeometry, blk: usize, n: u8, off0: usize) -> (r:
    Result<(Vec<MfmItem>, usize), ImageError>)
    requires
        b@.len() <= usize::MAX - 0x1000,
        blk + 0x18 <= b@.len(),
        off0 <= b@.len() + 0x100,
        gaps_nonnegative(*g),
    ensures
        match r {
            Ok((v, next)) => dsk_sectors(b@, extended, *g, blk as int, n as nat, 0, off0 as int) == Ok::<
                (Seq<MfmItem>, int),
                ImageError,
            >((v@, next as int)) && plain_items(v@) && next <= b@.len() + 0x100,
            Err(e) => dsk_sectors(b@, extended, *g, blk as int, n as nat, 0, off0 as int) == Err::<
                (Seq<MfmItem>, int),
                ImageError,
            >(e),
        },
{
    let ghost whole = dsk_sectors(b@, extended, *g, blk as int, n as nat, 0, off0 as int);
    let mut v: Vec<MfmItem> = Vec::new();
    let mut off = off0;
    let mut i: usize = 0;
    assert(v@ + Seq::<MfmItem>::empty() =~= Seq::<MfmItem>::empty());
    while i < n as usize
        invariant
            i <= n,
            b@.len() <= usize::MAX - 0x1000,
            blk + 0x18 <= b@.len(),
            off <= b@.len() + 0x100,
            gaps_nonnegative(*g),
            plain_items(v@),
            whole == dsk_sectors(b@, extended, *g, blk as int, n as nat, 0, off0 as int),
            whole == prepend_items(v@, dsk_sectors(b@, extended, *g, blk as int, n as nat, i as nat, off as int)),
        decreases n - i,
    {
        let p = blk + 0x18 + 8 * i;
        if p + 8 > b.len() {
            return Err(ImageError::OutOfBounds);
        }
        let ghost before = v@;
        let next = push_dsk_sector(b, extended, g, p, off, &mut v)?;
        proof {
            let len = sector_data_length(b@, p as int, extended);
            let items = dsk_sector_items(*g, b@, p as int, b@.subrange(off as int, off + len));
            let tail = dsk_sectors(b@, extended, *g, blk as int, n as nat, (i + 1) as nat, next as int);
            match tail {
                Err(e) => {},
                Ok((rest, nx)) => {
                    assert(before + (items + rest) =~= v@ + rest);
                },
            }
        }
        off = next;
        i = i + 1;
    }
    assert(v@ + Seq::<MfmItem>::empty() =~= v@);
    Ok((v, off))
}

/// The track whose information block starts at `off`, its items still to be encoded.
fn dsk_track_items(b: &[u8], extended: bool, off: usize) -> (r: Result<(u8, u8, Vec<MfmItem>, usize), ImageError>)
    requires
        b@.len() <= usize::MAX - 0x1000,
        off <= b@.len(),
    ensures
        match r {
            Ok((c, h, v, next)) => dsk_track(b@, extended, off as int) == Ok::<
                (u8, u8, Seq<MfmItem>, int),
                ImageError,
            >((c, h, v@, next as int)) && plain_items(v@) && next <= b@.len() + 0x100
                && c == b@[off + 0x10] && h == b@[off + 0x11],
            Err(e) => dsk_track(b@, extended, off as int) == Err::<(u8, u8, Seq<MfmItem>, int), ImageError>(e),
        },
{
    if b.len() - off < 12 {
        return Err(ImageError::OutOfBounds);
    }
    let sig = vec![0x54u8, 0x72, 0x61, 0x63, 0x6b, 0x2d, 0x49, 0x6e, 0x66, 0x6f, 0x0d, 0x0a];
    assert(sig@ =~= track_signature());
    if !same_bytes(&b[off..off + 12], sig.as_slice()) {
        return Err(ImageError::BadSignature);
    }
    if b.len() - off < 0x18 {
        return Err(ImageError::OutOfBounds);
    }
    let n = b[off + 0x15];
    let g = IsoGeometry::new(n as usize);
    let (sectors, next) = dsk_sector_run(b, extended, &g, off, n, off + 0x100)?;
    let mut v: Vec<MfmItem> = Vec::new();
    push_gap(&mut v, g.gap1_size as usize, 0x4e);
    let mut i: usize = 0;
    let ghost front = v@;
    while i < sectors.len()
        invariant
            i <= sectors@.len(),
            plain_items(sectors@),
            plain_items(v@),
            v@ == front + sectors@.take(i as int),
        decreases sectors@.len() - i,
    {
        v.push(sectors[i]);
        i = i + 1;
        assert(v@ =~= front + sectors@.take(i as int));
    }
    push_gap(&mut v, g.gap5_size as usize, 0x4e);
    assert(sectors@.take(sectors@.len() as int) =~= sectors@);
    assert(v@ =~= gap_items(g.gap1_size as nat, 0x4e) + sectors@ + gap_items(g.gap5_size as nat, 0x4e));
    Ok((b[off + 0x10], b[off + 0x11], v, next))
}

/// Reads a DSK image: each formatted track as the MFM encoding of its sectors, with the
/// gaps of an ISO track of as many sectors, data marked deleted where the sector's status
/// says so, and the sizes the image stores.
pub fn parse_dsk_image(buffer: &[u8]) -> (r: Result<Vec<DskTrack>, ImageError>)
    requires
        buffer@.len() <= usize::MAX - 0x1000,
    ensures
        match r {
            Ok(tracks) => dsk_image(buffer@) is Ok && tracks@.len() == dsk_image(buffer@)->Ok_0.len()
                && forall|i: int|
                0 <= i < tracks@.len() ==> {
                    let t = dsk_image(buffer@)->Ok_0[i];
                    &&& #[trigger] tracks@[i].cylinder == t.0 as u32
                    &&& tracks@[i].head == t.1 as u32
                    &&& bytes_cells(tracks@[i].raw_data@) == items_cells(false, t.2)
                },
            Err(e) => dsk_image(buffer@) == Err::<Seq<(u8, u8, Seq<MfmItem>)>, ImageError>(e),
        },
        r matches Ok(tracks) ==> forall|i: int|
            0 <= i < tracks@.len() ==> {
                &&& #[trigger] tracks@[i].cylinder < 256
                &&& tracks@[i].head < 256
                &&& named_by_info_block(buffer@, tracks@[i].cylinder as u8, tracks@[i].head as u8)
            },
{
    proof {
        lemma_dsk_image_positions(buffer@);
    }
    if buffer.len() < 256 {
        return Err(ImageError::OutOfBounds);
    }
    let standard = vec![
        0x4du8, 0x56, 0x20, 0x2d, 0x20, 0x43, 0x50, 0x43, 0x45, 0x4d, 0x55, 0x20, 0x44, 0x69,
        0x73, 0x6b, 0x2d, 0x46, 0x69, 0x6c, 0x65, 0x0d, 0x0a, 0x44, 0x69, 0x73, 0x6b, 0x2d, 0x49,
        0x6e, 0x66, 0x6f, 0x0d, 0x0a,
    ];
    let ext = vec![
        0x45u8, 0x58, 0x54, 0x45, 0x4e, 0x44, 0x45, 0x44, 0x20, 0x43, 0x50, 0x43, 0x20, 0x44,
        0x53, 0x4b, 0x20, 0x46, 0x69, 0x6c, 0x65, 0x0d, 0x0a, 0x44, 0x69, 0x73, 0x6b, 0x2d, 0x49,
        0x6e, 0x66, 0x6f, 0x0d, 0x0a,
    ];
    assert(standard@ =~= standard_signature());
    assert(ext@ =~= extended_signature());
    let sig = &buffer[0..34];
    let extended = if same_bytes(sig, standard.as_slice()) {
        false
    } else if same_bytes(sig, ext.as_slice()) {
        true
    } else {
        return Err(ImageError::BadSignature);
    };
    assert(extended == (buffer@.subrange(0, 34) == extended_signature())) by {
        if buffer@.subrange(0, 34) == extended_signature() {
            assert(standard_signature()[0] != extended_signature()[0]);
        }
    }
    let cylinders = buffer[0x30] as usize;
    let sides = buffer[0x31] as usize;
    assert(cylinders * sides <= 255 * 255) by (nonlinear_arith)
        requires
            cylinders <= 255,
            sides <= 255,
    ;
    let nt: usize = cylinders * sides;
    if extended && 0x34 + nt > 256 {
        return Err(ImageError::OutOfBounds);
    }
    let ghost whole = dsk_image(buffer@);
    let mut tracks: Vec<DskTrack> = Vec::new();
    let ghost mut done: Seq<(u8, u8, Seq<MfmItem>)> = Seq::empty();
    let mut off: usize = 0x100;
    let mut k: usize = 0;
    assert(done + Seq::<(u8, u8, Seq<MfmItem>)>::empty() =~= done);
    while k < nt
        invariant
            k <= nt,
            nt == buffer@[0x30] as nat * buffer@[0x31] as nat,
            extended ==> 0x34 + nt <= 256,
            buffer@.len() >= 256,
            buffer@.len() <= usize::MAX - 0x1000,
            off <= buffer@.len() + 0x100,
            whole == dsk_image(buffer@),
            whole == prepend_tracks(done, dsk_tracks(buffer@, extended, nt as nat, k as nat, off as int)),
            tracks@.len() == done.len(),
            forall|i: int|
                0 <= i < tracks@.len() ==> {
                    let t = #[trigger] done[i];
                    &&& tracks@[i].cylinder == t.0 as u32
                    &&& tracks@[i].head == t.1 as u32
                    &&& bytes_cells(tracks@[i].raw_data@) == items_cells(false, t.2)
                },
        decreases nt - k,
    {
        if off > buffer.len() {
            return Err(ImageError::OutOfBounds);
        }
        if extended && buffer[0x34 + k] == 0 {
            k = k + 1;
        } else {
            let (c, h, items, next) = dsk_track_items(buffer, extended, off)?;
            let raw_data = encode_plain_items(items.as_slice());
            proof {
                let tail = dsk_tracks(buffer@, extended, nt as nat, (k + 1) as nat, next as int);
                match tail {
                    Err(e) => {},
                    Ok(rest) => {
                        assert(done + (seq![(c, h, items@)] + rest) =~= done.push((c, h, items@)) + rest);
                    },
                }
                done = done.push((c, h, items@));
            }
            tracks.push(DskTrack { cylinder: c as u32, head: h as u32, raw_data });
            off = next;
            k = k + 1;
        }
    }
    assert(done + Seq::<(u8, u8, Seq<MfmItem>)>::empty() =~= done);
    proof {
        assert forall|i: int| 0 <= i < tracks@.len() implies {
            &&& #[trigger] tracks@[i].cylinder < 256
            &&& tracks@[i].head < 256
            &&& named_by_info_block(buffer@, tracks@[i].cylinder as u8, tracks@[i].head as u8)
        } by {
            let t = dsk_image(buffer@)->Ok_0[i];
            assert(tracks@[i].cylinder == t.0 as u32 && tracks@[i].head == t.1 as u32);
            assert(named_by_info_block(buffer@, t.0, t.1));
        }
    }
    Ok(tracks)
}

} // verus!
