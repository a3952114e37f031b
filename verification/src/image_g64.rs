//! Commodore 1541 GCR images (G64): the raw GCR bytes of each track with its speed zone,
//! patched for a few known images whose copy protection tracks cannot be written as stored.
use vstd::prelude::*;

use crate::c64_geometry::spec_track_settings;
use crate::bytes::{le16, le32, read_le16, read_le32, same_bytes};
use crate::digest::{md5_compute, md5_digest};
use crate::error::ImageError;

verus! {

/// One track of a G64 image. The cell size used is `forced_cell_size` where a patch sets
/// it, else the smaller of `table_cell_size` and the cell size that makes the track fill a
/// rotation.
#[derive(Debug, Clone, PartialEq, Eq)]
pub struct G64Track {
    pub cylinder: u32,
    pub raw_data: Vec<u8>,
    pub table_cell_size: u32,
    pub forced_cell_size: Option<u32>,
}

/// The cell size of each speed zone, the fastest first.
pub open spec fn speed_table(zone: int) -> u32 {
    if zone == 0 {
        227
    } else if zone == 1 {
        245
    } else if zone == 2 {
        262
    } else {
        280
    }
}

fn speed_table_entry(zone: u32) -> (r: u32)
    requires
        zone < 4,
    ensures
        r == speed_table(zone as int),
{
    match zone {
        0 => 227,
        1 => 245,
        2 => 262,
        _ => 280,
    }
}

/// A G64 track of speed zone value `s` (0 to 3) is written with the cell size of that zone
/// of the 1541: the drive divides its 16 MHz clock by `16 - s`, so the cells of the zones are
/// in the ratio 16 : 15 : 14 : 13 and those of zone 0 are 280 long, rounded down; a higher
/// zone value means shorter cells.
pub proof fn lemma_speed_zone_cells(s: int)
    requires
        0 <= s <= 3,
    ensures
        speed_table(3 - s) == (280 * (16 - s)) / 16,
        s < 3 ==> speed_table(3 - s) > speed_table(3 - (s + 1)),
{
}

/// `c` is the cell size of some G64 speed zone.
pub open spec fn is_zone_cell_size(c: int) -> bool {
    exists|s: int| 0 <= s <= 3 && #[trigger] speed_table(3 - s) as int == c
}

/// Some of the 35 tracks of a 1541 disk is written with cells of size `c`.
pub open spec fn used_by_track(c: int) -> bool {
    exists|t: int| 1 <= t <= 35 && #[trigger] spec_track_settings(t).cellsize as int == c
}

/// The cell sizes of the G64 speed zones are those that a 1541 writes its tracks with: every
/// track of a D64 disk uses the cell size of some zone, and every zone's cell size is used by
/// some track.
pub proof fn lemma_speed_zones_match_tracks()
    ensures
        forall|t: int| 1 <= t <= 35 ==> is_zone_cell_size(#[trigger] spec_track_settings(t).cellsize as int),
        forall|s: int| 0 <= s <= 3 ==> used_by_track(#[trigger] speed_table(3 - s) as int),
{
    assert forall|t: int| 1 <= t <= 35 implies is_zone_cell_size(
        #[trigger] spec_track_settings(t).cellsize as int,
    ) by {
        let c = spec_track_settings(t).cellsize as int;
        if t <= 17 {
            assert(speed_table(3 - 3) as int == c);
        } else if t <= 24 {
            assert(speed_table(3 - 2) as int == c);
        } else if t <= 30 {
            assert(speed_table(3 - 1) as int == c);
        } else {
            assert(speed_table(3 - 0) as int == c);
        }
    }
    assert forall|s: int| 0 <= s <= 3 implies used_by_track(#[trigger] speed_table(3 - s) as int) by {
        let c = speed_table(3 - s) as int;
        if s == 3 {
            assert(spec_track_settings(1).cellsize as int == c);
        } else if s == 2 {
            assert(spec_track_settings(18).cellsize as int == c);
        } else if s == 1 {
            assert(spec_track_settings(25).cellsize as int == c);
        } else {
            assert(spec_track_settings(31).cellsize as int == c);
        }
    }
}

/// The little endian words of a byte string; a shorter rest is ignored.
pub open spec fn le32_words(b: Seq<u8>) -> Seq<u32> {
    Seq::new(b.len() / 4, |i: int| le32(b, 4 * i))
}

/// Converts a byte string into little endian words.
pub fn u8_buf_to_u32_buf(byte_buffer: &[u8]) -> (r: Vec<u32>)
    ensures
        r@ == le32_words(byte_buffer@),
{
    let len = byte_buffer.len();
    let n = len / 4;
    let mut r: Vec<u32> = Vec::new();
    let mut i: usize = 0;
    while i < n
        invariant
            i <= n,
            n == byte_buffer@.len() / 4,
            len == byte_buffer@.len(),
            r@ == Seq::new(i as nat, |k: int| le32(byte_buffer@, 4 * k)),
        decreases n - i,
    {
        assert(4 * i + 4 <= len) by (nonlinear_arith)
            requires
                i < n,
                n == len / 4,
        ;
        r.push(read_le32(byte_buffer, 4 * i).unwrap());
        i = i + 1;
        assert(r@ =~= Seq::new(i as nat, |k: int| le32(byte_buffer@, 4 * k)));
    }
    r
}

/// The digest of the first of three Katakis images.
pub open spec fn katakis_a() -> Seq<u8> {
    seq![0x53u8, 0xc4, 0x7c, 0x57, 0x5d, 0x05, 0x71, 0x81, 0xa1, 0x91, 0x1e, 0x66, 0x53, 0x22, 0x93, 0x24]
}

pub open spec fn katakis_b() -> Seq<u8> {
    seq![0xd2u8, 0xaa, 0x92, 0xcc, 0xf3, 0x53, 0x1f, 0xc9, 0x95, 0xe7, 0x71, 0xbe, 0x91, 0xa4, 0x52, 0x41]
}

pub open spec fn katakis_c() -> Seq<u8> {
    seq![0x40u8, 0x6d, 0x29, 0x15, 0x1e, 0x70, 0x01, 0xf6, 0xbf, 0xc7, 0xd9, 0x5b, 0x7a, 0xde, 0x79, 0x9d]
}

/// The digest of a "Great Giana Sisters" image.
pub open spec fn giana() -> Seq<u8> {
    seq![0xc2u8, 0x33, 0x42, 0x33, 0x13, 0x6c, 0x52, 0x3b, 0x9e, 0xc6, 0x2b, 0xeb, 0x8b, 0xea, 0x1e, 0x00]
}

/// Which of the known images a digest identifies: 1 to 3 for Katakis, 4 for Giana Sisters.
pub open spec fn known_image(digest: Seq<u8>) -> nat {
    if digest == katakis_a() {
        1
    } else if digest == katakis_b() {
        2
    } else if digest == katakis_c() {
        3
    } else if digest == giana() {
        4
    } else {
        0
    }
}

fn known_image_of(digest: &[u8]) -> (r: u8)
    ensures
        r == known_image(digest@),
{
    let a: [u8; 16] = [0x53, 0xc4, 0x7c, 0x57, 0x5d, 0x05, 0x71, 0x81, 0xa1, 0x91, 0x1e, 0x66, 0x53, 0x22, 0x93, 0x24];
    let b: [u8; 16] = [0xd2, 0xaa, 0x92, 0xcc, 0xf3, 0x53, 0x1f, 0xc9, 0x95, 0xe7, 0x71, 0xbe, 0x91, 0xa4, 0x52, 0x41];
    let c: [u8; 16] = [0x40, 0x6d, 0x29, 0x15, 0x1e, 0x70, 0x01, 0xf6, 0xbf, 0xc7, 0xd9, 0x5b, 0x7a, 0xde, 0x79, 0x9d];
    let d: [u8; 16] = [0xc2, 0x33, 0x42, 0x33, 0x13, 0x6c, 0x52, 0x3b, 0x9e, 0xc6, 0x2b, 0xeb, 0x8b, 0xea, 0x1e, 0x00];
    assert(a@ == katakis_a());
    assert(b@ == katakis_b());
    assert(c@ == katakis_c());
    assert(d@ == giana());
    if same_bytes(digest, &a) {
        1
    } else if same_bytes(digest, &b) {
        2
    } else if same_bytes(digest, &c) {
        3
    } else if same_bytes(digest, &d) {
        4
    } else {
        0
    }
}

/// The cell size that a known image needs on a track: the copy protection tracks are
/// written with cells of 246 ticks.
pub open spec fn patch_cell_size_spec(digest: Seq<u8>, cyl: u8) -> Option<u32> {
    if cyl == 70 && known_image(digest) != 0 {
        Some(246)
    } else {
        None
    }
}

/// The cell size that a known image needs on a track, if any.
pub fn patch_cell_size(digest: &[u8], cyl: u8) -> (r: Option<u32>)
    ensures
        r == patch_cell_size_spec(digest@, cyl),
{
    if cyl == 70 && known_image_of(digest) != 0 {
        Some(246)
    } else {
        None
    }
}

/// `s` with the bytes in `from..to` set to `v`.
pub open spec fn filled(s: Seq<u8>, from: int, to: int, v: u8) -> Seq<u8> {
    Seq::new(s.len(), |i: int| if from <= i < to { v } else { s[i] })
}

/// The tracks of the known images that are too long are long enough to be cut.
pub open spec fn patch_applicable(len: nat, digest: Seq<u8>, cyl: u8) -> bool {
    let k = known_image(digest);
    cyl == 70 ==> (if k == 1 {
        len >= 300
    } else if k == 2 || k == 3 {
        len >= 300 + 0x2ac
    } else if k == 4 {
        len >= 1000
    } else {
        true
    })
}

/// The track data of a known image as it can be written: the protection track on cylinder
/// 70 is cut at its end (and partly rewritten for two of the images), and an unusable track
/// on cylinder 72 is dropped; any other track stays as it is.
pub open spec fn patch_trackdata_spec(source: Seq<u8>, digest: Seq<u8>, cyl: u8) -> Seq<u8> {
    let k = known_image(digest);
    if k == 0 {
        source
    } else if cyl == 72 {
        Seq::empty()
    } else if cyl != 70 {
        source
    } else if k == 1 {
        source.take(source.len() - 300)
    } else if k == 2 {
        filled(
            filled(source.take(source.len() - 300), 0, 0x22b, 0x55).update(0x22b, 0x57),
            0x22c,
            0x2ac,
            0xff,
        )
    } else if k == 3 {
        filled(source.take(source.len() - 300), 0x22c, 0x2ac, 0xff)
    } else {
        source.take(source.len() - 1000)
    }
}

fn copy_prefix(source: &[u8], n: usize) -> (r: Vec<u8>)
    requires
        n <= source@.len(),
    ensures
        r@ == source@.take(n as int),
{
    let mut r: Vec<u8> = Vec::new();
    let mut i: usize = 0;
    while i < n
        invariant
            i <= n,
            n <= source@.len(),
            r@ == source@.take(i as int),
        decreases n - i,
    {
        r.push(source[i]);
        i = i + 1;
        assert(r@ =~= source@.take(i as int));
    }
    r
}

fn fill(x: &mut Vec<u8>, from: usize, to: usize, v: u8)
    requires
        from <= to <= old(x)@.len(),
    ensures
        final(x)@ == filled(old(x)@, from as int, to as int, v),
{
    let ghost start = x@;
    let mut i: usize = from;
    while i < to
        invariant
            from <= i <= to,
            to <= start.len(),
            x@ == filled(start, from as int, i as int, v),
        decreases to - i,
    {
        x.set(i, v);
        i = i + 1;
        assert(x@ =~= filled(start, from as int, i as int, v));
    }
}

/// The track data of a known image as it can be written.
pub fn patch_trackdata(source: &[u8], digest: &[u8], cyl: u8) -> (r: Vec<u8>)
    requires
        patch_applicable(source@.len(), digest@, cyl),
    ensures
        r@ == patch_trackdata_spec(source@, digest@, cyl),
{
    let k = known_image_of(digest);
    if k == 0 || (cyl != 70 && cyl != 72) {
        return copy_prefix(source, source.len());
    }
    if cyl == 72 {
        return Vec::new();
    }
    if k == 1 {
        copy_prefix(source, source.len() - 300)
    } else if k == 2 {
        let mut x = copy_prefix(source, source.len() - 300);
        fill(&mut x, 0, 0x22b, 0x55);
        x.set(0x22b, 0x57);
        fill(&mut x, 0x22c, 0x2ac, 0xff);
        x
    } else if k == 3 {
        let mut x = copy_prefix(source, source.len() - 300);
        fill(&mut x, 0x22c, 0x2ac, 0xff);
        x
    } else {
        copy_prefix(source, source.len() - 1000)
    }
}

/// A track as cylinder, data, cell size of its speed zone and the cell size a patch forces.
pub type G64TrackView = (u32, Seq<u8>, u32, Option<u32>);

pub open spec fn g64_track_view(t: G64Track) -> G64TrackView {
    (t.cylinder, t.raw_data@, t.table_cell_size, t.forced_cell_size)
}

/// All bytes are zero.
pub open spec fn all_zero(s: Seq<u8>) -> bool {
    forall|i: int| 0 <= i < s.len() ==> s[i] == 0
}

/// Tracks `k..n` of the image `b` whose digest is `digest`.
pub open spec fn g64_tracks(b: Seq<u8>, digest: Seq<u8>, n: nat, k: nat) -> Result<Seq<G64TrackView>, ImageError>
    decreases n - k,
{
    if k >= n {
        Ok(Seq::empty())
    } else {
        let off = le32(b, (12 + 4 * k) as int) as int;
        let speed = le32(b, (12 + 4 * n + 4 * k) as int);
        if speed > 3 {
            Err(ImageError::Implausible)
        } else if off == 0 {
            g64_tracks(b, digest, n, k + 1)
        } else if off + 2 > b.len() || off + 2 + le16(b, off) > b.len() {
            Err(ImageError::OutOfBounds)
        } else {
            let data = b.subrange(off + 2, off + 2 + le16(b, off));
            if all_zero(data) {
                g64_tracks(b, digest, n, k + 1)
            } else if !patch_applicable(data.len(), digest, k as u8) {
                Err(ImageError::Implausible)
            } else {
                let patched = patch_trackdata_spec(data, digest, k as u8);
                if patched.len() == 0 {
                    g64_tracks(b, digest, n, k + 1)
                } else {
                    match g64_tracks(b, digest, n, k + 1) {
                        Err(e) => Err(e),
                        Ok(rest) => Ok(
                            seq![(k as u32, patched, speed_table(3 - speed), patch_cell_size_spec(digest, k as u8))]
                                + rest,
                        ),
                    }
                }
            }
        }
    }
}

/// "GCR-1541"
pub open spec fn g64_signature() -> Seq<u8> {
    seq![0x47u8, 0x43, 0x52, 0x2d, 0x31, 0x35, 0x34, 0x31]
}

/// The tracks of a G64 image whose digest is `digest`, or why it cannot be read.
pub open spec fn g64_image(b: Seq<u8>, digest: Seq<u8>) -> Result<Seq<G64TrackView>, ImageError> {
    if b.len() < 12 {
        Err(ImageError::OutOfBounds)
    } else if b.take(8) != g64_signature() {
        Err(ImageError::BadSignature)
    } else if b[8] != 0 {
        Err(ImageError::Unsupported)
    } else if 12 + 8 * b[9] > b.len() {
        Err(ImageError::OutOfBounds)
    } else {
        g64_tracks(b, digest, b[9] as nat, 0)
    }
}

pub open spec fn prepend_g64(acc: Seq<G64TrackView>, r: Result<Seq<G64TrackView>, ImageError>) -> Result<
    Seq<G64TrackView>,
    ImageError,
> {
    match r {
        Err(e) => Err(e),
        Ok(rest) => Ok(acc + rest),
    }
}

fn is_all_zero(s: &[u8]) -> (r: bool)
    ensures
        r == all_zero(s@),
{
    let mut i: usize = 0;
    while i < s.len()
        invariant
            i <= s@.len(),
            forall|k: int| 0 <= k < i ==> s@[k] == 0,
        decreases s@.len() - i,
    {
        if s[i] != 0 {
            return false;
        }
        i = i + 1;
    }
    true
}

fn g64_patch_applicable(len: usize, digest: &[u8], cyl: u8) -> (r: bool)
    ensures
        r == patch_applicable(len as nat, digest@, cyl),
{
    let k = known_image_of(digest);
    if cyl != 70 {
        true
    } else if k == 1 {
        len >= 300
    } else if k == 2 || k == 3 {
        len >= 300 + 0x2ac
    } else if k == 4 {
        len >= 1000
    } else {
        true
    }
}

/// Reads a G64 image whose digest is `digest`.
pub fn parse_g64_with_digest(buffer: &[u8], digest: &[u8]) -> (r: Result<Vec<G64Track>, ImageError>)
    ensures
        match r {
            Ok(t) => g64_image(buffer@, digest@) == Ok::<Seq<G64TrackView>, ImageError>(
                t@.map_values(|x: G64Track| g64_track_view(x)),
            ),
            Err(e) => g64_image(buffer@, digest@) == Err::<Seq<G64TrackView>, ImageError>(e),
        },
{
    if buffer.len() < 12 {
        return Err(ImageError::OutOfBounds);
    }
    let signature: [u8; 8] = [0x47, 0x43, 0x52, 0x2d, 0x31, 0x35, 0x34, 0x31];
    assert(signature@ == g64_signature());
    if !same_bytes(&buffer[0..8], &signature) {
        assert(buffer@.subrange(0, 8) == buffer@.take(8));
        return Err(ImageError::BadSignature);
    }
    assert(buffer@.subrange(0, 8) == buffer@.take(8));
    if buffer[8] != 0 {
        return Err(ImageError::Unsupported);
    }
    let n = buffer[9] as usize;
    if 12 + 8 * n > buffer.len() {
        return Err(ImageError::OutOfBounds);
    }
    let ghost whole = g64_image(buffer@, digest@);
    let mut tracks: Vec<G64Track> = Vec::new();
    let mut k: usize = 0;
    assert(tracks@.map_values(|x: G64Track| g64_track_view(x)) + Seq::<G64TrackView>::empty() =~= Seq::<
        G64TrackView,
    >::empty());
    while k < n
        invariant
            k <= n,
            n == buffer@[9],
            12 + 8 * n <= buffer@.len(),
            buffer@.len() >= 12,
            whole == g64_tracks(buffer@, digest@, n as nat, 0),
            whole == g64_image(buffer@, digest@),
            whole == prepend_g64(tracks@.map_values(|x: G64Track| g64_track_view(x)), g64_tracks(buffer@, digest@, n as nat, k as nat)),
        decreases n - k,
    {
        let off = read_le32(buffer, 12 + 4 * k).unwrap() as usize;
        let speed = read_le32(buffer, 12 + 4 * n + 4 * k).unwrap();
        assert(speed == le32(buffer@, (12 + 4 * n + 4 * k) as int));
        assert(off == le32(buffer@, (12 + 4 * k) as int));
        if speed > 3 {
            return Err(ImageError::Implausible);
        }
        let ghost done = tracks@.map_values(|x: G64Track| g64_track_view(x));
        if off != 0 {
            if off > buffer.len() || buffer.len() - off < 2 {
                return Err(ImageError::OutOfBounds);
            }
            let size = read_le16(buffer, off).unwrap() as usize;
            if buffer.len() - off - 2 < size {
                return Err(ImageError::OutOfBounds);
            }
            let data = &buffer[off + 2..off + 2 + size];
            if !is_all_zero(data) {
                if !g64_patch_applicable(data.len(), digest, k as u8) {
                    return Err(ImageError::Implausible);
                }
                let patched = patch_trackdata(data, digest, k as u8);
                if patched.len() > 0 {
                    let t = G64Track {
                        cylinder: k as u32,
                        raw_data: patched,
                        table_cell_size: speed_table_entry(3 - speed),
                        forced_cell_size: patch_cell_size(digest, k as u8),
                    };
                    tracks.push(t);
                    proof {
                        let v = g64_track_view(t);
                        assert(tracks@.map_values(|x: G64Track| g64_track_view(x)) =~= done.push(v));
                        match g64_tracks(buffer@, digest@, n as nat, (k + 1) as nat) {
                            Err(e) => {},
                            Ok(rest) => {
                                assert(done + (seq![v] + rest) =~= done.push(v) + rest);
                            },
                        }
                    }
                }
            }
        }
        k = k + 1;
    }
    assert(tracks@.map_values(|x: G64Track| g64_track_view(x)) + Seq::<G64TrackView>::empty() =~= tracks@.map_values(
        |x: G64Track| g64_track_view(x),
    ));
    Ok(tracks)
}

/// Reads a G64 image; known images are recognised by the MD5 digest of the whole file.
pub fn parse_g64_image(buffer: &[u8]) -> (r: Result<Vec<G64Track>, ImageError>)
    ensures
        match r {
            Ok(t) => g64_image(buffer@, md5_digest(buffer@)) == Ok::<Seq<G64TrackView>, ImageError>(
                t@.map_values(|x: G64Track| g64_track_view(x)),
            ),
            Err(e) => g64_image(buffer@, md5_digest(buffer@)) == Err::<Seq<G64TrackView>, ImageError>(e),
        },
{
    let digest = md5_compute(buffer);
    parse_g64_with_digest(buffer, &digest)
}

} // verus!
