use vstd::prelude::*;
use vstd::string::StringSliceAdditionalSpecFns;

use crate::types::{Density, DensityMap, DiskType, Encoding};

verus! {

/// All raw tracks of a disk image, ready to be written.
pub struct RawImage {
    pub density: Density,
    pub disk_type: DiskType,
    pub tracks: Vec<RawTrack>,
}

/// One raw track: its cell bytes and how to write them.
pub struct RawTrack {
    pub cylinder: u32,
    pub head: u32,
    pub raw_data: Vec<u8>,
    pub densitymap: DensityMap,
    pub encoding: Encoding,
    pub write_precompensation: u32,
    pub has_non_flux_reversal_area: bool,
}

impl RawTrack {
    pub fn new(
        cylinder: u32,
        head: u32,
        raw_data: Vec<u8>,
        densitymap: DensityMap,
        encoding: Encoding,
    ) -> (r: Self)
        ensures
            r.cylinder == cylinder,
            r.head == head,
            r.raw_data@ == raw_data@,
            r.densitymap@ == densitymap@,
            r.encoding == encoding,
            r.write_precompensation == 0,
            !r.has_non_flux_reversal_area,
    {
        Self {
            cylinder,
            head,
            raw_data,
            densitymap,
            encoding,
            write_precompensation: 0,
            has_non_flux_reversal_area: false,
        }
    }

    pub fn new_with_non_flux_reversal_area(
        cylinder: u32,
        head: u32,
        raw_data: Vec<u8>,
        densitymap: DensityMap,
        encoding: Encoding,
        has_non_flux_reversal_area: bool,
    ) -> (r: Self)
        ensures
            r.cylinder == cylinder,
            r.head == head,
            r.raw_data@ == raw_data@,
            r.densitymap@ == densitymap@,
            r.encoding == encoding,
            r.write_precompensation == 0,
            r.has_non_flux_reversal_area == has_non_flux_reversal_area,
    {
        Self {
            cylinder,
            head,
            raw_data,
            densitymap,
            encoding,
            write_precompensation: 0,
            has_non_flux_reversal_area,
        }
    }
}

/// Selects tracks by a range of cylinders and optionally one head.
#[derive(Clone, Copy, Debug, PartialEq, Eq, Structural)]
pub struct TrackFilter {
    pub cyl_start: Option<u32>,
    pub cyl_end: Option<u32>,
    pub head: Option<u32>,
    /// The cylinders were given as a range, with `-`, rather than as one number.
    pub is_range: bool,
}

/// A track of cylinder `cylinder` and head `head` passes the filter.
pub open spec fn filter_accepts(filter: TrackFilter, cylinder: u32, head: u32) -> bool {
    &&& (filter.cyl_start matches Some(s) ==> cylinder >= s)
    &&& (filter.cyl_end matches Some(e) ==> cylinder <= e)
    &&& (filter.head matches Some(h) ==> head == h)
}

/// The tracks of `tracks` that pass the filter, in their order.
pub open spec fn retained(tracks: Seq<RawTrack>, filter: TrackFilter) -> Seq<RawTrack>
    decreases tracks.len(),
{
    if tracks.len() == 0 {
        Seq::empty()
    } else {
        let rest = retained(tracks.drop_last(), filter);
        if filter_accepts(filter, tracks.last().cylinder, tracks.last().head) {
            rest.push(tracks.last())
        } else {
            rest
        }
    }
}

fn accepts(filter: &TrackFilter, cylinder: u32, head: u32) -> (r: bool)
    ensures
        r == filter_accepts(*filter, cylinder, head),
{
    (if let Some(cyl_start) = filter.cyl_start {
        cylinder >= cyl_start
    } else {
        true
    }) && (if let Some(cyl_end) = filter.cyl_end {
        cylinder <= cyl_end
    } else {
        true
    }) && (if let Some(h) = filter.head {
        head == h
    } else {
        true
    })
}

impl RawImage {
    /// Keeps the tracks that pass `filter`, in their order, and drops the others.
    pub fn filter_tracks(&mut self, filter: TrackFilter)
        ensures
            final(self).tracks@ == retained(old(self).tracks@, filter),
            final(self).density == old(self).density,
            final(self).disk_type == old(self).disk_type,
    {
        let mut remaining: Vec<RawTrack> = Vec::new();
        std::mem::swap(&mut remaining, &mut self.tracks);
        let ghost all = remaining@;
        let mut kept: Vec<RawTrack> = Vec::new();
        let ghost mut i: int = 0;
        while remaining.len() > 0
            invariant
                0 <= i,
                i + remaining@.len() == all.len(),
                remaining@ == all.skip(i as int),
                kept@ == retained(all.take(i as int), filter),
            decreases remaining@.len(),
        {
            let track = remaining.remove(0);
            proof {
                assert(track == all[i as int]);
                assert(all.take(i + 1) == all.take(i as int).push(all[i as int]));
                assert(all.take(i + 1).drop_last() == all.take(i as int));
                assert(remaining@ =~= all.skip(i + 1));
            }
            if accepts(&filter, track.cylinder, track.head) {
                kept.push(track);
            }
            proof {
                i = i + 1;
            }
        }
        assert(all.take(i as int) == all);
        self.tracks = kept;
    }
}

/// The pieces of `s` between the separator bytes `sep`; there is always at least one.
pub open spec fn split_bytes(s: Seq<u8>, sep: u8) -> Seq<Seq<u8>>
    decreases s.len(),
{
    if s.len() == 0 {
        seq![Seq::empty()]
    } else {
        let p = split_bytes(s.drop_last(), sep);
        if s.last() == sep {
            p.push(Seq::empty())
        } else {
            p.update(p.len() - 1, p.last().push(s.last()))
        }
    }
}

/// The value of the decimal digits `d`.
pub open spec fn digits_value(d: Seq<u8>) -> int
    decreases d.len(),
{
    if d.len() == 0 {
        0
    } else {
        digits_value(d.drop_last()) * 10 + (d.last() - 0x30u8)
    }
}

/// All bytes are ASCII digits.
pub open spec fn all_digits(d: Seq<u8>) -> bool {
    forall|i: int| 0 <= i < d.len() ==> 0x30u8 <= #[trigger] d[i] <= 0x39u8
}

/// A decimal number as Rust reads a `u32`: an optional `+`, then at least one digit, and no
/// more than `u32::MAX`.
pub open spec fn parse_u32(s: Seq<u8>) -> Option<u32> {
    let d = if s.len() > 0 && s[0] == 0x2bu8 {
        s.skip(1)
    } else {
        s
    };
    if d.len() == 0 || !all_digits(d) || digits_value(d) > u32::MAX {
        None
    } else {
        Some(digits_value(d) as u32)
    }
}

pub(crate) proof fn lemma_split_len(s: Seq<u8>, sep: u8)
    ensures
        split_bytes(s, sep).len() >= 1,
    decreases s.len(),
{
    if s.len() > 0 {
        lemma_split_len(s.drop_last(), sep);
    }
}

/// Splits `s` at every byte `sep`.
pub(crate) fn split_at_byte(s: &[u8], sep: u8) -> (r: Vec<Vec<u8>>)
    ensures
        r@.len() == split_bytes(s@, sep).len(),
        forall|i: int| 0 <= i < r@.len() ==> #[trigger] r@[i]@ == split_bytes(s@, sep)[i],
{
    let mut pieces: Vec<Vec<u8>> = Vec::new();
    let mut current: Vec<u8> = Vec::new();
    let mut i: usize = 0;
    assert(s@.take(0) == Seq::<u8>::empty());
    while i < s.len()
        invariant
            i <= s@.len(),
            pieces@.len() + 1 == split_bytes(s@.take(i as int), sep).len(),
            forall|k: int| 0 <= k < pieces@.len() ==> #[trigger] pieces@[k]@ == split_bytes(s@.take(i as int), sep)[k],
            current@ == split_bytes(s@.take(i as int), sep).last(),
        decreases s@.len() - i,
    {
        proof {
            lemma_split_len(s@.take(i as int), sep);
            assert(s@.take(i + 1).drop_last() == s@.take(i as int));
        }
        if s[i] == sep {
            let done = current;
            pieces.push(done);
            current = Vec::new();
        } else {
            current.push(s[i]);
        }
        i = i + 1;
    }
    proof {
        assert(s@.take(i as int) == s@);
        lemma_split_len(s@, sep);
    }
    pieces.push(current);
    pieces
}

/// Reads a `u32` as Rust does, or `None`.
pub fn parse_decimal(s: &[u8]) -> (r: Option<u32>)
    ensures
        r == parse_u32(s@),
{
    let start: usize = if s.len() > 0 && s[0] == 0x2b { 1 } else { 0 };
    let ghost d = if s@.len() > 0 && s@[0] == 0x2bu8 {
        s@.skip(1)
    } else {
        s@
    };
    assert(d == s@.skip(start as int));
    if start == s.len() {
        return None;
    }
    let mut value: u64 = 0;
    let mut i: usize = start;
    while i < s.len()
        invariant
            start <= i <= s@.len(),
            start < s@.len(),
            d == s@.skip(start as int),
            d == (if s@.len() > 0 && s@[0] == 0x2bu8 {
                s@.skip(1)
            } else {
                s@
            }),
            all_digits(d.take(i - start)),
            value == digits_value(d.take(i - start)),
            value <= u32::MAX,
        decreases s@.len() - i,
    {
        let c = s[i];
        assert(d.take(i - start + 1).drop_last() == d.take(i - start));
        assert(d[i - start] == c);
        if c < 0x30 || c > 0x39 {
            assert(!all_digits(d)) by {
                assert(!(0x30u8 <= d[i - start] <= 0x39u8));
            }
            return None;
        }
        let next = value * 10 + (c - 0x30) as u64;
        if next > 0xffff_ffff {
            proof {
                lemma_digits_prefix_bound(d, (i - start + 1) as int);
            }
            return None;
        }
        value = next;
        i = i + 1;
    }
    assert(d.take(i - start) == d);
    Some(value as u32)
}

proof fn lemma_digits_nonneg(d: Seq<u8>)
    requires
        all_digits(d),
    ensures
        digits_value(d) >= 0,
    decreases d.len(),
{
    if d.len() > 0 {
        assert(all_digits(d.drop_last())) by {
            assert forall|i: int| 0 <= i < d.len() - 1 implies 0x30u8 <= #[trigger] d.drop_last()[i] <= 0x39u8 by {
                assert(d.drop_last()[i] == d[i]);
            }
        }
        lemma_digits_nonneg(d.drop_last());
        assert(0x30u8 <= d[d.len() - 1] <= 0x39u8);
    }
}

proof fn lemma_digits_prefix_bound(d: Seq<u8>, n: int)
    requires
        0 <= n <= d.len(),
        all_digits(d.take(n)),
    ensures
        all_digits(d) ==> digits_value(d) >= digits_value(d.take(n)),
    decreases d.len() - n,
{
    if n < d.len() && all_digits(d) {
        lemma_digits_nonneg(d.take(n));
        assert(0x30u8 <= d[n] <= 0x39u8);
        assert(d.take(n + 1).last() == d[n]);
        assert(all_digits(d.take(n + 1))) by {
            assert forall|i: int| 0 <= i < n + 1 implies 0x30u8 <= #[trigger] d.take(n + 1)[i] <= 0x39u8 by {
                assert(d.take(n + 1)[i] == d[i]);
            }
        }
        assert(d.take(n + 1).drop_last() == d.take(n));
        lemma_digits_prefix_bound(d, n + 1);
    } else if n == d.len() {
        assert(d.take(n) == d);
    }
}

/// The filter of one or two cylinder numbers: `"a"` stands for `"a-a"`.
fn from_track_split(track_split: &Vec<Vec<u8>>, head: Option<u32>) -> (r: TrackFilter)
    requires
        1 <= track_split@.len() <= 2,
    ensures
        r.cyl_start == parse_u32(track_split@[0]@),
        r.cyl_end == parse_u32(track_split@[track_split@.len() - 1]@),
        r.head == head,
        r.is_range == (track_split@.len() == 2),
{
    if track_split.len() == 1 {
        TrackFilter {
            cyl_start: parse_decimal(track_split[0].as_slice()),
            cyl_end: parse_decimal(track_split[0].as_slice()),
            head,
            is_range: false,
        }
    } else {
        TrackFilter {
            cyl_start: parse_decimal(track_split[0].as_slice()),
            cyl_end: parse_decimal(track_split[1].as_slice()),
            head,
            is_range: true,
        }
    }
}

/// A filter parameter has at most one `:` and before it at most one `-`.
pub open spec fn filter_param_ok(param: Seq<u8>) -> bool {
    &&& split_bytes(param, 0x3au8).len() <= 2
    &&& split_bytes(split_bytes(param, 0x3au8)[0], 0x2du8).len() <= 2
}

impl TrackFilter {
    /// Reads `start-end:head`: the cylinders from `start` to `end`, a single cylinder without
    /// `-`, and any head without `:head`; a number that cannot be read is left open.
    pub fn new(param: &str) -> (r: Self)
        requires
            filter_param_ok(param.spec_bytes()),
        ensures
            ({
                let head_split = split_bytes(param.spec_bytes(), 0x3au8);
                let track_split = split_bytes(head_split[0], 0x2du8);
                &&& r.cyl_start == parse_u32(track_split[0])
                &&& r.cyl_end == parse_u32(track_split[track_split.len() - 1])
                &&& r.head == (if head_split.len() == 2 {
                    parse_u32(head_split[1])
                } else {
                    None
                })
                &&& r.is_range == (track_split.len() == 2)
            }),
    {
        let bytes = param.as_bytes();
        let head_split = split_at_byte(bytes, 0x3a);
        proof {
            lemma_split_len(bytes@, 0x3au8);
            lemma_split_len(head_split@[0]@, 0x2du8);
        }
        let track_split = split_at_byte(head_split[0].as_slice(), 0x2d);
        if head_split.len() == 1 {
            from_track_split(&track_split, None)
        } else {
            from_track_split(&track_split, parse_decimal(head_split[1].as_slice()))
        }
    }
}

} // verus!
