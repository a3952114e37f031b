//! The table of write precompensation values measured per cell size and cylinder, and the
//! choice of the samples between which a value is interpolated.
use vstd::prelude::*;
use vstd::utf8::valid_utf8;

use crate::bytes::utf8_text;
use crate::rawtrack::{parse_decimal, parse_u32, split_at_byte, split_bytes};
use crate::sorting::{sort_by_key, stable_sort_by_key, Keyed};

verus! {

/// One measured write precompensation.
#[derive(Debug, Clone, Copy, PartialEq, Eq, Structural)]
pub struct Sample {
    pub cellsize: u32,
    pub cylinder: u32,
    pub wprecomp: u32,
}

impl Keyed for Sample {
    /// Cell size first, then cylinder, then value.
    open spec fn key_of(&self) -> int {
        self.cellsize * 0x1_0000_0000_0000_0000 + self.cylinder * 0x1_0000_0000 + self.wprecomp
    }

    fn key(&self) -> (r: u128) {
        self.cellsize as u128 * 0x1_0000_0000_0000_0000 + self.cylinder as u128 * 0x1_0000_0000
            + self.wprecomp as u128
    }
}

/// The measured samples, ordered by cell size, then cylinder, then value.
pub struct WritePrecompDb {
    pub samples: Vec<Sample>,
}

/// ASCII white space as Rust splits words at it.
pub open spec fn ascii_ws(b: u8) -> bool {
    b == 0x20u8 || b == 0x09u8 || b == 0x0au8 || b == 0x0cu8 || b == 0x0du8
}

/// `s` cut at every white space byte; empty pieces are kept.
pub open spec fn split_ws(s: Seq<u8>) -> Seq<Seq<u8>>
    decreases s.len(),
{
    if s.len() == 0 {
        seq![Seq::empty()]
    } else {
        let p = split_ws(s.drop_last());
        if ascii_ws(s.last()) {
            p.push(Seq::empty())
        } else {
            p.update(p.len() - 1, p.last().push(s.last()))
        }
    }
}

/// The pieces that read as numbers, in order.
pub open spec fn numbers_of(pieces: Seq<Seq<u8>>) -> Seq<u32>
    decreases pieces.len(),
{
    if pieces.len() == 0 {
        Seq::empty()
    } else {
        let rest = numbers_of(pieces.drop_last());
        match parse_u32(pieces.last()) {
            Some(x) => rest.push(x),
            None => rest,
        }
    }
}

/// The sample that a line of the table gives: a UTF-8 line with exactly three numbers
/// among its words.
pub open spec fn line_sample(line: Seq<u8>) -> Option<Sample> {
    let n = numbers_of(split_ws(line));
    if valid_utf8(line) && n.len() == 3 {
        Some(Sample { cellsize: n[0], cylinder: n[1], wprecomp: n[2] })
    } else {
        None
    }
}

/// The samples of the lines, in order.
pub open spec fn lines_samples(lines: Seq<Seq<u8>>) -> Seq<Sample>
    decreases lines.len(),
{
    if lines.len() == 0 {
        Seq::empty()
    } else {
        let rest = lines_samples(lines.drop_last());
        match line_sample(lines.last()) {
            Some(x) => rest.push(x),
            None => rest,
        }
    }
}

/// The samples of a table file, in the order of its lines.
pub open spec fn config_samples(content: Seq<u8>) -> Seq<Sample> {
    lines_samples(split_bytes(content, 0x0au8))
}

proof fn lemma_split_ws_len(s: Seq<u8>)
    ensures
        split_ws(s).len() >= 1,
    decreases s.len(),
{
    if s.len() > 0 {
        lemma_split_ws_len(s.drop_last());
    }
}

fn split_at_ws(s: &[u8]) -> (r: Vec<Vec<u8>>)
    ensures
        r@.len() == split_ws(s@).len(),
        forall|i: int| 0 <= i < r@.len() ==> #[trigger] r@[i]@ == split_ws(s@)[i],
{
    let mut pieces: Vec<Vec<u8>> = Vec::new();
    let mut current: Vec<u8> = Vec::new();
    let mut i: usize = 0;
    assert(s@.take(0) == Seq::<u8>::empty());
    while i < s.len()
        invariant
            i <= s@.len(),
            pieces@.len() + 1 == split_ws(s@.take(i as int)).len(),
            forall|k: int| 0 <= k < pieces@.len() ==> #[trigger] pieces@[k]@ == split_ws(s@.take(i as int))[k],
            current@ == split_ws(s@.take(i as int)).last(),
        decreases s@.len() - i,
    {
        proof {
            lemma_split_ws_len(s@.take(i as int));
            assert(s@.take(i + 1).drop_last() == s@.take(i as int));
        }
        let b = s[i];
        if b == 0x20 || b == 0x09 || b == 0x0a || b == 0x0c || b == 0x0d {
            let done = current;
            pieces.push(done);
            current = Vec::new();
        } else {
            current.push(b);
        }
        i = i + 1;
        proof {
            let p = split_ws(s@.take(i - 1));
            assert forall|k: int| 0 <= k < pieces@.len() implies #[trigger] pieces@[k]@ == split_ws(
                s@.take(i as int),
            )[k] by {
                if k < p.len() - 1 {
                    assert(pieces@[k]@ == p[k]);
                }
            }
        }
    }
    pieces.push(current);
    proof {
        assert(s@.take(s@.len() as int) =~= s@);
        lemma_split_ws_len(s@);
    }
    pieces
}

fn line_numbers(pieces: &Vec<Vec<u8>>) -> (r: Vec<u32>)
    ensures
        r@ == numbers_of(pieces@.map_values(|p: Vec<u8>| p@)),
{
    let ghost views = pieces@.map_values(|p: Vec<u8>| p@);
    let mut r: Vec<u32> = Vec::new();
    let mut k: usize = 0;
    while k < pieces.len()
        invariant
            k <= pieces@.len(),
            views == pieces@.map_values(|p: Vec<u8>| p@),
            r@ == numbers_of(views.take(k as int)),
        decreases pieces@.len() - k,
    {
        proof {
            assert(views.take(k + 1).drop_last() =~= views.take(k as int));
            assert(views.take(k + 1).last() == pieces@[k as int]@);
        }
        match parse_decimal(pieces[k].as_slice()) {
            Some(x) => r.push(x),
            None => {},
        }
        k = k + 1;
    }
    assert(views.take(pieces@.len() as int) =~= views);
    r
}

fn parse_line(line: &[u8]) -> (r: Option<Sample>)
    ensures
        r == line_sample(line@),
{
    if utf8_text(line).is_none() {
        return None;
    }
    let pieces = split_at_ws(line);
    assert(pieces@.map_values(|p: Vec<u8>| p@) =~= split_ws(line@));
    let n = line_numbers(&pieces);
    if n.len() == 3 {
        Some(Sample { cellsize: n[0], cylinder: n[1], wprecomp: n[2] })
    } else {
        None
    }
}

/// The samples that satisfy a condition of the interpolation.
#[derive(Debug, Clone, Copy, PartialEq, Eq, Structural)]
pub enum SampleFilter {
    /// Not right of and not below the point.
    TopLeft { cellsize: u32, cylinder: u32 },
    /// This cell size, not above the point.
    SameColumnBelow { cellsize: u32, cylinder: u32 },
    /// Not left of and not above the point.
    BottomRight { cellsize: u32, cylinder: u32 },
    /// This cell size, not below the point.
    SameColumnAbove { cellsize: u32, cylinder: u32 },
}

pub open spec fn filter_accepts_sample(f: SampleFilter, s: Sample) -> bool {
    match f {
        SampleFilter::TopLeft { cellsize, cylinder } => s.cellsize <= cellsize && s.cylinder <= cylinder,
        SampleFilter::SameColumnBelow { cellsize, cylinder } => s.cellsize == cellsize && s.cylinder >= cylinder,
        SampleFilter::BottomRight { cellsize, cylinder } => s.cellsize >= cellsize && s.cylinder >= cylinder,
        SampleFilter::SameColumnAbove { cellsize, cylinder } => s.cellsize == cellsize && s.cylinder <= cylinder,
    }
}

fn accepts(f: SampleFilter, s: Sample) -> (r: bool)
    ensures
        r == filter_accepts_sample(f, s),
{
    match f {
        SampleFilter::TopLeft { cellsize, cylinder } => s.cellsize <= cellsize && s.cylinder <= cylinder,
        SampleFilter::SameColumnBelow { cellsize, cylinder } => s.cellsize == cellsize && s.cylinder >= cylinder,
        SampleFilter::BottomRight { cellsize, cylinder } => s.cellsize >= cellsize && s.cylinder >= cylinder,
        SampleFilter::SameColumnAbove { cellsize, cylinder } => s.cellsize == cellsize && s.cylinder <= cylinder,
    }
}

/// The first sample from `i` on that the filter accepts.
pub open spec fn first_accepted(s: Seq<Sample>, f: SampleFilter, i: nat) -> Option<Sample>
    decreases s.len() - i,
{
    if i >= s.len() {
        None
    } else if filter_accepts_sample(f, s[i as int]) {
        Some(s[i as int])
    } else {
        first_accepted(s, f, i + 1)
    }
}

/// The last of the first `n` samples that the filter accepts.
pub open spec fn last_accepted(s: Seq<Sample>, f: SampleFilter, n: nat) -> Option<Sample>
    decreases n,
{
    if n == 0 {
        None
    } else if filter_accepts_sample(f, s[n - 1]) {
        Some(s[n - 1])
    } else {
        last_accepted(s, f, (n - 1) as nat)
    }
}

/// How a value is interpolated along the cylinders of one cell size.
#[derive(Debug, Clone, Copy, PartialEq, Eq, Structural)]
pub enum CylinderInterpolation {
    /// The value of one sample.
    Exact { wprecomp: u32, cellsize: u32 },
    /// Between two samples of the same cell size, above and below the cylinder.
    Between { top: Sample, bottom: Sample },
}

/// The left side of the interpolation: the last sample not right of and not above the
/// point, and the first sample of its cell size not above the point; `None` where there is
/// no sample left of and above the point.
pub open spec fn lerp_left_spec(s: Seq<Sample>, cellsize: u32, cylinder: u32) -> Option<CylinderInterpolation> {
    match last_accepted(s, SampleFilter::TopLeft { cellsize, cylinder }, s.len()) {
        None => None,
        Some(top) => match first_accepted(
            s,
            SampleFilter::SameColumnBelow { cellsize: top.cellsize, cylinder },
            0,
        ) {
            None => Some(CylinderInterpolation::Exact { wprecomp: top.wprecomp, cellsize: top.cellsize }),
            Some(bottom) => if bottom.cylinder == top.cylinder {
                Some(CylinderInterpolation::Exact { wprecomp: top.wprecomp, cellsize: top.cellsize })
            } else {
                Some(CylinderInterpolation::Between { top, bottom })
            },
        },
    }
}

/// The right side of the interpolation: the first sample not left of and not above the
/// point, or the last sample where there is none, and the last sample of its cell size
/// not below the point; `None` where its cell size has no such sample.
pub open spec fn lerp_right_spec(s: Seq<Sample>, cellsize: u32, cylinder: u32) -> Option<CylinderInterpolation> {
    match first_accepted(s, SampleFilter::BottomRight { cellsize, cylinder }, 0) {
        None => Some(CylinderInterpolation::Exact { wprecomp: s.last().wprecomp, cellsize: s.last().cellsize }),
        Some(bottom) => match last_accepted(
            s,
            SampleFilter::SameColumnAbove { cellsize: bottom.cellsize, cylinder },
            s.len(),
        ) {
            None => None,
            Some(top) => if bottom.cylinder == top.cylinder {
                Some(CylinderInterpolation::Exact { wprecomp: top.wprecomp, cellsize: top.cellsize })
            } else {
                Some(CylinderInterpolation::Between { top, bottom })
            },
        },
    }
}

impl WritePrecompDb {
    /// Reads the table: each UTF-8 line with exactly three numbers among its words gives a
    /// sample of cell size, cylinder and value; the samples are ordered.
    pub fn from_config(content: &[u8]) -> (r: Self)
        ensures
            r.samples@ == sort_by_key(config_samples(content@)),
    {
        let lines = split_at_byte(content, 0x0a);
        let ghost views = split_bytes(content@, 0x0au8);
        let mut samples: Vec<Sample> = Vec::new();
        let mut k: usize = 0;
        while k < lines.len()
            invariant
                k <= lines@.len(),
                lines@.len() == views.len(),
                views == split_bytes(content@, 0x0au8),
                forall|i: int| 0 <= i < lines@.len() ==> #[trigger] lines@[i]@ == views[i],
                samples@ == lines_samples(views.take(k as int)),
            decreases lines@.len() - k,
        {
            proof {
                assert(views.take(k + 1).drop_last() =~= views.take(k as int));
                assert(views.take(k + 1).last() == lines@[k as int]@);
            }
            match parse_line(lines[k].as_slice()) {
                Some(x) => samples.push(x),
                None => {},
            }
            k = k + 1;
        }
        assert(views.take(lines@.len() as int) =~= views);
        WritePrecompDb { samples: stable_sort_by_key(samples) }
    }

    fn find_first(&self, f: SampleFilter) -> (r: Option<Sample>)
        ensures
            r == first_accepted(self.samples@, f, 0),
    {
        let mut i: usize = 0;
        while i < self.samples.len()
            invariant
                i <= self.samples@.len(),
                first_accepted(self.samples@, f, 0) == first_accepted(self.samples@, f, i as nat),
            decreases self.samples@.len() - i,
        {
            if accepts(f, self.samples[i]) {
                return Some(self.samples[i]);
            }
            i = i + 1;
        }
        None
    }

    fn find_last(&self, f: SampleFilter) -> (r: Option<Sample>)
        ensures
            r == last_accepted(self.samples@, f, self.samples@.len()),
    {
        let mut n: usize = self.samples.len();
        while n > 0
            invariant
                n <= self.samples@.len(),
                last_accepted(self.samples@, f, self.samples@.len()) == last_accepted(self.samples@, f, n as nat),
            decreases n,
        {
            if accepts(f, self.samples[n - 1]) {
                return Some(self.samples[n - 1]);
            }
            n = n - 1;
        }
        None
    }

    /// The samples for the left side of the interpolation at a cell size and cylinder.
    pub fn lerp_left(&self, cellsize: u32, cylinder: u32) -> (r: Option<CylinderInterpolation>)
        ensures
            r == lerp_left_spec(self.samples@, cellsize, cylinder),
    {
        let top = self.find_last(SampleFilter::TopLeft { cellsize, cylinder })?;
        match self.find_first(SampleFilter::SameColumnBelow { cellsize: top.cellsize, cylinder }) {
            None => Some(CylinderInterpolation::Exact { wprecomp: top.wprecomp, cellsize: top.cellsize }),
            Some(bottom) => if bottom.cylinder == top.cylinder {
                Some(CylinderInterpolation::Exact { wprecomp: top.wprecomp, cellsize: top.cellsize })
            } else {
                Some(CylinderInterpolation::Between { top, bottom })
            },
        }
    }

    /// The samples for the right side of the interpolation at a cell size and cylinder;
    /// there must be samples.
    pub fn lerp_right(&self, cellsize: u32, cylinder: u32) -> (r: Option<CylinderInterpolation>)
        requires
            self.samples@.len() > 0,
        ensures
            r == lerp_right_spec(self.samples@, cellsize, cylinder),
    {
        match self.find_first(SampleFilter::BottomRight { cellsize, cylinder }) {
            None => {
                let last = self.samples[self.samples.len() - 1];
                Some(CylinderInterpolation::Exact { wprecomp: last.wprecomp, cellsize: last.cellsize })
            },
            Some(bottom) => {
                let top = self.find_last(SampleFilter::SameColumnAbove { cellsize: bottom.cellsize, cylinder })?;
                if bottom.cylinder == top.cylinder {
                    Some(CylinderInterpolation::Exact { wprecomp: top.wprecomp, cellsize: top.cellsize })
                } else {
                    Some(CylinderInterpolation::Between { top, bottom })
                }
            },
        }
    }
}

/// The samples of an interpolation lie on the right sides of the point: a top sample is
/// not below it and a bottom sample not above it, on the same cell size, and a left top
/// sample is not right of it.
pub proof fn lemma_interpolation_brackets(s: Seq<Sample>, cellsize: u32, cylinder: u32)
    ensures
        lerp_left_spec(s, cellsize, cylinder) matches Some(CylinderInterpolation::Between { top, bottom })
            ==> top.cellsize == bottom.cellsize && top.cellsize <= cellsize && top.cylinder <= cylinder
            <= bottom.cylinder && top.cylinder < bottom.cylinder,
        s.len() > 0 ==> (lerp_right_spec(s, cellsize, cylinder) matches Some(
            CylinderInterpolation::Between { top, bottom },
        ) ==> top.cellsize == bottom.cellsize && bottom.cellsize >= cellsize && top.cylinder <= cylinder
            <= bottom.cylinder && top.cylinder < bottom.cylinder),
{
    lemma_last_accepted(s, SampleFilter::TopLeft { cellsize, cylinder }, s.len());
    lemma_first_accepted(s, SampleFilter::BottomRight { cellsize, cylinder }, 0);
    if let Some(top) = last_accepted(s, SampleFilter::TopLeft { cellsize, cylinder }, s.len()) {
        lemma_first_accepted(s, SampleFilter::SameColumnBelow { cellsize: top.cellsize, cylinder }, 0);
    }
    if let Some(bottom) = first_accepted(s, SampleFilter::BottomRight { cellsize, cylinder }, 0) {
        lemma_last_accepted(s, SampleFilter::SameColumnAbove { cellsize: bottom.cellsize, cylinder }, s.len());
    }
}

proof fn lemma_first_accepted(s: Seq<Sample>, f: SampleFilter, i: nat)
    ensures
        first_accepted(s, f, i) matches Some(x) ==> filter_accepts_sample(f, x),
    decreases s.len() - i,
{
    if i < s.len() && !filter_accepts_sample(f, s[i as int]) {
        lemma_first_accepted(s, f, i + 1);
    }
}

proof fn lemma_last_accepted(s: Seq<Sample>, f: SampleFilter, n: nat)
    ensures
        last_accepted(s, f, n) matches Some(x) ==> filter_accepts_sample(f, x),
    decreases n,
{
    if n > 0 && !filter_accepts_sample(f, s[n - 1]) {
        lemma_last_accepted(s, f, (n - 1) as nat);
    }
}

} // verus!
