use vstd::prelude::*;

verus! {

/// A single bit cell of a raw track.
#[derive(Clone, Copy, Debug, PartialEq, Eq, Structural)]
pub struct Bit(pub bool);

#[derive(Clone, Copy, Debug, PartialEq, Eq, Structural)]
pub struct Head(pub u8);

#[derive(Clone, Copy, Debug, PartialEq, Eq, Structural)]
pub struct Cylinder(pub u8);

#[derive(Clone, Copy, Debug, PartialEq, Eq, Structural)]
pub enum Encoding {
    GCR,
    MFM,
}

#[derive(Clone, Copy, Debug, PartialEq, Eq, Structural)]
pub enum DiskType {
    Inch3_5,
    Inch5_25,
}

#[derive(Clone, Copy, Debug, PartialEq, Eq, Structural)]
pub enum DriveSelectState {
    Unselected,
    A,
    B,
}

#[derive(Clone, Copy, Debug, PartialEq, Eq, Structural)]
pub enum Density {
    High,
    SingleDouble,
}

#[derive(Clone, Copy, Debug, PartialEq, Eq, Structural)]
pub struct Track {
    pub cylinder: Cylinder,
    pub head: Head,
}

/// Duration between two flux reversals, in timer ticks.
#[derive(Clone, Copy, Debug, PartialEq, Eq, Structural)]
pub struct PulseDuration(pub i32);

impl PulseDuration {
    /// `true` when both durations differ by less than `threshold`.
    pub fn similar(&self, other: &PulseDuration, threshold: i32) -> (r: bool)
        requires
            i32::MIN < self.0 - other.0 <= i32::MAX,
        ensures
            r == ((self.0 - other.0 < threshold) && (other.0 - self.0 < threshold)),
    {
        let diff: i32 = self.0 - other.0;
        let abs: i32 = if diff < 0 { -diff } else { diff };
        abs < threshold
    }
}

/// A run of cell bytes written with one cell size.
#[derive(Clone, Copy, Debug, PartialEq, Eq, Structural)]
pub struct DensityMapEntry {
    pub number_of_cellbytes: usize,
    pub cell_size: PulseDuration,
}

/// The cell sizes of a track, run by run.
pub type DensityMap = Vec<DensityMapEntry>;

/// Total number of cell bytes of the runs `m`.
pub open spec fn total_cellbytes(m: Seq<DensityMapEntry>) -> int
    decreases m.len(),
{
    if m.len() == 0 {
        0
    } else {
        total_cellbytes(m.drop_last()) + m.last().number_of_cellbytes
    }
}

/// The cell size of every single cell byte of the runs `m`, in order.
pub open spec fn expand_densitymap(m: Seq<DensityMapEntry>) -> Seq<i32>
    decreases m.len(),
{
    if m.len() == 0 {
        Seq::empty()
    } else {
        expand_densitymap(m.drop_last()) + Seq::new(
            m.last().number_of_cellbytes as nat,
            |i: int| m.last().cell_size.0,
        )
    }
}

/// No two neighbouring runs share a cell size.
pub open spec fn runs_merged(m: Seq<DensityMapEntry>) -> bool {
    forall|i: int| 0 <= i < m.len() - 1 ==> #[trigger] m[i].cell_size != m[i + 1].cell_size
}

/// The runs `m` with each run that has the cell size of the run before it added to that run,
/// taken from the first run to the last.
pub open spec fn merged_runs(m: Seq<DensityMapEntry>) -> Seq<DensityMapEntry>
    decreases m.len(),
{
    if m.len() == 0 {
        Seq::empty()
    } else {
        let r = merged_runs(m.drop_last());
        let e = m.last();
        if r.len() > 0 && r.last().cell_size == e.cell_size {
            r.drop_last().push(
                DensityMapEntry {
                    number_of_cellbytes: (r.last().number_of_cellbytes + e.number_of_cellbytes) as usize,
                    cell_size: e.cell_size,
                },
            )
        } else {
            r.push(e)
        }
    }
}

proof fn lemma_merged_runs_merged(m: Seq<DensityMapEntry>)
    ensures
        runs_merged(merged_runs(m)),
    decreases m.len(),
{
    if m.len() > 0 {
        lemma_merged_runs_merged(m.drop_last());
        let r = merged_runs(m.drop_last());
        let out = merged_runs(m);
        assert forall|j: int| 0 <= j < out.len() - 1 implies #[trigger] out[j].cell_size
            != out[j + 1].cell_size by {
            assert(out[j] == r[j]);
            if j + 1 < out.len() - 1 {
                assert(out[j + 1] == r[j + 1]);
            }
        }
    }
}

proof fn lemma_merged_runs_fixed(m: Seq<DensityMapEntry>)
    requires
        runs_merged(m),
    ensures
        merged_runs(m) == m,
    decreases m.len(),
{
    if m.len() > 0 {
        let p = m.drop_last();
        assert(runs_merged(p)) by {
            assert forall|j: int| 0 <= j < p.len() - 1 implies #[trigger] p[j].cell_size
                != p[j + 1].cell_size by {
                assert(m[j].cell_size != m[j + 1].cell_size);
            }
        }
        lemma_merged_runs_fixed(p);
        if p.len() > 0 {
            assert(m[m.len() - 2].cell_size != m[m.len() - 1].cell_size);
        }
        assert(p.push(m.last()) == m);
    }
}

/// Merging the runs of a density map a second time changes nothing.
pub proof fn lemma_reduce_densitymap_idempotent(m: Seq<DensityMapEntry>)
    ensures
        merged_runs(merged_runs(m)) == merged_runs(m),
{
    lemma_merged_runs_merged(m);
    lemma_merged_runs_fixed(merged_runs(m));
}

pub proof fn lemma_expand_push(m: Seq<DensityMapEntry>, e: DensityMapEntry)
    ensures
        expand_densitymap(m.push(e)) == expand_densitymap(m) + Seq::new(
            e.number_of_cellbytes as nat,
            |i: int| e.cell_size.0,
        ),
        total_cellbytes(m.push(e)) == total_cellbytes(m) + e.number_of_cellbytes,
{
    assert(m.push(e).drop_last() == m);
}

pub proof fn lemma_expand_len(m: Seq<DensityMapEntry>)
    ensures
        expand_densitymap(m).len() == total_cellbytes(m),
        total_cellbytes(m) >= 0,
    decreases m.len(),
{
    if m.len() > 0 {
        lemma_expand_len(m.drop_last());
    }
}

/// Merges neighbouring runs of the same cell size into one.
///
/// Every cell byte keeps its cell size: the expansion of the result to single cell bytes is
/// that of the input, and no two neighbouring runs of the result share a cell size.
pub fn reduce_densitymap(densitymap: DensityMap) -> (result: DensityMap)
    requires
        total_cellbytes(densitymap@) <= usize::MAX,
    ensures
        result@ == merged_runs(densitymap@),
        expand_densitymap(result@) == expand_densitymap(densitymap@),
        total_cellbytes(result@) == total_cellbytes(densitymap@),
        runs_merged(result@),
        result@.len() <= densitymap@.len(),
{
    let mut result: DensityMap = Vec::new();
    let mut i: usize = 0;
    while i < densitymap.len()
        invariant
            i <= densitymap@.len(),
            total_cellbytes(densitymap@) <= usize::MAX,
            expand_densitymap(result@) == expand_densitymap(densitymap@.take(i as int)),
            total_cellbytes(result@) == total_cellbytes(densitymap@.take(i as int)),
            runs_merged(result@),
            result@.len() <= i,
            result@ == merged_runs(densitymap@.take(i as int)),
        decreases densitymap@.len() - i,
    {
        let entry = densitymap[i];
        proof {
            assert(densitymap@.take(i + 1) == densitymap@.take(i as int).push(entry));
            assert(densitymap@.take(i + 1).drop_last() == densitymap@.take(i as int));
            lemma_expand_push(densitymap@.take(i as int), entry);
            lemma_total_prefix(densitymap@, i as int + 1);
            lemma_expand_len(result@);
        }
        let len = result.len();
        if len > 0 && entry.cell_size == result[len - 1].cell_size {
            let last = result[len - 1];
            let merged = DensityMapEntry {
                number_of_cellbytes: last.number_of_cellbytes + entry.number_of_cellbytes,
                cell_size: last.cell_size,
            };
            let ghost before = result@;
            result.set(len - 1, merged);
            proof {
                let pre = before.drop_last();
                assert(before == pre.push(last));
                assert(result@ == pre.push(merged));
                lemma_expand_push(pre, last);
                lemma_expand_push(pre, merged);
                assert(Seq::new(merged.number_of_cellbytes as nat, |k: int| merged.cell_size.0)
                    =~= Seq::new(last.number_of_cellbytes as nat, |k: int| last.cell_size.0)
                    + Seq::new(entry.number_of_cellbytes as nat, |k: int| entry.cell_size.0));
                assert(runs_merged(result@)) by {
                    assert forall|j: int| 0 <= j < result@.len() - 1 implies #[trigger] result@[j].cell_size
                        != result@[j + 1].cell_size by {
                        assert(result@[j] == before[j]);
                        if j + 1 < result@.len() - 1 {
                            assert(result@[j + 1] == before[j + 1]);
                        }
                    }
                }
            }
        } else {
            let ghost before = result@;
            result.push(entry);
            proof {
                lemma_expand_push(before, entry);
                assert(runs_merged(result@)) by {
                    assert forall|j: int| 0 <= j < result@.len() - 1 implies #[trigger] result@[j].cell_size
                        != result@[j + 1].cell_size by {
                        assert(result@[j] == before[j]);
                        if j + 1 < result@.len() - 1 {
                            assert(result@[j + 1] == before[j + 1]);
                        }
                    }
                }
            }
        }
        i = i + 1;
    }
    assert(densitymap@.take(i as int) == densitymap@);
    result
}

/// The total of a prefix does not exceed the total of all runs.
proof fn lemma_total_prefix(m: Seq<DensityMapEntry>, n: int)
    requires
        0 <= n <= m.len(),
    ensures
        0 <= total_cellbytes(m.take(n)) <= total_cellbytes(m),
    decreases m.len() - n,
{
    lemma_expand_len(m.take(n));
    if n < m.len() {
        lemma_total_prefix(m, n + 1);
        assert(m.take(n + 1) == m.take(n).push(m[n]));
        lemma_expand_push(m.take(n), m[n]);
    } else {
        assert(m.take(n) == m);
    }
}

/// The cells of one run of a track together with their cell size.
pub struct RawCellPart<'a> {
    pub cell_size: PulseDuration,
    pub cells: &'a [u8],
}

/// The cell bytes of a track together with its density map.
pub struct RawCellData {
    speeds: DensityMap,
    cells: Vec<u8>,
    has_non_flux_reversal_area: bool,
}

impl RawCellData {
    /// The runs of the density map cover the cell bytes exactly.
    #[verifier::type_invariant]
    spec fn runs_cover_cells(self) -> bool {
        total_cellbytes(self.speeds@) == self.cells@.len()
    }

    pub closed spec fn spec_speeds(&self) -> Seq<DensityMapEntry> {
        self.speeds@
    }

    pub closed spec fn spec_cells(&self) -> Seq<u8> {
        self.cells@
    }

    pub closed spec fn spec_has_non_flux_reversal_area(&self) -> bool {
        self.has_non_flux_reversal_area
    }

    /// Pairs the cell bytes with their density map, which must cover them exactly.
    pub fn construct(speeds: DensityMap, cells: Vec<u8>, has_non_flux_reversal_area: bool) -> (r:
        Self)
        requires
            total_cellbytes(speeds@) == cells@.len(),
        ensures
            r.spec_speeds() == speeds@,
            r.spec_cells() == cells@,
            r.spec_has_non_flux_reversal_area() == has_non_flux_reversal_area,
    {
        RawCellData { speeds, cells, has_non_flux_reversal_area }
    }

    pub fn borrow_speeds(&self) -> (r: &DensityMap)
        ensures
            r@ == self.spec_speeds(),
    {
        &self.speeds
    }

    pub fn borrow_cells(&self) -> (r: &Vec<u8>)
        ensures
            r@ == self.spec_cells(),
    {
        &self.cells
    }

    pub fn borrow_has_non_flux_reversal_area(&self) -> (r: bool)
        ensures
            r == self.spec_has_non_flux_reversal_area(),
    {
        self.has_non_flux_reversal_area
    }

    /// The cell bytes split into the runs of the density map, in order.
    pub fn borrow_parts(&self) -> (parts: Vec<RawCellPart<'_>>)
        ensures
            parts@.len() == self.spec_speeds().len(),
            forall|k: int|
                0 <= k < parts@.len() ==> {
                    &&& (#[trigger] parts@[k]).cell_size == self.spec_speeds()[k].cell_size
                    &&& parts@[k].cells@ == self.spec_cells().subrange(
                        total_cellbytes(self.spec_speeds().take(k)),
                        total_cellbytes(self.spec_speeds().take(k + 1)),
                    )
                },
    {
        proof {
            use_type_invariant(self);
        }
        let mut parts: Vec<RawCellPart<'_>> = Vec::new();
        let n_cells = self.cells.len();
        let mut offset: usize = 0;
        let mut k: usize = 0;
        while k < self.speeds.len()
            invariant
                k <= self.speeds@.len(),
                total_cellbytes(self.speeds@) == self.cells@.len(),
                n_cells == self.cells@.len(),
                offset == total_cellbytes(self.speeds@.take(k as int)),
                parts@.len() == k,
                forall|j: int|
                    0 <= j < k ==> {
                        &&& (#[trigger] parts@[j]).cell_size == self.speeds@[j].cell_size
                        &&& parts@[j].cells@ == self.cells@.subrange(
                            total_cellbytes(self.speeds@.take(j)),
                            total_cellbytes(self.speeds@.take(j + 1)),
                        )
                    },
            decreases self.speeds@.len() - k,
        {
            let speed = self.speeds[k];
            proof {
                assert(self.speeds@.take(k + 1) == self.speeds@.take(k as int).push(speed));
                lemma_expand_push(self.speeds@.take(k as int), speed);
                lemma_total_prefix(self.speeds@, k + 1);
            }
            let entry = RawCellPart {
                cell_size: speed.cell_size,
                cells: &self.cells.as_slice()[offset..speed.number_of_cellbytes + offset],
            };
            parts.push(entry);
            offset += speed.number_of_cellbytes;
            k = k + 1;
        }
        parts
    }
}

} // verus!
