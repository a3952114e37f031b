//! Whether a drive can write a raw track: no flux pulse of the track may be shorter than its
//! cell size plus a margin.
use vstd::prelude::*;

use crate::bitstream::{byte_cells, to_bit_stream};
use crate::fluxpulse::{
    flux_run, flux_run_ok, flux_step, flux_step_ok, lemma_flux_run_ok_prefix, lemma_flux_run_push,
    FluxGenState, FluxPulseGenerator,
};
use crate::rawtrack::RawTrack;
use crate::types::{total_cellbytes, Bit, DensityMapEntry, Encoding, PulseDuration};

verus! {

/// Why a track cannot be written.
#[derive(Debug, Clone, Copy, PartialEq, Eq, Structural)]
pub enum WritabilityError {
    /// A pulse shorter than allowed, given out while cell byte number `offset` (from 1)
    /// was fed.
    TooShortPulse { offset: usize, pulse: PulseDuration },
    /// The pulse timing of cell byte number `offset` does not fit into 32 bits.
    Overflow { offset: usize },
}

/// Ticks that a pulse must be longer than a cell.
pub const MINIMUM_PULSE_MARGIN: i32 = 40;

/// The first pulse shorter than `min`.
pub open spec fn first_short_pulse(out: Seq<PulseDuration>, min: int) -> Option<PulseDuration>
    decreases out.len(),
{
    if out.len() == 0 {
        None
    } else if out[0].0 < min {
        Some(out[0])
    } else {
        first_short_pulse(out.drop_first(), min)
    }
}

/// Cell bytes `k..end` fed from state `s`: the first problem, and the state after them.
pub open spec fn check_part(s: FluxGenState, data: Seq<u8>, k: nat, end: nat, min: int) -> (
    Result<(), WritabilityError>,
    FluxGenState,
)
    decreases end - k,
{
    if k >= end {
        (Ok(()), s)
    } else if !flux_run_ok(s, byte_cells(data[k as int])) {
        (Err(WritabilityError::Overflow { offset: (k + 1) as usize }), s)
    } else {
        let (s2, out) = flux_run(s, byte_cells(data[k as int]));
        match first_short_pulse(out, min) {
            Some(p) => (Err(WritabilityError::TooShortPulse { offset: (k + 1) as usize, pulse: p }), s2),
            None => check_part(s2, data, k + 1, end, min),
        }
    }
}

/// Runs `p..` of the density map, the first of them starting at cell byte `off`.
pub open spec fn check_parts(
    s: FluxGenState,
    data: Seq<u8>,
    m: Seq<DensityMapEntry>,
    p: nat,
    off: nat,
    min: int,
) -> Result<(), WritabilityError>
    decreases m.len() - p,
{
    if p >= m.len() {
        Ok(())
    } else {
        let n = m[p as int].number_of_cellbytes as nat;
        let s1 = FluxGenState { cell_duration: m[p as int].cell_size.0 as u32, ..s };
        match check_part(s1, data, off, off + n, min) {
            (Err(e), _) => Err(e),
            (Ok(()), s2) => check_parts(s2, data, m, p + 1, off + n, min),
        }
    }
}

/// The pulse generator of a track that starts with the first cell size.
pub open spec fn start_state(cd: u32) -> FluxGenState {
    FluxGenState {
        acc: -5 * cd,
        shift: 0,
        special: false,
        cell_duration: cd,
        precompensation: 0,
        non_flux_reversal: false,
        weak_bits: false,
    }
}

/// Whether the drive can write the track: GCR tracks always; MFM tracks when, fed after a
/// single empty cell with the cell size of each run, no flux pulse is shorter than the
/// first cell size plus the margin.
pub open spec fn writability(t: RawTrack) -> Result<(), WritabilityError> {
    if t.encoding == Encoding::GCR {
        Ok(())
    } else {
        let cd0 = t.densitymap@[0].cell_size.0;
        let min = cd0 + MINIMUM_PULSE_MARGIN;
        let (s1, out0) = flux_step(start_state(cd0 as u32), Bit(false));
        match first_short_pulse(out0, min) {
            Some(p) => Err(WritabilityError::TooShortPulse { offset: 0, pulse: p }),
            None => check_parts(s1, t.raw_data@, t.densitymap@, 0, 0, min),
        }
    }
}

/// What is left of a check after some runs and cell bytes: a problem found ends it.
pub open spec fn continue_check(
    r: (Result<(), WritabilityError>, FluxGenState),
    data: Seq<u8>,
    m: Seq<DensityMapEntry>,
    p: nat,
    off: nat,
    min: int,
) -> Result<(), WritabilityError> {
    match r {
        (Err(e), _) => Err(e),
        (Ok(()), s2) => check_parts(s2, data, m, p, off, min),
    }
}

fn first_short(out: &Vec<PulseDuration>, min: i32) -> (r: Option<PulseDuration>)
    ensures
        r == first_short_pulse(out@, min as int),
{
    let mut i: usize = 0;
    assert(out@.skip(0) =~= out@);
    while i < out.len()
        invariant
            i <= out@.len(),
            first_short_pulse(out@, min as int) == first_short_pulse(out@.skip(i as int), min as int),
        decreases out@.len() - i,
    {
        proof {
            assert(out@.skip(i as int)[0] == out@[i as int]);
            assert(out@.skip(i as int).drop_first() =~= out@.skip(i + 1));
        }
        if out[i].0 < min {
            return Some(out[i]);
        }
        i = i + 1;
    }
    assert(out@.skip(i as int) =~= Seq::<PulseDuration>::empty());
    None
}

/// Feeds the cells of one byte, stopping where a cell would overflow the timing.
fn feed_byte(g: &mut FluxPulseGenerator, b: u8, out: &mut Vec<PulseDuration>) -> (ok: bool)
    requires
        old(out)@.len() == 0,
    ensures
        ok == flux_run_ok(old(g)@, byte_cells(b)),
        ok ==> final(g)@ == flux_run(old(g)@, byte_cells(b)).0 && final(out)@ == flux_run(old(g)@, byte_cells(b)).1,
{
    let mut cells: Vec<Bit> = Vec::new();
    to_bit_stream(b, &mut cells);
    let ghost s = g@;
    let ghost all = byte_cells(b);
    assert(cells@ =~= all);
    let mut i: usize = 0;
    assert(all.take(0) =~= Seq::<Bit>::empty());
    while i < 8
        invariant
            i <= 8,
            cells@ == all,
            all.len() == 8,
            s == old(g)@,
            all == byte_cells(b),
            flux_run_ok(s, all.take(i as int)),
            g@ == flux_run(s, all.take(i as int)).0,
            out@ == flux_run(s, all.take(i as int)).1,
        decreases 8 - i,
    {
        proof {
            assert(all.take(i + 1) =~= all.take(i as int).push(all[i as int]));
            lemma_flux_run_push(s, all.take(i as int), all[i as int]);
        }
        if !g.can_feed(cells[i]) {
            assert(!flux_step_ok(flux_run(s, all.take(i as int)).0, all[i as int]));
            proof {
                if flux_run_ok(s, all) {
                    lemma_flux_run_ok_prefix(s, all, i + 1);
                    assert(all.take(i as int) =~= all.take(i + 1 - 1));
                }
            }
            return false;
        }
        g.feed(cells[i], out);
        i = i + 1;
    }
    assert(all.take(8) =~= all);
    true
}

impl RawTrack {
    /// Checks whether a drive can write the track; the cell sizes of its runs are the cell
    /// durations of the pulse generator.
    pub fn check_writability(&self) -> (r: Result<(), WritabilityError>)
        requires
            self.encoding == Encoding::GCR || self.densitymap@.len() > 0,
            self.encoding == Encoding::GCR || 0 <= self.densitymap@[0].cell_size.0 <= 0x1999_9999,
            self.encoding == Encoding::GCR || total_cellbytes(self.densitymap@) == self.raw_data@.len(),
        ensures
            r == writability(*self),
    {
        match self.encoding {
            Encoding::GCR => {
                return Ok(());
            },
            _ => {},
        }
        let cd0 = self.densitymap[0].cell_size.0;
        let min = cd0 + MINIMUM_PULSE_MARGIN;
        let mut g = FluxPulseGenerator::new(cd0 as u32);
        assert(g@ == start_state(cd0 as u32));
        let mut first: Vec<PulseDuration> = Vec::new();
        assert(flux_step_ok(g@, Bit(false)));
        g.feed(Bit(false), &mut first);
        assert(first@ =~= flux_step(start_state(cd0 as u32), Bit(false)).1);
        match first_short(&first, min) {
            Some(p) => {
                return Err(WritabilityError::TooShortPulse { offset: 0, pulse: p });
            },
            None => {},
        }
        let data = &self.raw_data;
        let m = &self.densitymap;
        let ghost whole = writability(*self);
        let data_len = data.len();
        let mut off: usize = 0;
        let mut p: usize = 0;
        proof {
            lemma_total_prefix_bound(m@, 0);
            assert(m@.take(0) =~= Seq::<DensityMapEntry>::empty());
        }
        while p < m.len()
            invariant
                p <= m@.len(),
                m@ == self.densitymap@,
                data@ == self.raw_data@,
                total_cellbytes(m@) == data@.len(),
                off == total_cellbytes(m@.take(p as int)),
                off <= data@.len(),
                min == cd0 + MINIMUM_PULSE_MARGIN,
                whole == writability(*self),
                whole == check_parts(g@, data@, m@, p as nat, off as nat, min as int),
                data_len == data@.len(),
            decreases m@.len() - p,
        {
            let n = m[p].number_of_cellbytes;
            proof {
                lemma_total_prefix_bound(m@, p + 1);
                assert(m@.take(p + 1).drop_last() =~= m@.take(p as int));
                assert(m@.take(p + 1).last() == m@[p as int]);
                assert(off + n <= data_len);
            }
            let end = off + n;
            g.set_cell_duration(m[p].cell_size.0 as u32);
            let mut k: usize = off;
            while k < end
                invariant
                    off <= k <= end,
                    end <= data@.len(),
                    data@ == self.raw_data@,
                    whole == writability(*self),
                    whole == continue_check(check_part(g@, data@, k as nat, end as nat, min as int), data@, m@, (p + 1) as nat, end as nat, min as int),
                decreases end - k,
            {
                let mut out: Vec<PulseDuration> = Vec::new();
                let ghost before = g@;
                let byte = data[k];
                assert(byte == data@[k as int]);
                if !feed_byte(&mut g, byte, &mut out) {
                    assert(check_part(before, data@, k as nat, end as nat, min as int).0 == Err::<(), WritabilityError>(
                        WritabilityError::Overflow { offset: (k + 1) as usize },
                    ));
                    return Err(WritabilityError::Overflow { offset: k + 1 });
                }
                match first_short(&out, min) {
                    Some(pulse) => {
                        assert(check_part(before, data@, k as nat, end as nat, min as int).0 == Err::<(), WritabilityError>(
                            WritabilityError::TooShortPulse { offset: (k + 1) as usize, pulse },
                        ));
                        return Err(WritabilityError::TooShortPulse { offset: k + 1, pulse });
                    },
                    None => {},
                }
                k = k + 1;
            }
            off = end;
            p = p + 1;
        }
        Ok(())
    }
}

proof fn lemma_total_prefix_bound(m: Seq<DensityMapEntry>, p: int)
    requires
        0 <= p <= m.len(),
    ensures
        0 <= total_cellbytes(m.take(p)) <= total_cellbytes(m),
    decreases m.len(),
{
    if m.len() > 0 {
        if p == m.len() {
            assert(m.take(p) =~= m);
            lemma_total_prefix_bound(m.drop_last(), p - 1);
        } else {
            lemma_total_prefix_bound(m.drop_last(), p);
            assert(m.drop_last().take(p) =~= m.take(p));
        }
    }
}

} // verus!
