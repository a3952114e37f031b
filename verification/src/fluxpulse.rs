use vstd::prelude::*;

use crate::types::{Bit, PulseDuration};

verus! {

/// The state of a [`FluxPulseGenerator`].
pub struct FluxGenState {
    /// Time accumulated since the last pulse, in timer ticks.
    pub acc: int,
    /// The most recent cells, newest in bit 0.
    pub shift: u32,
    /// `true` while a weak bit or no flux reversal area is being written.
    pub special: bool,
    pub cell_duration: u32,
    pub precompensation: u32,
    pub non_flux_reversal: bool,
    pub weak_bits: bool,
}

/// The duration of one weak bit pulse: two and a half cells.
pub open spec fn weak_cell_len(cd: u32) -> int {
    cd * 2 + cd / 2
}

/// The cells shifted in, newest in bit 0.
pub open spec fn shifted_in(shift: u32, cell: Bit) -> u32 {
    ((shift << 1u32) | (if cell.0 { 1u32 } else { 0u32 })) as u32
}

/// A cell `cell` can be fed in state `s` without an arithmetic overflow.
pub open spec fn flux_step_ok(s: FluxGenState, cell: Bit) -> bool {
    let acc1 = s.acc + s.cell_duration;
    let shift1 = shifted_in(s.shift, cell);
    &&& s.cell_duration <= i32::MAX
    &&& i32::MIN <= s.acc
    &&& acc1 <= i32::MAX
    &&& if s.special {
        s.weak_bits ==> weak_cell_len(s.cell_duration) <= i32::MAX
    } else if (shift1 & 0b10_0000u32) != 0 {
        let pattern = (shift1 >> 3u32) & 0b11111u32;
        &&& s.precompensation <= i32::MAX
        &&& (pattern == 0b00101u32 ==> acc1 + s.precompensation <= i32::MAX)
        &&& (pattern == 0b10100u32 ==> acc1 - s.precompensation >= i32::MIN)
    } else {
        true
    }
}

/// The state after feeding `cell` in state `s`, and the pulses given out meanwhile.
///
/// With a window of five cells, the pulse of the middle cell is written once the two
/// following cells are known: a close pulse after it delays the pulse by the write
/// precompensation, a close pulse before it advances it, and the next pulse is corrected in
/// the opposite direction. A flux reversal followed by five empty cells starts a weak bit area
/// (regular pulses of two and a half cells, ended by data two cells ahead) or a no flux
/// reversal area (one pulse per cell, ended by the next flux reversal).
pub open spec fn flux_step(s: FluxGenState, cell: Bit) -> (FluxGenState, Seq<PulseDuration>) {
    let acc1 = s.acc + s.cell_duration;
    let shift1 = shifted_in(s.shift, cell);
    let s1 = FluxGenState { acc: acc1, shift: shift1, ..s };
    if s.special {
        if s.weak_bits {
            let wl = weak_cell_len(s.cell_duration);
            let ends = (shift1 & 0b0001_1000u32) != 0;
            if acc1 >= wl {
                (
                    FluxGenState { acc: acc1 - wl, special: !ends, ..s1 },
                    seq![PulseDuration(wl as i32)],
                )
            } else {
                (FluxGenState { special: !ends, ..s1 }, Seq::empty())
            }
        } else if s.non_flux_reversal {
            let ends = (shift1 & 0b0010_0000u32) != 0;
            (FluxGenState { acc: 0, special: !ends, ..s1 }, seq![PulseDuration(acc1 as i32)])
        } else {
            (s1, Seq::empty())
        }
    } else if (shift1 & 0b10_0000u32) != 0 {
        let starts = (shift1 & 0b01_1111u32) == 0 && (s.weak_bits || s.non_flux_reversal);
        let pattern = (shift1 >> 3u32) & 0b11111u32;
        let pre = s.precompensation as int;
        let (pulse, next) = if pattern == 0b00101u32 {
            (acc1 + pre, -pre)
        } else if pattern == 0b10100u32 {
            (acc1 - pre, pre)
        } else {
            (acc1, 0int)
        };
        (FluxGenState { acc: next, special: starts, ..s1 }, seq![PulseDuration(pulse as i32)])
    } else {
        (s1, Seq::empty())
    }
}

/// The total duration of the pulses `p`.
pub open spec fn total_duration(p: Seq<PulseDuration>) -> int
    decreases p.len(),
{
    if p.len() == 0 {
        0
    } else {
        total_duration(p.drop_last()) + p.last().0
    }
}

pub proof fn lemma_total_duration_append(a: Seq<PulseDuration>, b: Seq<PulseDuration>)
    ensures
        total_duration(a + b) == total_duration(a) + total_duration(b),
    decreases b.len(),
{
    if b.len() == 0 {
        assert(a + b == a);
    } else {
        lemma_total_duration_append(a, b.drop_last());
        assert((a + b).drop_last() == a + b.drop_last());
    }
}

/// The pulse generator neither loses nor gains time: each cell adds one cell duration,
/// which either goes into a pulse or stays in the accumulator.
pub proof fn lemma_flux_step_conserves_time(s: FluxGenState, cell: Bit)
    requires
        flux_step_ok(s, cell),
    ensures
        total_duration(flux_step(s, cell).1) + flux_step(s, cell).0.acc == s.acc + s.cell_duration,
{
    let (s2, out) = flux_step(s, cell);
    let acc1 = s.acc + s.cell_duration;
    if out.len() == 1 {
        assert(out.drop_last() == Seq::<PulseDuration>::empty());
        assert(total_duration(Seq::<PulseDuration>::empty()) == 0);
        assert(total_duration(out) == out[0].0);
        let shift1 = shifted_in(s.shift, cell);
        if s.special {
            if s.weak_bits {
                let wl = weak_cell_len(s.cell_duration);
                assert((wl as i32) as int == wl);
            } else {
                assert((acc1 as i32) as int == acc1);
            }
        } else {
            let pattern = (shift1 >> 3u32) & 0b11111u32;
            let pre = s.precompensation as int;
            if pattern == 0b00101u32 {
                assert(((acc1 + pre) as i32) as int == acc1 + pre);
            } else if pattern == 0b10100u32 {
                assert(((acc1 - pre) as i32) as int == acc1 - pre);
            } else {
                assert((acc1 as i32) as int == acc1);
            }
        }
    }
}

/// Feeding the cells `cells` one after the other, starting in state `s`.
pub open spec fn flux_run(s: FluxGenState, cells: Seq<Bit>) -> (FluxGenState, Seq<PulseDuration>)
    decreases cells.len(),
{
    if cells.len() == 0 {
        (s, Seq::empty())
    } else {
        let (s1, out1) = flux_run(s, cells.drop_last());
        let (s2, out2) = flux_step(s1, cells.last());
        (s2, out1 + out2)
    }
}

/// Every cell of `cells` can be fed without an arithmetic overflow.
pub open spec fn flux_run_ok(s: FluxGenState, cells: Seq<Bit>) -> bool
    decreases cells.len(),
{
    if cells.len() == 0 {
        true
    } else {
        flux_run_ok(s, cells.drop_last()) && flux_step_ok(flux_run(s, cells.drop_last()).0, cells.last())
    }
}

pub proof fn lemma_flux_run_push(s: FluxGenState, cells: Seq<Bit>, c: Bit)
    ensures
        flux_run(s, cells.push(c)) == ({
            let (s1, out1) = flux_run(s, cells);
            let (s2, out2) = flux_step(s1, c);
            (s2, out1 + out2)
        }),
        flux_run_ok(s, cells.push(c)) == (flux_run_ok(s, cells) && flux_step_ok(flux_run(s, cells).0, c)),
{
    assert(cells.push(c).drop_last() == cells);
}

/// Over any run of cells the pulse generator neither loses nor gains time: the pulses given
/// out and the accumulator together grow by one cell duration per cell.
pub proof fn lemma_flux_run_conserves_time(s: FluxGenState, cells: Seq<Bit>)
    requires
        flux_run_ok(s, cells),
    ensures
        total_duration(flux_run(s, cells).1) + flux_run(s, cells).0.acc == s.acc + cells.len()
            * s.cell_duration,
        flux_run(s, cells).0.cell_duration == s.cell_duration,
    decreases cells.len(),
{
    if cells.len() > 0 {
        let pre = cells.drop_last();
        lemma_flux_run_conserves_time(s, pre);
        let (s1, out1) = flux_run(s, pre);
        lemma_flux_step_conserves_time(s1, cells.last());
        lemma_total_duration_append(out1, flux_step(s1, cells.last()).1);
        assert(cells.len() * s.cell_duration == pre.len() * s.cell_duration + s.cell_duration)
            by (nonlinear_arith)
            requires
                cells.len() == pre.len() + 1,
        ;
    }
}

/// Turns a stream of cells into flux pulse durations, with write precompensation and
/// generators for weak bit and no flux reversal areas.
pub struct FluxPulseGenerator {
    pub cell_duration: u32,
    pulse_accumulator: i32,
    pub precompensation: u32,
    shift_word: u32,
    special_generator_state: bool,
    pub enable_non_flux_reversal_generator: bool,
    pub enable_weak_bit_generator: bool,
}

impl View for FluxPulseGenerator {
    type V = FluxGenState;

    closed spec fn view(&self) -> FluxGenState {
        FluxGenState {
            acc: self.pulse_accumulator as int,
            shift: self.shift_word,
            special: self.special_generator_state,
            cell_duration: self.cell_duration,
            precompensation: self.precompensation,
            non_flux_reversal: self.enable_non_flux_reversal_generator,
            weak_bits: self.enable_weak_bit_generator,
        }
    }
}

impl FluxPulseGenerator {
    /// A generator whose first pulse comes five cells late: the accumulator starts at minus
    /// five cell durations.
    pub fn new(cell_duration: u32) -> (r: FluxPulseGenerator)
        requires
            cell_duration * 5 <= 0x8000_0000,
        ensures
            r@ == (FluxGenState {
                acc: -5 * cell_duration,
                shift: 0,
                special: false,
                cell_duration,
                precompensation: 0,
                non_flux_reversal: false,
                weak_bits: false,
            }),
    {
        let cd: i32 = cell_duration as i32;
        assert(cd == cell_duration);
        assert(cd * -5 >= i32::MIN && cd * -5 <= 0) by (nonlinear_arith)
            requires
                0 <= cd <= 429496729,
        ;
        FluxPulseGenerator {
            cell_duration,
            pulse_accumulator: cd * -5,
            precompensation: 0,
            shift_word: 0,
            special_generator_state: false,
            enable_non_flux_reversal_generator: false,
            enable_weak_bit_generator: false,
        }
    }

    /// Takes one cell and appends the pulses that are due to `sink`.
    pub fn feed(&mut self, cell: Bit, sink: &mut Vec<PulseDuration>)
        requires
            flux_step_ok(old(self)@, cell),
        ensures
            final(self)@ == flux_step(old(self)@, cell).0,
            final(sink)@ == old(sink)@ + flux_step(old(self)@, cell).1,
    {
        let ghost s = self@;
        assert(self.cell_duration as i32 == self.cell_duration);
        self.pulse_accumulator += self.cell_duration as i32;
        self.shift_word <<= 1;
        if cell.0 {
            self.shift_word |= 1;
        }
        assert(self.shift_word == shifted_in(s.shift, cell)) by {
            let x = s.shift;
            assert(((x << 1u32) | 1u32) == ((x << 1u32) | 1u32));
            assert(((x << 1u32) | 0u32) == (x << 1u32)) by (bit_vector);
        }
        if self.special_generator_state {
            if self.enable_weak_bit_generator {
                let weak_cell_len = (self.cell_duration * 2 + self.cell_duration / 2) as i32;
                if self.pulse_accumulator >= weak_cell_len {
                    sink.push(PulseDuration(weak_cell_len));
                    self.pulse_accumulator -= weak_cell_len;
                }
                if (self.shift_word & 0b0001_1000) != 0 {
                    self.special_generator_state = false;
                }
            } else if self.enable_non_flux_reversal_generator {
                sink.push(PulseDuration(self.pulse_accumulator));
                self.pulse_accumulator = 0;
                if (self.shift_word & 0b0010_0000) != 0 {
                    self.special_generator_state = false;
                }
            }
        } else if (self.shift_word & 0b0010_0000) != 0 {
            if self.shift_word & 0b011111 == 0 && (self.enable_weak_bit_generator
                || self.enable_non_flux_reversal_generator) {
                self.special_generator_state = true;
            }
            let next_pulse_accu = match (self.shift_word >> 3) & 0b11111 {
                0b00101 => {
                    self.pulse_accumulator += self.precompensation as i32;
                    -(self.precompensation as i32)
                },
                0b10100 => {
                    self.pulse_accumulator -= self.precompensation as i32;
                    self.precompensation as i32
                },
                _ => 0,
            };
            sink.push(PulseDuration(self.pulse_accumulator as i32));
            self.pulse_accumulator = next_pulse_accu;
        }
    }
}

impl FluxPulseGenerator {
    /// Changes the duration of the cells fed from now on.
    pub fn set_cell_duration(&mut self, cell_duration: u32)
        ensures
            final(self)@ == (FluxGenState { cell_duration, ..old(self)@ }),
    {
        self.cell_duration = cell_duration;
    }

    /// Whether `cell` can be fed without an arithmetic overflow.
    pub fn can_feed(&self, cell: Bit) -> (r: bool)
        ensures
            r == flux_step_ok(self@, cell),
    {
        let cd = self.cell_duration as i64;
        let acc1 = self.pulse_accumulator as i64 + cd;
        let shift1: u32 = (self.shift_word << 1) | (if cell.0 {
            1u32
        } else {
            0u32
        });
        assert(shift1 == shifted_in(self.shift_word, cell));
        if cd > i32::MAX as i64 || acc1 > i32::MAX as i64 {
            return false;
        }
        if self.special_generator_state {
            !self.enable_weak_bit_generator || cd * 2 + cd / 2 <= i32::MAX as i64
        } else if (shift1 & 0b10_0000) != 0 {
            let pattern = (shift1 >> 3) & 0b11111;
            let pre = self.precompensation as i64;
            pre <= i32::MAX as i64 && (pattern != 0b00101 || acc1 + pre <= i32::MAX as i64) && (pattern
                != 0b10100 || acc1 - pre >= i32::MIN as i64)
        } else {
            true
        }
    }
}

impl FluxPulseGenerator {
    /// Switches the weak bit and no flux reversal generators off and, if a flux reversal
    /// is still pending within the last five cells, feeds five empty cells to give it out.
    pub fn flush(&mut self, sink: &mut Vec<PulseDuration>)
        requires
            (old(self)@.shift & 0b11111u32) != 0 ==> flux_run_ok(
                FluxGenState { non_flux_reversal: false, weak_bits: false, ..old(self)@ },
                Seq::new(5, |i: int| Bit(false)),
            ),
        ensures
            ({
                let s = FluxGenState { non_flux_reversal: false, weak_bits: false, ..old(self)@ };
                if (old(self)@.shift & 0b11111u32) != 0 {
                    let (s2, out) = flux_run(s, Seq::new(5, |i: int| Bit(false)));
                    final(self)@ == s2 && final(sink)@ == old(sink)@ + out
                } else {
                    final(self)@ == s && final(sink)@ == old(sink)@
                }
            }),
    {
        self.enable_non_flux_reversal_generator = false;
        self.enable_weak_bit_generator = false;
        if (self.shift_word & 0b11111) != 0 {
            let ghost s = self@;
            let ghost zeros: Seq<Bit> = Seq::new(5, |i: int| Bit(false));
            let ghost start = sink@;
            let mut i: usize = 0;
            while i < 5
                invariant
                    i <= 5,
                    zeros == Seq::new(5, |i: int| Bit(false)),
                    flux_run_ok(s, zeros),
                    self@ == flux_run(s, zeros.take(i as int)).0,
                    sink@ == start + flux_run(s, zeros.take(i as int)).1,
                decreases 5 - i,
            {
                proof {
                    assert(zeros.take(i + 1) == zeros.take(i as int).push(Bit(false)));
                    lemma_flux_run_push(s, zeros.take(i as int), Bit(false));
                    lemma_flux_run_ok_prefix(s, zeros, i + 1);
                }
                self.feed(Bit(false), sink);
                i = i + 1;
            }
            assert(zeros.take(5) == zeros);
        }
    }
}

/// Every prefix of a run that can be fed can be fed itself.
pub proof fn lemma_flux_run_ok_prefix(s: FluxGenState, cells: Seq<Bit>, n: int)
    requires
        flux_run_ok(s, cells),
        0 <= n <= cells.len(),
    ensures
        flux_run_ok(s, cells.take(n)),
        n > 0 ==> flux_step_ok(flux_run(s, cells.take(n - 1)).0, cells[n - 1]),
    decreases cells.len() - n,
{
    if n < cells.len() {
        let pre = cells.drop_last();
        assert(pre.take(n) == cells.take(n));
        if n > 0 {
            assert(pre.take(n - 1) == cells.take(n - 1));
        }
        lemma_flux_run_ok_prefix(s, pre, n);
    } else {
        assert(cells.take(n) == cells);
        if n > 0 {
            assert(cells.take(n - 1) == cells.drop_last());
        }
    }
}

/// The number of empty cells before the flux reversal that a pulse of `duration` stands for.
pub open spec fn empty_cells_before(duration: int, cd: int) -> nat
    decreases duration,
{
    if cd > 0 && duration > cd + cd / 2 {
        1 + empty_cells_before(duration - cd, cd)
    } else {
        0
    }
}

/// The cells that a pulse of `duration` stands for: empty cells, then one flux reversal.
pub open spec fn pulse_cells(duration: int, cd: int) -> Seq<Bit> {
    Seq::new(empty_cells_before(duration, cd), |i: int| Bit(false)).push(Bit(true))
}

/// A pulse of `n` cell durations, off by less than half a cell, stands for `n - 1` empty cells
/// and a flux reversal.
pub proof fn lemma_pulse_cells_exact(n: int, e: int, cd: int)
    requires
        cd > 0,
        n >= 1,
        e <= cd / 2,
        n == 1 || e > cd / 2 - cd,
    ensures
        empty_cells_before(n * cd + e, cd) == n - 1,
    decreases n,
{
    if n > 1 {
        assert(n * cd + e - cd == (n - 1) * cd + e) by (nonlinear_arith);
        assert(n * cd + e > cd + cd / 2) by (nonlinear_arith)
            requires
                n >= 2,
                cd > 0,
                e > cd / 2 - cd,
        ;
        lemma_pulse_cells_exact(n - 1, e, cd);
    } else {
        assert(n * cd + e == cd + e) by (nonlinear_arith)
            requires
                n == 1,
        ;
    }
}

/// Turns flux pulse durations back into cells.
pub struct FluxPulseToCells {
    pub cell_duration: i32,
}

impl FluxPulseToCells {
    pub fn new(cell_duration: i32) -> (r: FluxPulseToCells)
        ensures
            r.cell_duration == cell_duration,
    {
        FluxPulseToCells { cell_duration }
    }

    /// Appends the cells that `duration` stands for: one empty cell for each cell duration
    /// by which it exceeds one and a half cells, then a flux reversal.
    pub fn feed(&mut self, duration: PulseDuration, sink: &mut Vec<Bit>)
        requires
            old(self).cell_duration + old(self).cell_duration / 2 <= i32::MAX,
            old(self).cell_duration > 0 || duration.0 <= old(self).cell_duration + old(
                self,
            ).cell_duration / 2,
        ensures
            final(self).cell_duration == old(self).cell_duration,
            final(sink)@ == old(sink)@ + pulse_cells(duration.0 as int, old(self).cell_duration as int),
    {
        let cd = self.cell_duration;
        let ghost start = sink@;
        let mut d: i32 = duration.0;
        let ghost total = empty_cells_before(duration.0 as int, cd as int);
        while d > cd + cd / 2
            invariant
                cd == self.cell_duration,
                cd + cd / 2 <= i32::MAX,
                cd > 0 || d <= cd + cd / 2,
                d <= duration.0,
                empty_cells_before(d as int, cd as int) + (sink@.len() - start.len()) == total,
                sink@ == start + Seq::new((sink@.len() - start.len()) as nat, |i: int| Bit(false)),
            decreases d,
        {
            let ghost before = sink@;
            d = d - cd;
            sink.push(Bit(false));
            assert(Seq::new((sink@.len() - start.len()) as nat, |i: int| Bit(false)) =~= Seq::new(
                (before.len() - start.len()) as nat,
                |i: int| Bit(false),
            ).push(Bit(false)));
        }
        sink.push(Bit(true));
        assert(sink@ =~= start + pulse_cells(duration.0 as int, cd as int));
    }
}

} // verus!
