//! The decisions of the device while it reads a track and while it writes a track and
//! reads it back to verify it; the timing, the flux hardware and the bus stay outside.
use vstd::prelude::*;

use crate::types::PulseDuration;

verus! {

/// Why reading or verifying a track went wrong.
#[derive(Debug, Clone, Copy, PartialEq, Eq, Structural)]
pub enum RawTrackError {
    NoIndexPulse,
    NoIncomingData,
    NoCrossCorrelation,
    DataNotEqual,
}

/// How often a track is written before the device gives up.
pub const WRITE_ATTEMPTS: u8 = 5;

/// How often a written track is read back before it is written again.
pub const READ_ATTEMPTS: u8 = 3;

/// What the device does next while it writes and verifies a track.
#[derive(Debug, Clone, Copy, PartialEq, Eq, Structural)]
pub enum RetryStep {
    WriteTrack,
    VerifyTrack,
    Succeeded { writes: u8, verifies: u8, max_err: PulseDuration },
    Failed { writes: u8, verifies: u8 },
}

/// The counters of writing and verifying one track.
#[derive(Debug, Clone, Copy, PartialEq, Eq, Structural)]
pub struct WriteVerifyRetry {
    /// Writes started so far, the current one included.
    pub writes: u8,
    /// Verifications started so far, the current one included.
    pub verifies: u8,
    /// Which read back of the current write is running, from 0.
    pub read_try: u8,
    /// A verification, not a write, is running.
    pub verifying: bool,
}

impl WriteVerifyRetry {
    /// At most five writes, at most three read backs of each, and no more verifications
    /// than that.
    pub open spec fn wf(self) -> bool {
        &&& 1 <= self.writes <= WRITE_ATTEMPTS
        &&& self.read_try < READ_ATTEMPTS
        &&& self.verifying ==> self.verifies <= 3 * (self.writes - 1) + self.read_try + 1
        &&& !self.verifying ==> self.verifies <= 3 * (self.writes - 1) && self.read_try == 0
    }
}

/// The state after a write or a read back that leads nowhere: the next write, or failure
/// after the last one.
pub open spec fn next_round(s: WriteVerifyRetry) -> (WriteVerifyRetry, RetryStep) {
    if s.writes < WRITE_ATTEMPTS {
        (
            WriteVerifyRetry { writes: (s.writes + 1) as u8, read_try: 0, verifying: false, ..s },
            RetryStep::WriteTrack,
        )
    } else {
        (s, RetryStep::Failed { writes: s.writes, verifies: s.verifies })
    }
}

/// What follows a finished write.
pub open spec fn after_write_spec(s: WriteVerifyRetry, ok: bool) -> (WriteVerifyRetry, RetryStep) {
    if !ok {
        (s, RetryStep::Failed { writes: s.writes, verifies: s.verifies })
    } else {
        (
            WriteVerifyRetry { verifies: (s.verifies + 1) as u8, read_try: 0, verifying: true, ..s },
            RetryStep::VerifyTrack,
        )
    }
}

/// What follows a finished read back: success ends it, a mismatch reads again, a failed
/// cross correlation reads again once and then writes again, and a silent drive ends it.
pub open spec fn after_verify_spec(s: WriteVerifyRetry, result: Result<PulseDuration, RawTrackError>) -> (
    WriteVerifyRetry,
    RetryStep,
) {
    match result {
        Ok(max_err) => (s, RetryStep::Succeeded { writes: s.writes, verifies: s.verifies, max_err }),
        Err(RawTrackError::NoIncomingData) | Err(RawTrackError::NoIndexPulse) => (
            s,
            RetryStep::Failed { writes: s.writes, verifies: s.verifies },
        ),
        Err(e) => if (e == RawTrackError::DataNotEqual || s.read_try == 0) && s.read_try + 1
            < READ_ATTEMPTS {
            (
                WriteVerifyRetry { verifies: (s.verifies + 1) as u8, read_try: (s.read_try + 1) as u8, ..s },
                RetryStep::VerifyTrack,
            )
        } else {
            next_round(s)
        },
    }
}

impl WriteVerifyRetry {
    /// The first write of a track.
    pub fn start() -> (r: (WriteVerifyRetry, RetryStep))
        ensures
            r.0.wf(),
            r.0 == (WriteVerifyRetry { writes: 1, verifies: 0, read_try: 0, verifying: false }),
            r.1 == RetryStep::WriteTrack,
    {
        (WriteVerifyRetry { writes: 1, verifies: 0, read_try: 0, verifying: false }, RetryStep::WriteTrack)
    }

    /// Takes the outcome of a write.
    pub fn after_write(&mut self, ok: bool) -> (r: RetryStep)
        requires
            old(self).wf(),
            !old(self).verifying,
        ensures
            final(self).wf(),
            (*final(self), r) == after_write_spec(*old(self), ok),
    {
        if !ok {
            RetryStep::Failed { writes: self.writes, verifies: self.verifies }
        } else {
            self.verifies = self.verifies + 1;
            self.read_try = 0;
            self.verifying = true;
            RetryStep::VerifyTrack
        }
    }

    /// Takes the outcome of a read back.
    pub fn after_verify(&mut self, result: Result<PulseDuration, RawTrackError>) -> (r: RetryStep)
        requires
            old(self).wf(),
            old(self).verifying,
        ensures
            final(self).wf(),
            (*final(self), r) == after_verify_spec(*old(self), result),
    {
        match result {
            Ok(max_err) => RetryStep::Succeeded { writes: self.writes, verifies: self.verifies, max_err },
            Err(RawTrackError::NoIncomingData) | Err(RawTrackError::NoIndexPulse) => RetryStep::Failed {
                writes: self.writes,
                verifies: self.verifies,
            },
            Err(e) => {
                let again = match e {
                    RawTrackError::DataNotEqual => true,
                    _ => self.read_try == 0,
                };
                if again && self.read_try + 1 < READ_ATTEMPTS {
                    self.verifies = self.verifies + 1;
                    self.read_try = self.read_try + 1;
                    RetryStep::VerifyTrack
                } else if self.writes < WRITE_ATTEMPTS {
                    self.writes = self.writes + 1;
                    self.read_try = 0;
                    self.verifying = false;
                    RetryStep::WriteTrack
                } else {
                    RetryStep::Failed { writes: self.writes, verifies: self.verifies }
                }
            },
        }
    }
}

/// Every outcome reports at most five writes and at most fifteen read backs.
pub proof fn lemma_retry_bounded(s: WriteVerifyRetry, ok: bool, result: Result<PulseDuration, RawTrackError>)
    requires
        s.wf(),
    ensures
        !s.verifying ==> match after_write_spec(s, ok).1 {
            RetryStep::Failed { writes, verifies } => writes <= 5 && verifies <= 15,
            _ => true,
        },
        s.verifying ==> match after_verify_spec(s, result).1 {
            RetryStep::Succeeded { writes, verifies, .. } => writes <= 5 && verifies <= 15,
            RetryStep::Failed { writes, verifies } => writes <= 5 && verifies <= 15,
            _ => true,
        },
{
}

/// A pulse of timer ticks as one byte: an eighth of it, rounded, and no more than `0xff`.
pub open spec fn reduced_pulse(pulse: u32) -> u8 {
    let r = (pulse >> 3u32) + if pulse & 4u32 != 0 { 1int } else { 0int };
    if r > 0xff {
        0xff
    } else {
        r as u8
    }
}

/// Reduces a pulse to one byte for the bus.
pub fn reduce_pulse(pulse: u32) -> (r: u8)
    ensures
        r == reduced_pulse(pulse),
        r as int == (if pulse / 8 + (if pulse % 8 >= 4 { 1int } else { 0int }) > 0xff {
            0xff
        } else {
            pulse / 8 + (if pulse % 8 >= 4 { 1int } else { 0int })
        }),
{
    assert((pulse >> 3u32) == pulse / 8) by (bit_vector);
    assert((pulse & 4u32 != 0) == (pulse % 8 >= 4)) by (bit_vector);
    let mut reduced: u32 = pulse >> 3;
    if pulse & 0b100 != 0 {
        reduced = reduced + 1;
    }
    if reduced > 0xff {
        reduced = 0xff;
    }
    reduced as u8
}

/// Pulses of one bus packet.
pub const FRAME_SIZE: usize = 64;

/// Collects the pulses of a track read into packets for the bus until enough of the track
/// was recorded.
pub struct TrackReadCollector {
    pub collect_buffer: Vec<u8>,
    pub frames: Vec<Vec<u8>>,
    pub frames_collected: u32,
    pub duration_yet_recorded: u64,
    pub duration_to_record: u32,
    pub required_duration_was_recorded: bool,
}

impl TrackReadCollector {
    /// The packet being filled is not full yet.
    pub open spec fn wf(&self) -> bool {
        self.collect_buffer@.len() < FRAME_SIZE
    }

    pub fn new(duration_to_record: u32) -> (r: Self)
        ensures
            r.wf(),
            r.collect_buffer@ == Seq::<u8>::empty(),
            r.frames@ == Seq::<Vec<u8>>::empty(),
            r.frames_collected == 0,
            r.duration_yet_recorded == 0,
            r.duration_to_record == duration_to_record,
            !r.required_duration_was_recorded,
    {
        TrackReadCollector {
            collect_buffer: Vec::new(),
            frames: Vec::new(),
            frames_collected: 0,
            duration_yet_recorded: 0,
            duration_to_record,
            required_duration_was_recorded: false,
        }
    }

    /// Takes one pulse; a full packet is queued for the bus, and once a packet completes
    /// with the wanted duration recorded, the result is `true` and reading can stop.
    pub fn feed_pulse(&mut self, pulse: u32) -> (stop: bool)
        requires
            old(self).wf(),
            old(self).duration_yet_recorded + pulse <= u64::MAX,
            old(self).frames_collected < u32::MAX,
        ensures
            final(self).wf(),
            final(self).duration_yet_recorded == old(self).duration_yet_recorded + pulse,
            final(self).duration_to_record == old(self).duration_to_record,
            old(self).collect_buffer@.len() + 1 < FRAME_SIZE ==> {
                &&& final(self).collect_buffer@ == old(self).collect_buffer@.push(reduced_pulse(pulse))
                &&& final(self).frames@ == old(self).frames@
                &&& final(self).frames_collected == old(self).frames_collected
                &&& final(self).required_duration_was_recorded == old(self).required_duration_was_recorded
                &&& !stop
            },
            old(self).collect_buffer@.len() + 1 == FRAME_SIZE ==> {
                &&& final(self).collect_buffer@ == Seq::<u8>::empty()
                &&& final(self).frames@.len() == old(self).frames@.len() + 1
                &&& final(self).frames@.last()@ == old(self).collect_buffer@.push(reduced_pulse(pulse))
                &&& forall|i: int| 0 <= i < old(self).frames@.len() ==> #[trigger] final(self).frames@[i] == old(self).frames@[i]
                &&& final(self).frames_collected == old(self).frames_collected + 1
                &&& stop == (final(self).duration_yet_recorded >= old(self).duration_to_record)
                &&& final(self).required_duration_was_recorded == (old(self).required_duration_was_recorded || stop)
            },
    {
        self.duration_yet_recorded = self.duration_yet_recorded + pulse as u64;
        self.collect_buffer.push(reduce_pulse(pulse));
        if self.collect_buffer.len() == FRAME_SIZE {
            let mut frame: Vec<u8> = Vec::new();
            core::mem::swap(&mut frame, &mut self.collect_buffer);
            self.frames.push(frame);
            self.frames_collected = self.frames_collected + 1;
            if self.duration_yet_recorded >= self.duration_to_record as u64 {
                self.required_duration_was_recorded = true;
                return true;
            }
        }
        false
    }

    /// The read goes on while packets wait for the bus or the wanted duration is not
    /// recorded yet.
    pub fn keep_reading(&self, frames_transferred: u32) -> (r: bool)
        ensures
            r == (frames_transferred < self.frames_collected || !self.required_duration_was_recorded),
    {
        frames_transferred < self.frames_collected || !self.required_duration_was_recorded
    }
}

/// Pulses compared to find where the read back data starts.
pub const COMPARE_WINDOW_SIZE: usize = 20;

/// Pulses recorded to slide the compare window over.
pub const READ_DATA_WINDOW_SIZE: usize = 200;

/// How far a pulse read back may be off: 35 percent of a cell.
pub open spec fn similarity_threshold_spec(cell_size: i32) -> int {
    (cell_size * 35) / 100
}

pub fn similarity_threshold(cell_size: PulseDuration) -> (r: i32)
    requires
        0 <= cell_size.0 <= i32::MAX / 35,
    ensures
        r == similarity_threshold_spec(cell_size.0),
{
    cell_size.0 * 35 / 100
}

/// Both durations differ by less than `threshold`.
pub open spec fn similar_spec(a: i32, b: i32, threshold: i32) -> bool {
    a - b < threshold && b - a < threshold
}

/// Nonnegative pulses, as timers count them.
pub open spec fn nonnegative_pulses(s: Seq<PulseDuration>) -> bool {
    forall|i: int| 0 <= i < s.len() ==> (#[trigger] s[i]).0 >= 0
}

/// The read pulses from `start` on match the reference pulses, as far as both reach within
/// the compare window.
pub open spec fn window_matches(read: Seq<PulseDuration>, start: int, reference: Seq<PulseDuration>, threshold: i32) -> bool {
    forall|k: int|
        0 <= k < COMPARE_WINDOW_SIZE && k < reference.len() && start + k < read.len() ==> similar_spec(
            #[trigger] reference[k].0,
            read[start + k].0,
            threshold,
        )
}

/// The first offset at which the read back pulses match the reference, searched while a
/// whole compare window of them is left.
pub open spec fn first_match_from(read: Seq<PulseDuration>, reference: Seq<PulseDuration>, threshold: i32, i: nat) -> Result<usize, RawTrackError>
    decreases READ_DATA_WINDOW_SIZE - i,
{
    if i >= READ_DATA_WINDOW_SIZE || read.len() - i < COMPARE_WINDOW_SIZE {
        Err(RawTrackError::NoCrossCorrelation)
    } else if window_matches(read, i as int, reference, threshold) {
        Ok(i as usize)
    } else {
        first_match_from(read, reference, threshold, i + 1)
    }
}

fn window_matches_at(read: &[PulseDuration], start: usize, reference: &[PulseDuration], threshold: i32) -> (r: bool)
    requires
        start + COMPARE_WINDOW_SIZE <= read@.len(),
        nonnegative_pulses(read@),
        nonnegative_pulses(reference@),
    ensures
        r == window_matches(read@, start as int, reference@, threshold),
{
    let n = read.len();
    let mut k: usize = 0;
    while k < COMPARE_WINDOW_SIZE && k < reference.len()
        invariant
            k <= COMPARE_WINDOW_SIZE,
            n == read@.len(),
            start + COMPARE_WINDOW_SIZE <= read@.len(),
            nonnegative_pulses(read@),
            nonnegative_pulses(reference@),
            forall|j: int| 0 <= j < k && j < reference@.len() ==> similar_spec(#[trigger] reference@[j].0, read@[start + j].0, threshold),
        decreases COMPARE_WINDOW_SIZE - k,
    {
        assert(start + k < n);
        let a = reference[k];
        let b = read[start + k];
        assert(a.0 >= 0 && b.0 >= 0);
        if !a.similar(&b, threshold) {
            return false;
        }
        k = k + 1;
    }
    true
}

/// Slides the reference window over the pulses read back and gives the offset of the first
/// match: the cross correlation that synchronizes the verification.
pub fn cross_correlate(read: &[PulseDuration], reference: &[PulseDuration], threshold: i32) -> (r: Result<usize, RawTrackError>)
    requires
        read@.len() == READ_DATA_WINDOW_SIZE,
        nonnegative_pulses(read@),
        nonnegative_pulses(reference@),
    ensures
        r == first_match_from(read@, reference@, threshold, 0),
{
    let mut i: usize = 0;
    while i < READ_DATA_WINDOW_SIZE
        invariant
            i <= READ_DATA_WINDOW_SIZE,
            read@.len() == READ_DATA_WINDOW_SIZE,
            nonnegative_pulses(read@),
            nonnegative_pulses(reference@),
            first_match_from(read@, reference@, threshold, 0) == first_match_from(read@, reference@, threshold, i as nat),
        decreases READ_DATA_WINDOW_SIZE - i,
    {
        if read.len() - i < COMPARE_WINDOW_SIZE {
            return Err(RawTrackError::NoCrossCorrelation);
        }
        if window_matches_at(read, i, reference, threshold) {
            return Ok(i);
        }
        i = i + 1;
    }
    Err(RawTrackError::NoCrossCorrelation)
}

/// The outcome of comparing one reference pulse with one pulse read back.
#[derive(Debug, Clone, Copy, PartialEq, Eq, Structural)]
pub enum PulseComparison {
    /// The reference is an area without flux reversals: the next reference pulse is
    /// dropped as well.
    NonFluxReversal,
    /// Too far off: the track differs from what was written.
    Mismatch,
    /// Close enough; by how much they differ.
    Match { diff: u32 },
}

pub open spec fn compare_pulse_spec(reference: i32, readback: i32, cell_size: i32, threshold: i32) -> PulseComparison {
    if reference > cell_size * 10 {
        PulseComparison::NonFluxReversal
    } else if !similar_spec(reference, readback, threshold) {
        PulseComparison::Mismatch
    } else {
        PulseComparison::Match {
            diff: (if reference >= readback {
                reference - readback
            } else {
                readback - reference
            }) as u32,
        }
    }
}

/// Compares one reference pulse with one pulse read back.
pub fn compare_pulse(reference: PulseDuration, readback: PulseDuration, cell_size: PulseDuration, threshold: i32) -> (r: PulseComparison)
    requires
        reference.0 >= 0,
        readback.0 >= 0,
        0 <= cell_size.0 <= i32::MAX / 10,
    ensures
        r == compare_pulse_spec(reference.0, readback.0, cell_size.0, threshold),
{
    if reference.0 > cell_size.0 * 10 {
        PulseComparison::NonFluxReversal
    } else if !reference.similar(&readback, threshold) {
        PulseComparison::Mismatch
    } else {
        let diff: u32 = if reference.0 >= readback.0 {
            (reference.0 - readback.0) as u32
        } else {
            (readback.0 - reference.0) as u32
        };
        PulseComparison::Match { diff }
    }
}

proof fn lemma_first_match_bounded(
    read: Seq<PulseDuration>,
    reference: Seq<PulseDuration>,
    threshold: i32,
    n: nat,
    i: nat,
)
    requires
        threshold > 0,
        i <= n < READ_DATA_WINDOW_SIZE,
        n + COMPARE_WINDOW_SIZE <= read.len(),
        forall|k: int|
            0 <= k < COMPARE_WINDOW_SIZE && k < reference.len() ==> #[trigger] read[n + k] == reference[k],
    ensures
        first_match_from(read, reference, threshold, i) matches Ok(j) && i <= j <= n,
    decreases n - i,
{
    if window_matches(read, i as int, reference, threshold) {
    } else {
        if i == n {
            assert forall|k: int|
                0 <= k < COMPARE_WINDOW_SIZE && k < reference.len() && n + k < read.len() implies similar_spec(
                #[trigger] reference[k].0,
                read[n + k].0,
                threshold,
            ) by {
                assert(read[n + k] == reference[k]);
            }
        }
        lemma_first_match_bounded(read, reference, threshold, n, i + 1);
    }
}

/// The correlation finds written pulses wherever they start in the window read back: if a
/// whole compare window of the reference appears in it at offset `n`, the verification is
/// synchronized at `n` or earlier.
pub proof fn lemma_correlation_finds_written(
    read: Seq<PulseDuration>,
    reference: Seq<PulseDuration>,
    threshold: i32,
    n: nat,
)
    requires
        threshold > 0,
        read.len() == READ_DATA_WINDOW_SIZE,
        n + COMPARE_WINDOW_SIZE <= read.len(),
        forall|k: int|
            0 <= k < COMPARE_WINDOW_SIZE && k < reference.len() ==> #[trigger] read[n + k] == reference[k],
    ensures
        first_match_from(read, reference, threshold, 0) matches Ok(j) && j <= n,
{
    lemma_first_match_bounded(read, reference, threshold, n, 0);
}

/// A pulse read back exactly as written matches with no difference, unless it stands in an
/// area without flux reversals.
pub proof fn lemma_same_pulse_matches(pulse: i32, cell_size: i32, threshold: i32)
    requires
        threshold > 0,
        pulse <= cell_size * 10,
    ensures
        compare_pulse_spec(pulse, pulse, cell_size, threshold) == (PulseComparison::Match { diff: 0 }),
{
}

/// The larger of two differences.
pub open spec fn worse(a: u32, b: u32) -> u32 {
    if a >= b {
        a
    } else {
        b
    }
}

/// Verifying from reference pulse `i` and pulse read back `j` on, with `worst` the largest
/// difference so far: each pulse read back is compared with the next reference pulse; a
/// reference pulse of an area without flux reversals is skipped together with the reference
/// pulse behind it. Once every reference pulse is used, the track is verified with the
/// largest difference found; the first pulse that is too far off fails it. `None` where the
/// pulses read back end first.
pub open spec fn verify_fold(
    reference: Seq<PulseDuration>,
    readback: Seq<PulseDuration>,
    cell_size: i32,
    threshold: i32,
    i: int,
    j: int,
    worst: u32,
) -> Option<Result<PulseDuration, RawTrackError>>
    decreases readback.len() - j,
{
    if i >= reference.len() {
        Some(Ok(PulseDuration(worst as i32)))
    } else if j < 0 || j >= readback.len() || i < 0 {
        None
    } else {
        match compare_pulse_spec(reference[i].0, readback[j].0, cell_size, threshold) {
            PulseComparison::NonFluxReversal => verify_fold(
                reference,
                readback,
                cell_size,
                threshold,
                i + 2,
                j + 1,
                worst,
            ),
            PulseComparison::Mismatch => Some(Err(RawTrackError::DataNotEqual)),
            PulseComparison::Match { diff } => verify_fold(
                reference,
                readback,
                cell_size,
                threshold,
                i + 1,
                j + 1,
                worse(worst, diff),
            ),
        }
    }
}

/// Compares the pulses read back after synchronization with the reference pulses of the
/// track, as [`verify_fold`] says: the verified result is the largest difference, or
/// `DataNotEqual` at the first pulse too far off; `None` where more pulses must be read.
pub fn verify_pulses(
    reference: &[PulseDuration],
    readback: &[PulseDuration],
    cell_size: PulseDuration,
    threshold: i32,
) -> (r: Option<Result<PulseDuration, RawTrackError>>)
    requires
        nonnegative_pulses(reference@),
        nonnegative_pulses(readback@),
        0 <= cell_size.0 <= i32::MAX / 10,
    ensures
        r == verify_fold(reference@, readback@, cell_size.0, threshold, 0, 0, 0),
{
    let mut i: usize = 0;
    let mut j: usize = 0;
    let mut worst: u32 = 0;
    while j < readback.len() && i < reference.len()
        invariant
            nonnegative_pulses(reference@),
            nonnegative_pulses(readback@),
            0 <= cell_size.0 <= i32::MAX / 10,
            j <= readback@.len(),
            i <= reference@.len(),
            verify_fold(reference@, readback@, cell_size.0, threshold, 0, 0, 0) == verify_fold(
                reference@,
                readback@,
                cell_size.0,
                threshold,
                i as int,
                j as int,
                worst,
            ),
        decreases readback@.len() - j,
    {
        let reference_pulse = reference[i];
        let readback_pulse = readback[j];
        let ghost (i0, j0, w0) = (i as int, j as int, worst);
        assert(reference_pulse.0 >= 0 && readback_pulse.0 >= 0);
        match compare_pulse(reference_pulse, readback_pulse, cell_size, threshold) {
            PulseComparison::NonFluxReversal => {
                i = if reference.len() - i >= 2 {
                    i + 2
                } else {
                    reference.len()
                };
            },
            PulseComparison::Mismatch => {
                return Some(Err(RawTrackError::DataNotEqual));
            },
            PulseComparison::Match { diff } => {
                if diff > worst {
                    worst = diff;
                }
                i = i + 1;
            },
        }
        j = j + 1;
        proof {
            assert(verify_fold(reference@, readback@, cell_size.0, threshold, i0, j0, w0)
                == verify_fold(reference@, readback@, cell_size.0, threshold, i0 + 2, j as int, worst)
                || verify_fold(reference@, readback@, cell_size.0, threshold, i0, j0, w0)
                == verify_fold(reference@, readback@, cell_size.0, threshold, i0 + 1, j as int, worst));
            if i0 + 2 > reference@.len() && i == reference@.len() {
                assert(verify_fold(reference@, readback@, cell_size.0, threshold, i0 + 2, j as int, worst)
                    == verify_fold(reference@, readback@, cell_size.0, threshold, i as int, j as int, worst));
            }
        }
    }
    if i >= reference.len() {
        Some(Ok(PulseDuration(worst as i32)))
    } else {
        None
    }
}

/// How many pulses are taken off the front of the reference before it is compared: the
/// first six, and then every pulse equal to the sixth, so that the window compared does
/// not start with repeated pulses.
pub open spec fn trimmed_count(reference: Seq<PulseDuration>, k: int) -> int
    decreases reference.len() - k,
{
    if k >= reference.len() || k < 6 || reference[k] != reference[5] {
        k
    } else {
        trimmed_count(reference, k + 1)
    }
}

/// The number of reference pulses left out of the verification at its start, as
/// [`trimmed_count`] says.
pub fn trim_reference(reference: &[PulseDuration]) -> (r: usize)
    requires
        reference@.len() >= 6,
    ensures
        r == trimmed_count(reference@, 6),
        6 <= r <= reference@.len(),
        forall|k: int| 6 <= k < r ==> #[trigger] reference@[k] == reference@[5],
        r < reference@.len() ==> reference@[r as int] != reference@[5],
{
    let mut k: usize = 6;
    while k < reference.len() && reference[k] == reference[5]
        invariant
            6 <= k <= reference@.len(),
            trimmed_count(reference@, k as int) == trimmed_count(reference@, 6),
            forall|m: int| 6 <= m < k ==> #[trigger] reference@[m] == reference@[5],
        decreases reference@.len() - k,
    {
        k = k + 1;
    }
    k
}

proof fn lemma_verify_same_from(
    pulses: Seq<PulseDuration>,
    cell_size: i32,
    threshold: i32,
    i: int,
)
    requires
        threshold > 0,
        0 <= i <= pulses.len(),
        forall|k: int| 0 <= k < pulses.len() ==> (#[trigger] pulses[k]).0 <= cell_size * 10,
    ensures
        verify_fold(pulses, pulses, cell_size, threshold, i, i, 0) == Some(
            Ok::<PulseDuration, RawTrackError>(PulseDuration(0)),
        ),
    decreases pulses.len() - i,
{
    if i < pulses.len() {
        lemma_same_pulse_matches(pulses[i].0, cell_size, threshold);
        lemma_verify_same_from(pulses, cell_size, threshold, i + 1);
    }
}

/// A track read back exactly as it was written, without areas free of flux reversals, is
/// verified with a largest difference of zero.
pub proof fn lemma_verify_same_pulses(pulses: Seq<PulseDuration>, cell_size: i32, threshold: i32)
    requires
        threshold > 0,
        forall|k: int| 0 <= k < pulses.len() ==> (#[trigger] pulses[k]).0 <= cell_size * 10,
    ensures
        verify_fold(pulses, pulses, cell_size, threshold, 0, 0, 0) == Some(
            Ok::<PulseDuration, RawTrackError>(PulseDuration(0)),
        ),
{
    lemma_verify_same_from(pulses, cell_size, threshold, 0);
}

/// A verified track never differs from the reference by the threshold or more: the largest
/// difference of a verification that succeeds is below it.
pub proof fn lemma_verified_below_threshold(
    reference: Seq<PulseDuration>,
    readback: Seq<PulseDuration>,
    cell_size: i32,
    threshold: i32,
    i: int,
    j: int,
    worst: u32,
)
    requires
        worst < threshold,
        nonnegative_pulses(reference),
        nonnegative_pulses(readback),
    ensures
        verify_fold(reference, readback, cell_size, threshold, i, j, worst) matches Some(Ok(p))
            ==> 0 <= p.0 < threshold,
    decreases readback.len() - j,
{
    if i < reference.len() && 0 <= j < readback.len() && i >= 0 {
        match compare_pulse_spec(reference[i].0, readback[j].0, cell_size, threshold) {
            PulseComparison::NonFluxReversal => {
                lemma_verified_below_threshold(reference, readback, cell_size, threshold, i + 2, j + 1, worst);
            },
            PulseComparison::Mismatch => {},
            PulseComparison::Match { diff } => {
                assert(diff < threshold);
                lemma_verified_below_threshold(
                    reference,
                    readback,
                    cell_size,
                    threshold,
                    i + 1,
                    j + 1,
                    worse(worst, diff),
                );
            },
        }
    }
}

} // verus!
