//! The decisions of the host tool around the USB transfers: which drive, which tracks to
//! read, which reader to use, and how the answers of the device move a write session on.
use vstd::prelude::*;
use vstd::string::StringSliceAdditionalSpecFns;

use crate::bytes::same_bytes;
use crate::rawtrack::{RawTrack, TrackFilter};
use crate::types::DriveSelectState;
use crate::usb_answer::UsbAnswer;

verus! {

/// Why no drive could be chosen from the two drive flags.
#[derive(Clone, Copy, Debug, PartialEq, Eq, Structural)]
pub enum DriveChoiceError {
    /// Both drives were asked for.
    Both,
    /// No drive was asked for.
    Neither,
}

/// The drive that the flags `a` and `b` ask for; exactly one of them must be set.
pub fn choose_drive(a: bool, b: bool) -> (r: Result<DriveSelectState, DriveChoiceError>)
    ensures
        a && b ==> r == Err::<DriveSelectState, DriveChoiceError>(DriveChoiceError::Both),
        a && !b ==> r == Ok::<DriveSelectState, DriveChoiceError>(DriveSelectState::A),
        !a && b ==> r == Ok::<DriveSelectState, DriveChoiceError>(DriveSelectState::B),
        !a && !b ==> r == Err::<DriveSelectState, DriveChoiceError>(DriveChoiceError::Neither),
{
    if a && b {
        Err(DriveChoiceError::Both)
    } else if a {
        Ok(DriveSelectState::A)
    } else if b {
        Ok(DriveSelectState::B)
    } else {
        Err(DriveChoiceError::Neither)
    }
}

/// The period of the simulated index signal for flipped 5.25" disks, in timer ticks: one
/// revolution of 14 ms, less the offset `flippy` in microseconds; 0 switches it off.
pub fn index_sim_frequency(flippy: Option<u32>) -> (r: u32)
    requires
        flippy matches Some(f) ==> f <= 14000,
    ensures
        r == match flippy {
            Some(f) => (14000 - f) * 1000,
            None => 0,
        },
{
    match flippy {
        Some(f) => (14 * 1000 - f) * 1000,
        None => 0,
    }
}

/// The disk formats that tracks can be read back as.
#[derive(Clone, Copy, Debug, PartialEq, Eq, Structural)]
pub enum ImageFormat {
    /// Amiga double density, `.adf`.
    Amiga,
    /// Commodore 1541, `.d64`.
    C64,
    /// ISO double density, `.st`.
    IsoDouble,
    /// ISO high density, `.img`.
    IsoHigh,
}

/// The format that a file extension names.
pub open spec fn format_of_extension(ext: Seq<u8>) -> Option<ImageFormat> {
    if ext == seq![0x61u8, 0x64u8, 0x66u8] {
        Some(ImageFormat::Amiga)
    } else if ext == seq![0x64u8, 0x36u8, 0x34u8] {
        Some(ImageFormat::C64)
    } else if ext == seq![0x73u8, 0x74u8] {
        Some(ImageFormat::IsoDouble)
    } else if ext == seq![0x69u8, 0x6du8, 0x67u8] {
        Some(ImageFormat::IsoHigh)
    } else {
        None
    }
}

/// The format of an image file by its extension: `adf`, `d64`, `st` or `img`.
pub fn format_for_extension(ext: &str) -> (r: Option<ImageFormat>)
    ensures
        r == format_of_extension(ext.spec_bytes()),
{
    let e = ext.as_bytes();
    let adf: Vec<u8> = vec![0x61u8, 0x64u8, 0x66u8];
    let d64: Vec<u8> = vec![0x64u8, 0x36u8, 0x34u8];
    let st: Vec<u8> = vec![0x73u8, 0x74u8];
    let img: Vec<u8> = vec![0x69u8, 0x6du8, 0x67u8];
    assert(adf@ =~= seq![0x61u8, 0x64u8, 0x66u8]);
    assert(d64@ =~= seq![0x64u8, 0x36u8, 0x34u8]);
    assert(st@ =~= seq![0x73u8, 0x74u8]);
    assert(img@ =~= seq![0x69u8, 0x6du8, 0x67u8]);
    if same_bytes(e, adf.as_slice()) {
        Some(ImageFormat::Amiga)
    } else if same_bytes(e, d64.as_slice()) {
        Some(ImageFormat::C64)
    } else if same_bytes(e, st.as_slice()) {
        Some(ImageFormat::IsoDouble)
    } else if same_bytes(e, img.as_slice()) {
        Some(ImageFormat::IsoHigh)
    } else {
        None
    }
}

/// The formats that the first track of an unknown disk is tried as, in this order; the
/// last one that reads the track wins.
pub fn discovery_formats() -> (r: Vec<ImageFormat>)
    ensures
        r@ == seq![ImageFormat::Amiga, ImageFormat::C64, ImageFormat::IsoDouble, ImageFormat::IsoHigh],
{
    let r = vec![ImageFormat::Amiga, ImageFormat::C64, ImageFormat::IsoDouble, ImageFormat::IsoHigh];
    assert(r@ =~= seq![ImageFormat::Amiga, ImageFormat::C64, ImageFormat::IsoDouble, ImageFormat::IsoHigh]);
    r
}

/// How many times a track is read before reading the disk is given up.
pub const READ_ATTEMPTS: usize = 5;

/// The cylinders `cylinder_begin..cylinder_end` and heads `head_begin..head_end` to read.
#[derive(Clone, Copy, Debug, PartialEq, Eq, Structural)]
pub struct ReadPlan {
    pub cylinder_begin: u32,
    pub cylinder_end: u32,
    pub head_begin: u32,
    pub head_end: u32,
}

/// Why a track filter gives no tracks to read.
#[derive(Clone, Copy, Debug, PartialEq, Eq, Structural)]
pub enum ReadPlanError {
    /// The last cylinder to read is not given.
    NoLastCylinder,
    /// The head is neither 0 nor 1.
    BadHead,
}

/// The plan that a filter gives: a range of cylinders is read with its last cylinder
/// included, from cylinder 0 where it has no first one; a single number `c` reads the first
/// `c` cylinders, `0..c`. A head of 0 or 1 is read alone, and both heads without one.
pub open spec fn read_plan_spec(filter: TrackFilter) -> Result<ReadPlan, ReadPlanError> {
    match filter.cyl_end {
        None => Err(ReadPlanError::NoLastCylinder),
        Some(e) => {
            let b = match filter.cyl_start {
                Some(s) => s,
                None => 0u32,
            };
            let (cb, ce) = if filter.is_range {
                (b, (e + 1) as u32)
            } else {
                (0u32, e)
            };
            match filter.head {
                Some(h) => if h == 0 {
                    Ok(ReadPlan { cylinder_begin: cb, cylinder_end: ce, head_begin: 0, head_end: 1 })
                } else if h == 1 {
                    Ok(ReadPlan { cylinder_begin: cb, cylinder_end: ce, head_begin: 1, head_end: 2 })
                } else {
                    Err(ReadPlanError::BadHead)
                },
                None => Ok(
                    ReadPlan { cylinder_begin: cb, cylinder_end: ce, head_begin: 0, head_end: 2 },
                ),
            }
        },
    }
}

/// The cylinders and heads that reading a disk with `filter` covers.
pub fn read_plan(filter: &TrackFilter) -> (r: Result<ReadPlan, ReadPlanError>)
    requires
        filter.cyl_end matches Some(e) ==> (filter.is_range ==> e < u32::MAX),
    ensures
        r == read_plan_spec(*filter),
{
    let e = match filter.cyl_end {
        None => {
            return Err(ReadPlanError::NoLastCylinder);
        },
        Some(e) => e,
    };
    let b = match filter.cyl_start {
        Some(s) => s,
        None => 0,
    };
    let (cb, ce) = if filter.is_range {
        (b, e + 1)
    } else {
        (0u32, e)
    };
    match filter.head {
        Some(h) => if h == 0 {
            Ok(ReadPlan { cylinder_begin: cb, cylinder_end: ce, head_begin: 0, head_end: 1 })
        } else if h == 1 {
            Ok(ReadPlan { cylinder_begin: cb, cylinder_end: ce, head_begin: 1, head_end: 2 })
        } else {
            Err(ReadPlanError::BadHead)
        },
        None => Ok(ReadPlan { cylinder_begin: cb, cylinder_end: ce, head_begin: 0, head_end: 2 }),
    }
}

/// A track of the plan: its cylinder is one of `cylinder_begin`, `cylinder_begin + step`,
/// ... below `cylinder_end`, and its head lies in `head_begin..head_end`.
pub open spec fn planned(plan: ReadPlan, step: u32, cylinder: int, head: int) -> bool {
    &&& plan.cylinder_begin <= cylinder < plan.cylinder_end
    &&& (cylinder - plan.cylinder_begin) % (step as int) == 0
    &&& plan.head_begin <= head < plan.head_end
}

/// Track `(c1, h1)` comes before track `(c2, h2)`: cylinder by cylinder, head by head.
pub open spec fn track_before(c1: int, h1: int, c2: int, h2: int) -> bool {
    c1 < c2 || (c1 == c2 && h1 < h2)
}

/// Where reading a disk into an image stands: the track being read and how many recordings
/// of it could not be parsed.
#[derive(Clone, Copy, Debug, PartialEq, Eq, Structural)]
pub struct ReadSession {
    pub plan: ReadPlan,
    /// The distance between two cylinders read.
    pub step: u32,
    pub cylinder: u32,
    pub head: u32,
    pub failed_reads: usize,
    /// All planned tracks were read.
    pub finished: bool,
}

/// What the reader does with a recording of the current track.
#[derive(Clone, Copy, Debug, PartialEq, Eq, Structural)]
pub enum ReadStep {
    /// The track was read: its payload goes to the image, and the next track is read.
    Store,
    /// The recording could not be parsed: the track is recorded again.
    Retry,
    /// The parser gave another track than the one read.
    WrongTrack,
    /// `READ_ATTEMPTS` recordings of the track could not be parsed.
    GiveUp,
}

impl ReadSession {
    /// The current track is a planned one, and no more recordings failed than are allowed.
    pub open spec fn wf(self) -> bool {
        &&& self.step >= 1
        &&& self.failed_reads < READ_ATTEMPTS
        &&& !self.finished ==> planned(self.plan, self.step, self.cylinder as int, self.head as int)
    }
}

/// The track after the current one: the next head of the cylinder, else the first head of
/// the next planned cylinder, else the end of the plan.
pub open spec fn advance_spec(s: ReadSession) -> ReadSession {
    if s.head + 1 < s.plan.head_end {
        ReadSession { head: (s.head + 1) as u32, failed_reads: 0, ..s }
    } else if s.plan.cylinder_end - s.cylinder > s.step {
        ReadSession {
            cylinder: (s.cylinder + s.step) as u32,
            head: s.plan.head_begin,
            failed_reads: 0,
            ..s
        }
    } else {
        ReadSession { finished: true, failed_reads: 0, ..s }
    }
}

/// A recording of the current track was parsed into a track of `parsed` (cylinder and head),
/// or could not be parsed (`None`): the next state of the reader and what to do.
pub open spec fn read_step_spec(s: ReadSession, parsed: Option<(u32, u32)>) -> (ReadSession, ReadStep) {
    match parsed {
        Some((c, h)) => if c == s.cylinder && h == s.head {
            (advance_spec(s), ReadStep::Store)
        } else {
            (s, ReadStep::WrongTrack)
        },
        None => if s.failed_reads + 1 < READ_ATTEMPTS {
            (ReadSession { failed_reads: (s.failed_reads + 1) as usize, ..s }, ReadStep::Retry)
        } else {
            (s, ReadStep::GiveUp)
        },
    }
}

impl ReadSession {
    /// The reader at the first track of the plan, reading every `step`-th cylinder; finished
    /// at once where the plan holds no track.
    pub fn new(plan: ReadPlan, step: u32) -> (r: Self)
        requires
            step >= 1,
        ensures
            r.wf(),
            r.plan == plan,
            r.step == step,
            r.failed_reads == 0,
            r.finished == !(plan.cylinder_begin < plan.cylinder_end && plan.head_begin < plan.head_end),
            !r.finished ==> r.cylinder == plan.cylinder_begin && r.head == plan.head_begin,
    {
        let finished = !(plan.cylinder_begin < plan.cylinder_end && plan.head_begin < plan.head_end);
        assert(0int % (step as int) == 0) by (nonlinear_arith)
            requires
                step >= 1,
        ;
        ReadSession {
            plan,
            step,
            cylinder: plan.cylinder_begin,
            head: plan.head_begin,
            failed_reads: 0,
            finished,
        }
    }

    /// The track to read now, unless all planned tracks were read.
    pub fn current(&self) -> (r: Option<(u32, u32)>)
        ensures
            self.finished ==> r is None,
            !self.finished ==> r == Some((self.cylinder, self.head)),
    {
        if self.finished {
            None
        } else {
            Some((self.cylinder, self.head))
        }
    }

    /// Takes what parsing a recording of the current track gave, as [`read_step_spec`] says.
    pub fn on_read(&mut self, parsed: Option<(u32, u32)>) -> (r: ReadStep)
        requires
            old(self).wf(),
            !old(self).finished,
        ensures
            final(self).wf(),
            (*final(self), r) == read_step_spec(*old(self), parsed),
    {
        match parsed {
            Some((c, h)) => {
                if c == self.cylinder && h == self.head {
                    proof {
                        lemma_advance_planned(*self);
                    }
                    if self.head + 1 < self.plan.head_end {
                        self.head = self.head + 1;
                    } else if self.plan.cylinder_end - self.cylinder > self.step {
                        self.cylinder = self.cylinder + self.step;
                        self.head = self.plan.head_begin;
                    } else {
                        self.finished = true;
                    }
                    self.failed_reads = 0;
                    ReadStep::Store
                } else {
                    ReadStep::WrongTrack
                }
            },
            None => {
                if self.failed_reads + 1 < READ_ATTEMPTS {
                    self.failed_reads = self.failed_reads + 1;
                    ReadStep::Retry
                } else {
                    ReadStep::GiveUp
                }
            },
        }
    }
}

proof fn lemma_advance_planned(s: ReadSession)
    requires
        s.wf(),
        !s.finished,
    ensures
        advance_spec(s).wf(),
{
    let n = advance_spec(s);
    if !(s.head + 1 < s.plan.head_end) && s.plan.cylinder_end - s.cylinder > s.step {
        let b = s.plan.cylinder_begin as int;
        let st = s.step as int;
        let c = s.cylinder as int;
        assert((c + st - b) % st == 0) by (nonlinear_arith)
            requires
                (c - b) % st == 0,
                st >= 1,
        {
            vstd::arithmetic::div_mod::lemma_mod_add_multiples_vanish(c - b, st);
        }
    }
}

/// The reader reads the planned tracks in order, cylinder by cylinder and head by head,
/// each once: the track after the current one is the next planned track, with none planned
/// in between, and the reader finishes only where no planned track follows.
pub proof fn lemma_read_order(s: ReadSession, c: int, h: int)
    requires
        s.wf(),
        !s.finished,
        planned(s.plan, s.step, c, h),
        track_before(s.cylinder as int, s.head as int, c, h),
    ensures
        !advance_spec(s).finished,
        !track_before(c, h, advance_spec(s).cylinder as int, advance_spec(s).head as int),
        track_before(s.cylinder as int, s.head as int, advance_spec(s).cylinder as int, advance_spec(
            s,
        ).head as int),
{
    let b = s.plan.cylinder_begin as int;
    let st = s.step as int;
    let cur = s.cylinder as int;
    if s.head + 1 < s.plan.head_end {
    } else {
        // the next planned cylinder lies a whole step further
        assert(c > cur);
        assert(c >= cur + st) by (nonlinear_arith)
            requires
                (cur - b) % st == 0,
                (c - b) % st == 0,
                cur < c,
                st >= 1,
                cur >= b,
        {
            vstd::arithmetic::div_mod::lemma_fundamental_div_mod(cur - b, st);
            vstd::arithmetic::div_mod::lemma_fundamental_div_mod(c - b, st);
            let q1 = (cur - b) / st;
            let q2 = (c - b) / st;
            assert(q1 < q2) by (nonlinear_arith)
                requires
                    cur - b == st * q1,
                    c - b == st * q2,
                    cur < c,
                    st >= 1,
            ;
            assert(st * q2 >= st * q1 + st) by (nonlinear_arith)
                requires
                    q1 + 1 <= q2,
                    st >= 1,
            ;
        }
    }
}

/// How far writing and verifying the tracks of an image has come.
#[derive(Clone, Copy, Debug, PartialEq, Eq, Structural)]
pub struct WriteSession {
    /// The index of the next track to send.
    pub next_write: usize,
    /// The index of the track whose verification is awaited next.
    pub next_verify: usize,
}

/// What an answer of the device means for the write session.
#[derive(Clone, Copy, Debug, PartialEq, Eq, Structural)]
pub enum SessionStep {
    /// A track was verified and more verifications are awaited.
    Verified,
    /// The last track was verified.
    Finished,
    /// The device took the command: the next track can be sent.
    SendNext,
    /// The device verified another track than the one awaited.
    WrongTrack,
    /// The device could not write a track.
    TrackFailed,
    /// The disk is write protected.
    WriteProtected,
    /// An answer that does not belong to writing.
    Unexpected,
}

/// The session and step that `answer` leads to. A verification is checked against the
/// track awaited, when one is; the session is finished once the last track is verified.
pub open spec fn session_step(s: WriteSession, tracks: Seq<RawTrack>, answer: UsbAnswer) -> (
    WriteSession,
    SessionStep,
) {
    match answer {
        UsbAnswer::WrittenAndVerified { cylinder, head, .. } => {
            if s.next_verify < tracks.len() {
                let t = tracks[s.next_verify as int];
                if t.cylinder != cylinder || t.head != head {
                    (s, SessionStep::WrongTrack)
                } else {
                    let s2 = WriteSession { next_write: s.next_write, next_verify: (s.next_verify + 1) as usize };
                    if s.next_verify + 1 == tracks.len() {
                        (s2, SessionStep::Finished)
                    } else {
                        (s2, SessionStep::Verified)
                    }
                }
            } else {
                (s, SessionStep::Finished)
            }
        },
        UsbAnswer::Fail { .. } => (s, SessionStep::TrackFailed),
        UsbAnswer::GotCmd => (s, SessionStep::SendNext),
        UsbAnswer::WriteProtected => (s, SessionStep::WriteProtected),
        UsbAnswer::RotationTicks { .. } => (s, SessionStep::Unexpected),
    }
}

impl WriteSession {
    /// Nothing sent and nothing verified yet.
    pub fn new() -> (r: Self)
        ensures
            r.next_write == 0,
            r.next_verify == 0,
    {
        WriteSession { next_write: 0, next_verify: 0 }
    }

    /// The index of the next of `track_count` tracks to send; `None` once all were sent.
    pub fn take_next_write(&mut self, track_count: usize) -> (r: Option<usize>)
        ensures
            old(self).next_write < track_count ==> r == Some(old(self).next_write)
                && final(self).next_write == old(self).next_write + 1,
            old(self).next_write >= track_count ==> r is None && final(self).next_write
                == old(self).next_write,
            final(self).next_verify == old(self).next_verify,
    {
        if self.next_write < track_count {
            let i = self.next_write;
            self.next_write = i + 1;
            Some(i)
        } else {
            None
        }
    }

    /// Takes one answer of the device while the tracks `tracks` are written.
    pub fn on_answer(&mut self, tracks: &[RawTrack], answer: &UsbAnswer) -> (r: SessionStep)
        ensures
            (*final(self), r) == session_step(*old(self), tracks@, *answer),
    {
        match answer {
            UsbAnswer::WrittenAndVerified { cylinder, head, .. } => {
                if self.next_verify < tracks.len() {
                    let t = &tracks[self.next_verify];
                    if t.cylinder != *cylinder || t.head != *head {
                        SessionStep::WrongTrack
                    } else {
                        self.next_verify = self.next_verify + 1;
                        if self.next_verify == tracks.len() {
                            SessionStep::Finished
                        } else {
                            SessionStep::Verified
                        }
                    }
                } else {
                    SessionStep::Finished
                }
            },
            UsbAnswer::Fail { .. } => SessionStep::TrackFailed,
            UsbAnswer::GotCmd => SessionStep::SendNext,
            UsbAnswer::WriteProtected => SessionStep::WriteProtected,
            UsbAnswer::RotationTicks { .. } => SessionStep::Unexpected,
        }
    }
}

/// A session that started with nothing verified finishes only when every track was
/// verified: its count of verified tracks is then the number of tracks, unless there were
/// none to write.
pub proof fn lemma_session_finishes_after_all(s: WriteSession, tracks: Seq<RawTrack>, answer: UsbAnswer)
    requires
        s.next_verify <= tracks.len() <= usize::MAX,
        session_step(s, tracks, answer).1 == SessionStep::Finished,
    ensures
        session_step(s, tracks, answer).0.next_verify == tracks.len(),
{
}

/// No answer lets the count of verified tracks pass the number of tracks, or go back.
pub proof fn lemma_session_verify_bounded(s: WriteSession, tracks: Seq<RawTrack>, answer: UsbAnswer)
    requires
        s.next_verify <= tracks.len() <= usize::MAX,
    ensures
        s.next_verify <= session_step(s, tracks, answer).0.next_verify <= tracks.len(),
        session_step(s, tracks, answer).0.next_verify <= s.next_verify + 1,
        session_step(s, tracks, answer).0.next_write == s.next_write,
{
}

} // verus!
