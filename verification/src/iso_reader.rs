//! How the device reads an ISO high density track for the mass storage interface: the flux
//! pulses become MFM words, and the words are taken one by one until all sectors of the
//! track were read with valid checksums.
use vstd::prelude::*;

use crate::crc::{crc16_ccitt, crc16_ccitt_false};
use crate::fluxpulse::{pulse_cells, FluxPulseToCells};
use crate::mfm::{dec_init, dec_run, MfmDecoder, MfmWord};
use crate::scsi::BLOCK_SECTORS_PER_TRACK;
use crate::track_parser::iso::{dam_prefix, idam_prefix, lemma_shift_pow2, pow2_u8};
use crate::track_parser::{sectors_view, CollectedSector};
use crate::types::{Bit, PulseDuration};

verus! {

/// The cell duration of a high density disk, in timer ticks.
pub const HD_CELL_DURATION: i32 = 84;

/// The words after a new sector header within which its data block is taken.
pub const DATA_WINDOW: u32 = 43;

/// The pulses recorded first, which are too long, and skipped.
pub const SKIPPED_PULSES: usize = 3;

/// What the reader does with the next word.
#[derive(Clone, Copy, Debug, PartialEq, Eq, Structural)]
pub enum ReaderPhase {
    /// Looking for a sync word.
    Scan,
    /// After a sync word: the next word is the address mark.
    Mark,
    /// Reading the six words of a sector header; `taken` were read.
    Header { taken: usize },
    /// Reading a data block and its checksum; `remaining` words are left.
    Data { remaining: usize },
}

/// What a word made of the reading.
#[derive(Clone, Copy, Debug, PartialEq, Eq, Structural)]
pub enum ReaderEvent {
    /// More words are needed.
    Continue,
    /// All sectors of the track were read.
    Complete,
    /// A valid sector header names another cylinder or head.
    WrongTrack,
    /// A header is too short to use, its size code is not that of 512 byte sectors, or a
    /// data block holds a sync word.
    Corrupt,
}

/// The reader as values.
pub struct ReaderView {
    pub phase: ReaderPhase,
    pub awaiting: u32,
    pub header: Seq<u8>,
    pub data: Seq<u8>,
    pub collected: Seq<(u32, Seq<u8>)>,
}

pub open spec fn reader_init() -> ReaderView {
    ReaderView {
        phase: ReaderPhase::Scan,
        awaiting: 0,
        header: Seq::empty(),
        data: Seq::empty(),
        collected: Seq::empty(),
    }
}

/// Some collected sector has the number `index`.
pub open spec fn has_index(c: Seq<(u32, Seq<u8>)>, index: u32) -> bool {
    exists|i: int| 0 <= i < c.len() && (#[trigger] c[i]).0 == index
}

/// The size of a sector with size code `code`.
pub open spec fn sector_size(code: u8) -> int {
    128 * pow2_u8(code)
}

/// A complete header with a valid checksum must name this track and a sector number of 1
/// or more; a data block is then awaited, unless that sector was collected already.
pub open spec fn header_done(cylinder: u32, head: u32, v: ReaderView) -> (ReaderView, ReaderEvent) {
    let h = v.header;
    if crc16_ccitt_false(idam_prefix() + h) != 0 {
        (v, ReaderEvent::Continue)
    } else if h.len() == 0 {
        (v, ReaderEvent::Corrupt)
    } else if h[0] as u32 != cylinder {
        (v, ReaderEvent::WrongTrack)
    } else if h.len() == 1 {
        (v, ReaderEvent::Corrupt)
    } else if h[1] as u32 != head {
        (v, ReaderEvent::WrongTrack)
    } else if h.len() == 2 || h[2] == 0 {
        (v, ReaderEvent::Corrupt)
    } else if has_index(v.collected, (h[2] - 1) as u32) {
        (v, ReaderEvent::Continue)
    } else {
        (ReaderView { awaiting: DATA_WINDOW, ..v }, ReaderEvent::Continue)
    }
}

/// A complete data block with a valid checksum is collected as sector `number - 1`, cut to
/// 512 bytes; the track is complete with 18 sectors.
pub open spec fn data_done(v: ReaderView) -> (ReaderView, ReaderEvent) {
    if crc16_ccitt_false(dam_prefix() + v.data) != 0 {
        (v, ReaderEvent::Continue)
    } else if v.header[3] != 2 || v.header[2] == 0 {
        (v, ReaderEvent::Corrupt)
    } else {
        let c = v.collected.push(((v.header[2] - 1) as u32, v.data.take(512)));
        let v2 = ReaderView { collected: c, ..v };
        if c.len() == BLOCK_SECTORS_PER_TRACK {
            (v2, ReaderEvent::Complete)
        } else {
            (v2, ReaderEvent::Continue)
        }
    }
}

/// One word. Words outside of marks, headers and data count down the window in which a
/// data block is taken; a sync word is followed by an address mark: `0xfe` starts six
/// header bytes, `0xfb` within the window starts `128 << size` data bytes and their
/// checksum.
pub open spec fn reader_step(cylinder: u32, head: u32, v: ReaderView, w: MfmWord) -> (ReaderView, ReaderEvent) {
    match v.phase {
        ReaderPhase::Scan => {
            let a = if v.awaiting > 0 {
                (v.awaiting - 1) as u32
            } else {
                0u32
            };
            let p = if w is SyncWord {
                ReaderPhase::Mark
            } else {
                ReaderPhase::Scan
            };
            (ReaderView { phase: p, awaiting: a, ..v }, ReaderEvent::Continue)
        },
        ReaderPhase::Mark => match w {
            MfmWord::Enc(m) => if m == 0xfeu8 {
                (
                    ReaderView { phase: ReaderPhase::Header { taken: 0 }, header: Seq::empty(), ..v },
                    ReaderEvent::Continue,
                )
            } else if m == 0xfbu8 && v.awaiting > 0 {
                if v.header.len() < 4 || v.header[3] > 15 {
                    (ReaderView { phase: ReaderPhase::Scan, ..v }, ReaderEvent::Corrupt)
                } else {
                    (
                        ReaderView {
                            phase: ReaderPhase::Data { remaining: (sector_size(v.header[3]) + 2) as usize },
                            data: Seq::empty(),
                            ..v
                        },
                        ReaderEvent::Continue,
                    )
                }
            } else {
                (ReaderView { phase: ReaderPhase::Scan, ..v }, ReaderEvent::Continue)
            },
            MfmWord::SyncWord => (ReaderView { phase: ReaderPhase::Scan, ..v }, ReaderEvent::Continue),
        },
        ReaderPhase::Header { taken } => {
            let h = match w {
                MfmWord::Enc(b) => v.header.push(b),
                MfmWord::SyncWord => v.header,
            };
            if taken + 1 < 6 {
                (
                    ReaderView { phase: ReaderPhase::Header { taken: (taken + 1) as usize }, header: h, ..v },
                    ReaderEvent::Continue,
                )
            } else {
                header_done(cylinder, head, ReaderView { phase: ReaderPhase::Scan, header: h, ..v })
            }
        },
        ReaderPhase::Data { remaining } => match w {
            MfmWord::SyncWord => (ReaderView { phase: ReaderPhase::Scan, ..v }, ReaderEvent::Corrupt),
            MfmWord::Enc(b) => {
                let d = v.data.push(b);
                if remaining > 1 {
                    (
                        ReaderView { phase: ReaderPhase::Data { remaining: (remaining - 1) as usize }, data: d, ..v },
                        ReaderEvent::Continue,
                    )
                } else {
                    data_done(ReaderView { phase: ReaderPhase::Scan, data: d, ..v })
                }
            },
        },
    }
}

/// The words taken in order until one ends the reading.
pub open spec fn reader_run(cylinder: u32, head: u32, v: ReaderView, words: Seq<MfmWord>) -> (ReaderView, ReaderEvent)
    decreases words.len(),
{
    if words.len() == 0 {
        (v, ReaderEvent::Continue)
    } else {
        let (v2, e) = reader_step(cylinder, head, v, words[0]);
        if e != ReaderEvent::Continue {
            (v2, e)
        } else {
            reader_run(cylinder, head, v2, words.drop_first())
        }
    }
}

/// Reads the sectors of one track from its MFM words.
pub struct IsoTrackReader {
    pub cylinder: u32,
    pub head: u32,
    pub phase: ReaderPhase,
    pub awaiting: u32,
    pub header: Vec<u8>,
    pub data: Vec<u8>,
    pub collected: Vec<CollectedSector>,
}

fn prefixed(prefix: [u8; 4], bytes: &Vec<u8>) -> (r: Vec<u8>)
    ensures
        r@ == prefix@ + bytes@,
{
    let mut r: Vec<u8> = Vec::new();
    r.push(prefix[0]);
    r.push(prefix[1]);
    r.push(prefix[2]);
    r.push(prefix[3]);
    let mut i: usize = 0;
    while i < bytes.len()
        invariant
            i <= bytes@.len(),
            r@ == prefix@ + bytes@.take(i as int),
        decreases bytes@.len() - i,
    {
        r.push(bytes[i]);
        i = i + 1;
        assert(r@ =~= prefix@ + bytes@.take(i as int));
    }
    assert(bytes@.take(bytes@.len() as int) =~= bytes@);
    r
}

impl IsoTrackReader {
    pub open spec fn view(&self) -> ReaderView {
        ReaderView {
            phase: self.phase,
            awaiting: self.awaiting,
            header: self.header@,
            data: self.data@,
            collected: sectors_view(self.collected@),
        }
    }

    /// Header words are counted up to six; a data block follows a header with a size code of
    /// at most 15.
    pub open spec fn wf(&self) -> bool {
        &&& (self.phase matches ReaderPhase::Header { taken } ==> taken < 6)
        &&& (self.phase matches ReaderPhase::Data { remaining } ==> remaining >= 1
            && self.header@.len() >= 4 && self.header@[3] <= 15 && self.data@.len() + remaining
            == sector_size(self.header@[3]) + 2)
    }

    pub fn new(cylinder: u32, head: u32) -> (r: Self)
        ensures
            r.wf(),
            r.cylinder == cylinder,
            r.head == head,
            r.view() == reader_init(),
    {
        let r = IsoTrackReader {
            cylinder,
            head,
            phase: ReaderPhase::Scan,
            awaiting: 0,
            header: Vec::new(),
            data: Vec::new(),
            collected: Vec::new(),
        };
        assert(sectors_view(r.collected@) =~= Seq::<(u32, Seq<u8>)>::empty());
        r
    }

    fn collected_has(&self, index: u32) -> (r: bool)
        ensures
            r == has_index(sectors_view(self.collected@), index),
    {
        let mut i: usize = 0;
        while i < self.collected.len()
            invariant
                i <= self.collected@.len(),
                forall|k: int| 0 <= k < i ==> (#[trigger] self.collected@[k]).index != index,
            decreases self.collected@.len() - i,
        {
            if self.collected[i].index == index {
                assert(sectors_view(self.collected@)[i as int].0 == index);
                return true;
            }
            i = i + 1;
        }
        proof {
            assert forall|k: int| 0 <= k < sectors_view(self.collected@).len() implies (
            #[trigger] sectors_view(self.collected@)[k]).0 != index by {
                assert(self.collected@[k].index != index);
            }
        }
        false
    }

    fn finish_header(&mut self) -> (e: ReaderEvent)
        requires
            old(self).wf(),
            old(self).phase == ReaderPhase::Scan,
        ensures
            final(self).wf(),
            final(self).cylinder == old(self).cylinder,
            final(self).head == old(self).head,
            (final(self).view(), e) == header_done(old(self).cylinder, old(self).head, old(self).view()),
    {
        let msg = prefixed([0xa1u8, 0xa1, 0xa1, 0xfe], &self.header);
        assert(msg@ == idam_prefix() + self.header@) by {
            assert([0xa1u8, 0xa1, 0xa1, 0xfe]@ =~= idam_prefix());
        }
        if crc16_ccitt(msg.as_slice()) != 0 {
            return ReaderEvent::Continue;
        }
        let h = &self.header;
        if h.len() == 0 {
            ReaderEvent::Corrupt
        } else if h[0] as u32 != self.cylinder {
            ReaderEvent::WrongTrack
        } else if h.len() == 1 {
            ReaderEvent::Corrupt
        } else if h[1] as u32 != self.head {
            ReaderEvent::WrongTrack
        } else if h.len() == 2 || h[2] == 0 {
            ReaderEvent::Corrupt
        } else {
            let index = (h[2] - 1) as u32;
            if self.collected_has(index) {
                ReaderEvent::Continue
            } else {
                self.awaiting = DATA_WINDOW;
                ReaderEvent::Continue
            }
        }
    }

    fn finish_data(&mut self) -> (e: ReaderEvent)
        requires
            old(self).wf(),
            old(self).phase == ReaderPhase::Scan,
            old(self).header@.len() >= 4,
            old(self).header@[3] <= 15,
            old(self).data@.len() == sector_size(old(self).header@[3]) + 2,
        ensures
            final(self).wf(),
            final(self).cylinder == old(self).cylinder,
            final(self).head == old(self).head,
            (final(self).view(), e) == data_done(old(self).view()),
    {
        let msg = prefixed([0xa1u8, 0xa1, 0xa1, 0xfb], &self.data);
        assert(msg@ == dam_prefix() + self.data@) by {
            assert([0xa1u8, 0xa1, 0xa1, 0xfb]@ =~= dam_prefix());
        }
        if crc16_ccitt(msg.as_slice()) != 0 {
            return ReaderEvent::Continue;
        }
        if self.header[3] != 2 || self.header[2] == 0 {
            return ReaderEvent::Corrupt;
        }
        let index = (self.header[2] - 1) as u32;
        assert(sector_size(2) == 512) by {
            reveal_with_fuel(pow2_u8, 3);
        }
        let mut payload: Vec<u8> = Vec::new();
        let n: usize = if self.data.len() < 512 { self.data.len() } else { 512 };
        let mut i: usize = 0;
        while i < n
            invariant
                i <= n <= self.data@.len(),
                n <= 512,
                payload@ == self.data@.take(i as int),
            decreases n - i,
        {
            payload.push(self.data[i]);
            i = i + 1;
            assert(payload@ =~= self.data@.take(i as int));
        }
        let ghost old_collected = sectors_view(self.collected@);
        self.collected.push(CollectedSector { index, payload });
        assert(sectors_view(self.collected@) =~= old_collected.push((index, self.data@.take(512))));
        if self.collected.len() == 18 {
            ReaderEvent::Complete
        } else {
            ReaderEvent::Continue
        }
    }

    /// Takes the next word of the track.
    pub fn feed(&mut self, w: MfmWord) -> (e: ReaderEvent)
        requires
            old(self).wf(),
        ensures
            final(self).wf(),
            final(self).cylinder == old(self).cylinder,
            final(self).head == old(self).head,
            (final(self).view(), e) == reader_step(old(self).cylinder, old(self).head, old(self).view(), w),
    {
        match self.phase {
            ReaderPhase::Scan => {
                if self.awaiting > 0 {
                    self.awaiting = self.awaiting - 1;
                }
                if let MfmWord::SyncWord = w {
                    self.phase = ReaderPhase::Mark;
                }
                ReaderEvent::Continue
            },
            ReaderPhase::Mark => {
                self.phase = ReaderPhase::Scan;
                match w {
                    MfmWord::Enc(m) => {
                        if m == 0xfe {
                            self.phase = ReaderPhase::Header { taken: 0 };
                            self.header = Vec::new();
                            ReaderEvent::Continue
                        } else if m == 0xfb && self.awaiting > 0 {
                            if self.header.len() < 4 || self.header[3] > 15 {
                                ReaderEvent::Corrupt
                            } else {
                                let code = self.header[3];
                                proof {
                                    lemma_shift_pow2(code);
                                }
                                let size: usize = 128usize << code;
                                self.phase = ReaderPhase::Data { remaining: size + 2 };
                                self.data = Vec::new();
                                assert(self.data@ =~= Seq::<u8>::empty());
                                ReaderEvent::Continue
                            }
                        } else {
                            ReaderEvent::Continue
                        }
                    },
                    MfmWord::SyncWord => ReaderEvent::Continue,
                }
            },
            ReaderPhase::Header { taken } => {
                if let MfmWord::Enc(b) = w {
                    self.header.push(b);
                }
                if taken + 1 < 6 {
                    self.phase = ReaderPhase::Header { taken: taken + 1 };
                    ReaderEvent::Continue
                } else {
                    self.phase = ReaderPhase::Scan;
                    self.finish_header()
                }
            },
            ReaderPhase::Data { remaining } => {
                match w {
                    MfmWord::SyncWord => {
                        self.phase = ReaderPhase::Scan;
                        ReaderEvent::Corrupt
                    },
                    MfmWord::Enc(b) => {
                        self.data.push(b);
                        if remaining > 1 {
                            self.phase = ReaderPhase::Data { remaining: remaining - 1 };
                            ReaderEvent::Continue
                        } else {
                            self.phase = ReaderPhase::Scan;
                            self.finish_data()
                        }
                    },
                }
            },
        }
    }
}

/// How reading a track ended.
pub enum IsoTrackOutcome {
    /// All sectors, in the order they were read.
    Complete(Vec<CollectedSector>),
    /// The pulses ended before all sectors were read.
    Incomplete,
    WrongTrack,
    Corrupt,
}

/// The event that an outcome stands for.
pub open spec fn outcome_event(o: IsoTrackOutcome) -> ReaderEvent {
    match o {
        IsoTrackOutcome::Complete(_) => ReaderEvent::Complete,
        IsoTrackOutcome::Incomplete => ReaderEvent::Continue,
        IsoTrackOutcome::WrongTrack => ReaderEvent::WrongTrack,
        IsoTrackOutcome::Corrupt => ReaderEvent::Corrupt,
    }
}

/// Reads the sectors of track `cylinder`/`head` from its words.
pub fn read_iso_sectors(words: &[MfmWord], cylinder: u32, head: u32) -> (r: IsoTrackOutcome)
    ensures
        outcome_event(r) == reader_run(cylinder, head, reader_init(), words@).1,
        r matches IsoTrackOutcome::Complete(s) ==> sectors_view(s@) == reader_run(
            cylinder,
            head,
            reader_init(),
            words@,
        ).0.collected,
{
    let mut reader = IsoTrackReader::new(cylinder, head);
    let mut i: usize = 0;
    assert(words@.skip(0) =~= words@);
    while i < words.len()
        invariant
            i <= words@.len(),
            reader.wf(),
            reader.cylinder == cylinder,
            reader.head == head,
            reader_run(cylinder, head, reader_init(), words@) == reader_run(
                cylinder,
                head,
                reader.view(),
                words@.skip(i as int),
            ),
        decreases words@.len() - i,
    {
        let ghost rest = words@.skip(i as int);
        assert(rest[0] == words@[i as int]);
        assert(rest.drop_first() =~= words@.skip(i + 1));
        let e = reader.feed(words[i]);
        match e {
            ReaderEvent::Continue => {},
            ReaderEvent::Complete => {
                return IsoTrackOutcome::Complete(reader.collected);
            },
            ReaderEvent::WrongTrack => {
                return IsoTrackOutcome::WrongTrack;
            },
            ReaderEvent::Corrupt => {
                return IsoTrackOutcome::Corrupt;
            },
        }
        i = i + 1;
    }
    assert(words@.skip(i as int) =~= Seq::<MfmWord>::empty());
    IsoTrackOutcome::Incomplete
}

/// The cells of a sequence of recorded pulses, the pulses taken as signed durations.
pub open spec fn pulse_list_cells(pulses: Seq<u32>, cd: int) -> Seq<Bit>
    decreases pulses.len(),
{
    if pulses.len() == 0 {
        Seq::empty()
    } else {
        pulse_list_cells(pulses.drop_last(), cd) + pulse_cells((pulses.last() as i32) as int, cd)
    }
}

/// The MFM words of recorded pulses with cell duration `cell_duration`.
pub fn decode_pulses(pulses: &[u32], cell_duration: i32) -> (r: Vec<MfmWord>)
    requires
        0 < cell_duration <= 0x1000_0000,
    ensures
        r@ == dec_run(dec_init(), pulse_list_cells(pulses@, cell_duration as int)).1,
{
    let mut words: Vec<MfmWord> = Vec::new();
    let mut dec = MfmDecoder::new();
    let mut parser = FluxPulseToCells::new(cell_duration);
    let mut i: usize = 0;
    while i < pulses.len()
        invariant
            i <= pulses@.len(),
            0 < cell_duration <= 0x1000_0000,
            parser.cell_duration == cell_duration,
            dec.wf(),
            dec.state() == dec_run(dec_init(), pulse_list_cells(pulses@.take(i as int), cell_duration as int)).0,
            words@ == dec_run(dec_init(), pulse_list_cells(pulses@.take(i as int), cell_duration as int)).1,
        decreases pulses@.len() - i,
    {
        let mut cells: Vec<Bit> = Vec::new();
        parser.feed(PulseDuration(pulses[i] as i32), &mut cells);
        assert(cells@ =~= pulse_cells((pulses@[i as int] as i32) as int, cell_duration as int));
        let ghost before = pulse_list_cells(pulses@.take(i as int), cell_duration as int);
        let mut j: usize = 0;
        while j < cells.len()
            invariant
                j <= cells@.len(),
                dec.wf(),
                dec.state() == dec_run(dec_init(), before + cells@.take(j as int)).0,
                words@ == dec_run(dec_init(), before + cells@.take(j as int)).1,
            decreases cells@.len() - j,
        {
            assert((before + cells@.take(j + 1)).drop_last() == before + cells@.take(j as int));
            dec.feed(cells[j], &mut words);
            j = j + 1;
        }
        assert(pulses@.take(i + 1).drop_last() == pulses@.take(i as int));
        assert(before + cells@.take(j as int) == pulse_list_cells(pulses@.take(i + 1), cell_duration as int));
        i = i + 1;
    }
    assert(pulses@.take(i as int) == pulses@);
    words
}

/// The words of a track recorded on a high density disk, without the first pulses.
pub open spec fn recorded_words(pulses: Seq<u32>) -> Seq<MfmWord> {
    dec_run(dec_init(), pulse_list_cells(pulses.skip(SKIPPED_PULSES as int), HD_CELL_DURATION as int)).1
}

/// Reads track `cylinder`/`head` from the pulses recorded from it: the first pulses are
/// skipped, the rest decoded as MFM with the high density cell duration.
pub fn read_iso_track(pulses: &[u32], cylinder: u32, head: u32) -> (r: IsoTrackOutcome)
    ensures
        pulses@.len() < SKIPPED_PULSES ==> r is Incomplete,
        pulses@.len() >= SKIPPED_PULSES ==> {
            let (v, e) = reader_run(cylinder, head, reader_init(), recorded_words(pulses@));
            &&& outcome_event(r) == e
            &&& (r matches IsoTrackOutcome::Complete(s) ==> sectors_view(s@) == v.collected)
        },
{
    if pulses.len() < SKIPPED_PULSES {
        return IsoTrackOutcome::Incomplete;
    }
    let rest = slice_from(pulses, SKIPPED_PULSES);
    let words = decode_pulses(rest.as_slice(), HD_CELL_DURATION);
    read_iso_sectors(words.as_slice(), cylinder, head)
}

fn slice_from(s: &[u32], k: usize) -> (r: Vec<u32>)
    requires
        k <= s@.len(),
    ensures
        r@ == s@.skip(k as int),
{
    let mut r: Vec<u32> = Vec::new();
    let mut i: usize = k;
    while i < s.len()
        invariant
            k <= i <= s@.len(),
            r@ == s@.subrange(k as int, i as int),
        decreases s@.len() - i,
    {
        r.push(s[i]);
        i = i + 1;
        assert(r@ =~= s@.subrange(k as int, i as int));
    }
    assert(s@.subrange(k as int, s@.len() as int) =~= s@.skip(k as int));
    r
}

} // verus!
