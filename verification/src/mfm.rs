use vstd::prelude::*;

use crate::bitfacts::{
    lemma_mask_constants, lemma_u16_msb_walk, lemma_u32_msb_walk, lemma_u32_odd_walk,
    lemma_u32_shift_in, lemma_u32_shifted_bit, lemma_u8_msb_walk, lemma_u8_parity, lemma_u8_shift_in,
};
use crate::bitstream::{byte_cells, msb_bit};
use crate::types::Bit;

verus! {

/// A decoded MFM word: a data byte or the special sync word.
#[derive(Clone, Copy, Debug, PartialEq, Eq, Structural)]
pub enum MfmWord {
    Enc(u8),
    SyncWord,
}

/// A raw, still interleaved, 32 cell MFM word or the special sync word.
#[derive(Debug, PartialEq, Eq, Structural)]
pub enum RawMfmWord {
    Raw(u32),
    SyncWord,
}

pub const ISO_SYNC_WORD: u16 = 0x4489;

pub const ISO_SYNC_BYTE: u8 = 0xA1;

/// The clock and data cell of one data bit, given the previous data bit `last`:
/// a 1 is written as `01`, a 0 as `10` after a 0 and as `00` after a 1.
pub open spec fn mfm_pair(last: bool, data: bool) -> Seq<Bit> {
    if data {
        seq![Bit(false), Bit(true)]
    } else if last {
        seq![Bit(false), Bit(false)]
    } else {
        seq![Bit(true), Bit(false)]
    }
}

/// The data bit most recently encoded, after encoding `bits` behind `last`.
pub open spec fn mfm_last(last: bool, bits: Seq<bool>) -> bool {
    if bits.len() == 0 {
        last
    } else {
        bits.last()
    }
}

/// MFM cells of the data bits `bits`, encoded behind the data bit `last`.
pub open spec fn mfm_encode(last: bool, bits: Seq<bool>) -> Seq<Bit>
    decreases bits.len(),
{
    if bits.len() == 0 {
        Seq::empty()
    } else {
        mfm_encode(last, bits.drop_last()) + mfm_pair(mfm_last(last, bits.drop_last()), bits.last())
    }
}

/// The eight data bits of a byte, most significant bit first.
pub open spec fn byte_bits(b: u8) -> Seq<bool> {
    Seq::new(8, |i: int| msb_bit(b, i))
}

/// Bit `s` of `v`, counting from the least significant bit.
pub open spec fn bit32(v: u32, s: int) -> bool {
    ((v >> (s as u32)) & 1u32) == 1u32
}

/// The odd bits (31, 29, .., 1) of a long word, most significant first.
pub open spec fn odd_bits(v: u32) -> Seq<bool> {
    Seq::new(16, |i: int| bit32(v, 31 - 2 * i))
}

/// The even bits (30, 28, .., 0) of a long word, most significant first.
pub open spec fn even_bits(v: u32) -> Seq<bool> {
    Seq::new(16, |i: int| bit32(v, 30 - 2 * i))
}

/// The lowest `len` bits of `v` as cells, most significant first.
pub open spec fn raw_cells(v: u32, len: nat) -> Seq<Bit> {
    Seq::new(len, |i: int| Bit(bit32(v, len - 1 - i)))
}

/// The cells of the ISO sync word, `0x4489`: the MFM form of `0xA1` with one clock cell missing.
pub open spec fn sync_word_cells() -> Seq<Bit> {
    raw_cells(ISO_SYNC_WORD as u32, 16)
}

/// Cells produced by an [`MfmEncoder`] whose last data bit is `last` for the word `w`.
pub open spec fn mfm_word_cells(last: bool, w: MfmWord) -> Seq<Bit> {
    match w {
        MfmWord::Enc(x) => mfm_encode(last, byte_bits(x)),
        MfmWord::SyncWord => sync_word_cells(),
    }
}

/// The last data bit of an [`MfmEncoder`] after it has been fed `w`.
pub open spec fn mfm_word_last(last: bool, w: MfmWord) -> bool {
    match w {
        MfmWord::Enc(x) => msb_bit(x, 7),
        MfmWord::SyncWord => true,
    }
}

pub proof fn lemma_mfm_encode_push(last: bool, bits: Seq<bool>, b: bool)
    ensures
        mfm_encode(last, bits.push(b)) == mfm_encode(last, bits) + mfm_pair(mfm_last(last, bits), b),
        mfm_last(last, bits.push(b)) == b,
{
    assert(bits.push(b).drop_last() == bits);
}

/// MFM writes two cells per data bit: the second cell of each pair is the data bit, and the
/// first (clock) cell is set exactly when neither this data bit nor the previous one is set.
pub proof fn lemma_mfm_encode_cells(last: bool, bits: Seq<bool>)
    ensures
        mfm_encode(last, bits).len() == 2 * bits.len(),
        forall|i: int|
            0 <= i < bits.len() ==> #[trigger] mfm_encode(last, bits)[2 * i + 1] == Bit(bits[i]),
        forall|i: int|
            0 <= i < bits.len() ==> #[trigger] mfm_encode(last, bits)[2 * i] == Bit(
                !bits[i] && !(if i == 0 {
                    last
                } else {
                    bits[i - 1]
                }),
            ),
    decreases bits.len(),
{
    if bits.len() > 0 {
        let pre = bits.drop_last();
        lemma_mfm_encode_cells(last, pre);
        let e = mfm_encode(last, bits);
        let ep = mfm_encode(last, pre);
        assert forall|i: int| 0 <= i < bits.len() implies #[trigger] e[2 * i + 1] == Bit(bits[i]) by {
            if i < pre.len() {
                assert(e[2 * i + 1] == ep[2 * i + 1]);
            }
        }
        assert forall|i: int| 0 <= i < bits.len() implies #[trigger] e[2 * i] == Bit(
            !bits[i] && !(if i == 0 {
                last
            } else {
                bits[i - 1]
            }),
        ) by {
            if i < pre.len() {
                assert(e[2 * i] == ep[2 * i]);
            }
        }
    }
}

/// Writes data bits as MFM cells.
pub struct MfmEncoder {
    last_bit: Bit,
}

impl View for MfmEncoder {
    /// The most recently written data bit.
    type V = bool;

    closed spec fn view(&self) -> bool {
        self.last_bit.0
    }
}

impl MfmEncoder {
    pub fn new() -> (r: Self)
        ensures
            r@ == false,
    {
        Self { last_bit: Bit(false) }
    }

    /// Encodes the data bit `(val & mask) != 0`.
    fn encode_mfm_bit(&mut self, val: u32, mask: u32, sink: &mut Vec<Bit>)
        ensures
            final(sink)@ == old(sink)@ + mfm_pair(old(self)@, (val & mask) != 0),
            final(self)@ == ((val & mask) != 0),
    {
        if (val & mask) == 0 {
            if self.last_bit.0 {
                sink.push(Bit(false));
                sink.push(Bit(false));
            } else {
                sink.push(Bit(true));
                sink.push(Bit(false));
            }
            self.last_bit = Bit(false);
        } else {
            sink.push(Bit(false));
            sink.push(Bit(true));
            self.last_bit = Bit(true);
        }
    }

    /// Encodes the eight bits of `val`, most significant first.
    pub fn feed_encoded8(&mut self, val: u8, sink: &mut Vec<Bit>)
        ensures
            final(sink)@ == old(sink)@ + mfm_encode(old(self)@, byte_bits(val)),
            final(self)@ == msb_bit(val, 7),
    {
        let ghost start = sink@;
        let ghost last0 = self@;
        let mut v: u8 = val;
        let mut i: u8 = 0;
        proof {
            lemma_u8_msb_walk(val, 0);
        }
        while i < 8
            invariant
                i <= 8,
                v == val << i,
                sink@ == start + mfm_encode(last0, byte_bits(val).take(i as int)),
                self@ == mfm_last(last0, byte_bits(val).take(i as int)),
            decreases 8 - i,
        {
            let ghost prefix = byte_bits(val).take(i as int);
            proof {
                lemma_u8_msb_walk(val, i);
                lemma_mask_constants();
            }
            assert(byte_bits(val).take(i + 1) == prefix.push(msb_bit(val, i as int)));
            proof {
                lemma_mfm_encode_push(last0, prefix, msb_bit(val, i as int));
            }
            self.encode_mfm_bit(v as u32, 1 << 7, sink);
            v = v << 1;
            i = i + 1;
        }
        assert(byte_bits(val).take(8) == byte_bits(val));
    }

    /// Encodes the odd bits (31, 29, .., 1) of `val`, most significant first.
    pub fn feed_odd16_32(&mut self, val: u32, sink: &mut Vec<Bit>)
        ensures
            final(sink)@ == old(sink)@ + mfm_encode(old(self)@, odd_bits(val)),
            final(self)@ == bit32(val, 1),
    {
        let ghost start = sink@;
        let ghost last0 = self@;
        let mut v: u32 = val;
        let mut i: u32 = 0;
        proof {
            lemma_u32_odd_walk(val, 0);
        }
        while i < 16
            invariant
                i <= 16,
                v == val << (2 * i),
                sink@ == start + mfm_encode(last0, odd_bits(val).take(i as int)),
                self@ == mfm_last(last0, odd_bits(val).take(i as int)),
            decreases 16 - i,
        {
            let ghost prefix = odd_bits(val).take(i as int);
            proof {
                lemma_u32_odd_walk(val, i);
            }
            assert(odd_bits(val).take(i + 1) == prefix.push(bit32(val, 31 - 2 * i)));
            proof {
                lemma_mfm_encode_push(last0, prefix, bit32(val, 31 - 2 * i));
            }
            self.encode_mfm_bit(v, 1 << 31, sink);
            v = v << 2;
            i = i + 1;
        }
        assert(odd_bits(val).take(16) == odd_bits(val));
    }

    /// Encodes the even bits (30, 28, .., 0) of `val`, most significant first.
    pub fn feed_even16_32(&mut self, val: u32, sink: &mut Vec<Bit>)
        ensures
            final(sink)@ == old(sink)@ + mfm_encode(old(self)@, even_bits(val)),
            final(self)@ == bit32(val, 0),
    {
        let shifted = val << 1;
        assert forall|i: int| 0 <= i < 16 implies #[trigger] odd_bits(shifted)[i] == even_bits(
            val,
        )[i] by {
            let j: u32 = (30 - 2 * i) as u32;
            let j1: u32 = (31 - 2 * i) as u32;
            lemma_u32_shifted_bit(val, j, j1);
        }
        assert(odd_bits(shifted) =~= even_bits(val));
        proof {
            lemma_u32_shifted_bit(val, 0, 1);
        }
        self.feed_odd16_32(shifted, sink);
    }

    /// Writes the sixteen cells of `val` unencoded, most significant first.
    pub fn feed_raw16(&mut self, val: u16, sink: &mut Vec<Bit>)
        ensures
            final(sink)@ == old(sink)@ + raw_cells(val as u32, 16),
            final(self)@ == ((val & 1) != 0),
    {
        self.last_bit = Bit((val & 0x0001) != 0);
        let ghost start = sink@;
        let mut v: u16 = val;
        let mut i: u16 = 0;
        proof {
            lemma_u16_msb_walk(val, 0);
        }
        while i < 16
            invariant
                i <= 16,
                v == val << i,
                sink@ == start + raw_cells(val as u32, 16).take(i as int),
            decreases 16 - i,
        {
            let cell = Bit((v & 0x8000) != 0);
            proof {
                lemma_u16_msb_walk(val, i);
            }
            assert(raw_cells(val as u32, 16).take(i + 1) == raw_cells(val as u32, 16).take(
                i as int,
            ).push(cell));
            sink.push(cell);
            v = v << 1;
            i = i + 1;
        }
        assert(raw_cells(val as u32, 16).take(16) == raw_cells(val as u32, 16));
    }

    /// Writes the eight cells of `val` unencoded, most significant first.
    pub fn feed_raw8(&mut self, val: u8, sink: &mut Vec<Bit>)
        ensures
            final(sink)@ == old(sink)@ + byte_cells(val),
            final(self)@ == ((val & 1) != 0),
    {
        self.last_bit = Bit((val & 0x01) != 0);
        let ghost start = sink@;
        let mut v: u8 = val;
        let mut i: u8 = 0;
        proof {
            lemma_u8_msb_walk(val, 0);
        }
        while i < 8
            invariant
                i <= 8,
                v == val << i,
                sink@ == start + byte_cells(val).take(i as int),
            decreases 8 - i,
        {
            let cell = Bit((v & 0x80) != 0);
            proof {
                lemma_u8_msb_walk(val, i);
            }
            assert(byte_cells(val).take(i + 1) == byte_cells(val).take(i as int).push(cell));
            sink.push(cell);
            v = v << 1;
            i = i + 1;
        }
        assert(byte_cells(val).take(8) == byte_cells(val));
    }

    /// Writes the lowest `len` cells of `val` unencoded, most significant first.
    pub fn feed_raw_var(&mut self, val: u32, len: u8, sink: &mut Vec<Bit>)
        requires
            1 <= len <= 32,
        ensures
            final(sink)@ == old(sink)@ + raw_cells(val, len as nat),
            final(self)@ == ((val & 1) != 0),
    {
        self.last_bit = Bit((val & 0x01) != 0);
        let bitmask: u32 = 1 << (len - 1);
        let ghost start = sink@;
        let mut v: u32 = val;
        let mut i: u8 = 0;
        proof {
            lemma_u32_msb_walk(val, bitmask, len as u32, 0);
        }
        while i < len
            invariant
                i <= len <= 32,
                bitmask == 1u32 << ((len - 1) as u32),
                v == val << (i as u32),
                sink@ == start + raw_cells(val, len as nat).take(i as int),
            decreases len - i,
        {
            let cell = Bit((v & bitmask) != 0);
            let ghost ii: u32 = i as u32;
            let ghost l: u32 = len as u32;
            proof {
                lemma_u32_msb_walk(val, bitmask, l, ii);
            }
            assert(raw_cells(val, len as nat).take(i + 1) == raw_cells(val, len as nat).take(
                i as int,
            ).push(cell));
            sink.push(cell);
            v = v << 1;
            i = i + 1;
        }
        assert(raw_cells(val, len as nat).take(len as int) == raw_cells(val, len as nat));
    }

    /// Encodes a data byte or writes the sync word.
    pub fn feed(&mut self, inval: MfmWord, sink: &mut Vec<Bit>)
        ensures
            final(sink)@ == old(sink)@ + mfm_word_cells(old(self)@, inval),
            final(self)@ == mfm_word_last(old(self)@, inval),
    {
        match inval {
            MfmWord::Enc(x) => self.feed_encoded8(x, sink),
            MfmWord::SyncWord => {
                self.feed_raw16(ISO_SYNC_WORD, sink);
                self.last_bit = Bit(true);
            },
        }
    }
}

/// The 48 bit pattern of three sync words, `0x4489_4489_4489`.
pub open spec fn triple_sync() -> u64 {
    0x4489_4489_4489u64
}

/// Bit `s` of `v`, counting from the least significant bit.
pub open spec fn bit8(v: u8, s: int) -> bool {
    ((v >> (s as u8)) & 1u8) == 1u8
}

/// The data bits `d` read as a binary number, the first bit most significant; only the last
/// eight bits count.
pub open spec fn bits_byte(d: Seq<bool>) -> u8
    decreases d.len(),
{
    if d.len() == 0 {
        0
    } else {
        (bits_byte(d.drop_last()) << 1u8) | (if d.last() {
            1u8
        } else {
            0u8
        })
    }
}

/// What an [`MfmDecoder`] remembers between two cells.
pub struct DecState {
    /// Whether the sync detector looks for sync words.
    pub detector_active: bool,
    /// The cells most recently seen by the sync detector, newest in bit 0.
    pub window: u64,
    /// `true` once a sync was seen: cells are then grouped into words.
    pub synced: bool,
    /// The number of cells received of the current word.
    pub phase: nat,
    /// The data cells (every second cell) received of the current word.
    pub data: Seq<bool>,
}

/// The initial state of an [`MfmDecoder`].
pub open spec fn dec_init() -> DecState {
    DecState { detector_active: true, window: 0, synced: false, phase: 0, data: Seq::empty() }
}

/// One cell fed to an [`MfmDecoder`]: its next state and the words it emits. While the sync
/// detector is active, three sync words in a row emit [`MfmWord::SyncWord`] and start a new
/// word; once in sync, every sixteenth cell emits the byte made of the data cells (the second
/// cell of each pair).
pub open spec fn dec_step(s: DecState, cell: Bit) -> (DecState, Seq<MfmWord>) {
    let window = if s.detector_active {
        (s.window << 1u64) | (if cell.0 {
            1u64
        } else {
            0u64
        })
    } else {
        s.window
    };
    let data = if s.phase % 2 == 1 {
        s.data.push(cell.0)
    } else {
        s.data
    };
    if s.detector_active && (window & 0xffff_ffff_ffffu64) == triple_sync() {
        (
            DecState { window, synced: true, phase: 0, data: Seq::empty(), ..s },
            seq![MfmWord::SyncWord],
        )
    } else if !s.synced {
        (DecState { window, ..s }, Seq::empty())
    } else if s.phase == 15 {
        (
            DecState { window, synced: true, phase: 0, data: Seq::empty(), ..s },
            seq![MfmWord::Enc(bits_byte(data))],
        )
    } else {
        (DecState { window, synced: true, phase: s.phase + 1, data, ..s }, Seq::empty())
    }
}

/// All cells `cells` fed to an [`MfmDecoder`] in state `s`: its final state and all words it
/// emits.
pub open spec fn dec_run(s: DecState, cells: Seq<Bit>) -> (DecState, Seq<MfmWord>)
    decreases cells.len(),
{
    if cells.len() == 0 {
        (s, Seq::empty())
    } else {
        let (s1, w1) = dec_run(s, cells.drop_last());
        let (s2, w2) = dec_step(s1, cells.last());
        (s2, w1 + w2)
    }
}

/// Decodes MFM cells into bytes, synchronizing on three consecutive sync words.
pub struct MfmDecoder {
    sync_buffer: u64,
    byte_buffer: u8,
    shift_count: u8,
    in_sync: bool,
    pub sync_detector_active: bool,
}

impl MfmDecoder {
    pub closed spec fn wf(&self) -> bool {
        &&& self.shift_count < 16
        &&& self.byte_buffer == bits_byte(self.pending_data())
    }

    /// The data cells (every second cell) received of the current word.
    pub closed spec fn pending_data(&self) -> Seq<bool> {
        Seq::new(
            (self.shift_count / 2) as nat,
            |k: int| bit8(self.byte_buffer, self.shift_count / 2 - 1 - k),
        )
    }

    pub closed spec fn state(&self) -> DecState {
        DecState {
            detector_active: self.sync_detector_active,
            window: self.sync_buffer,
            synced: self.in_sync,
            phase: self.shift_count as nat,
            data: self.pending_data(),
        }
    }

    pub fn new() -> (r: Self)
        ensures
            r.wf(),
            r.state() == dec_init(),
    {
        let r = Self {
            sync_buffer: 0,
            byte_buffer: 0,
            shift_count: 0,
            in_sync: false,
            sync_detector_active: true,
        };
        assert(r.pending_data() =~= Seq::<bool>::empty());
        r
    }

    /// Takes one cell, as [`dec_step`] says.
    /// Takes the cells one after the other, as [`dec_run`] says.
    pub fn feed_cells(&mut self, cells: &[Bit], sink: &mut Vec<MfmWord>)
        requires
            old(self).wf(),
        ensures
            final(self).wf(),
            final(self).state() == dec_run(old(self).state(), cells@).0,
            final(sink)@ == old(sink)@ + dec_run(old(self).state(), cells@).1,
    {
        let ghost s0 = self.state();
        let ghost out0 = sink@;
        let mut j: usize = 0;
        while j < cells.len()
            invariant
                j <= cells@.len(),
                self.wf(),
                self.state() == dec_run(s0, cells@.take(j as int)).0,
                sink@ == out0 + dec_run(s0, cells@.take(j as int)).1,
            decreases cells@.len() - j,
        {
            assert(cells@.take(j + 1).drop_last() == cells@.take(j as int));
            self.feed(cells[j], sink);
            assert(sink@ =~= out0 + dec_run(s0, cells@.take(j + 1)).1);
            j = j + 1;
        }
        assert(cells@.take(j as int) == cells@);
    }

    pub fn feed(&mut self, cell: Bit, sink: &mut Vec<MfmWord>)
        requires
            old(self).wf(),
        ensures
            final(self).wf(),
            final(self).state() == dec_step(old(self).state(), cell).0,
            final(sink)@ == old(sink)@ + dec_step(old(self).state(), cell).1,
    {
        let ghost s0 = self.state();
        if self.sync_detector_active {
            self.sync_buffer = (self.sync_buffer << 1) | (if cell.0 { 1u64 } else { 0u64 });
            if (self.sync_buffer & 0xffff_ffff_ffff) == 0x4489_4489_4489 {
                self.in_sync = true;
                self.shift_count = 0;
                self.byte_buffer = 0;
                sink.push(MfmWord::SyncWord);
                assert(self.pending_data() =~= Seq::<bool>::empty());
                assert(self.state() == dec_step(s0, cell).0);
                assert(sink@ =~= old(sink)@ + dec_step(s0, cell).1);
                return ;
            }
        }
        if self.in_sync {
            let ghost old_data = self.pending_data();
            let n = self.shift_count;
            let w = self.byte_buffer;
            proof {
                lemma_u8_parity(n);
            }
            let ghost data = if n % 2 == 1 {
                old_data.push(cell.0)
            } else {
                old_data
            };
            if (self.shift_count & 1) == 1 {
                let c: u8 = if cell.0 { 1 } else { 0 };
                let w2: u8 = (w << 1) | c;
                let m: u8 = n / 2;
                assert forall|k: int| 0 <= k < m implies #[trigger] bit8(w2, m - k) == bit8(
                    w,
                    m - 1 - k,
                ) by {
                    let j: u8 = (m - k) as u8;
                    let j1: u8 = (m - 1 - k) as u8;
                    lemma_u8_shift_in(w, c, j, j1);
                }
                assert(bit8(w2, 0) == cell.0) by {
                    lemma_u8_shift_in(w, c, 1, 0);
                }
                assert(data.drop_last() == old_data);
                self.byte_buffer = w2;
            }
            assert(self.byte_buffer == bits_byte(data));
            self.shift_count = n + 1;
            if self.shift_count == 16 {
                self.shift_count = 0;
                let b = self.byte_buffer;
                self.byte_buffer = 0;
                sink.push(MfmWord::Enc(b));
                assert(self.pending_data() =~= Seq::<bool>::empty());
                assert(self.state() == dec_step(s0, cell).0);
                assert(sink@ =~= old(sink)@ + dec_step(s0, cell).1);
            } else {
                assert(self.pending_data() =~= data);
                assert(self.state() == dec_step(s0, cell).0);
                assert(sink@ =~= old(sink)@ + dec_step(s0, cell).1);
            }
        } else {
            assert(self.state() == dec_step(s0, cell).0);
            assert(sink@ =~= old(sink)@ + dec_step(s0, cell).1);
        }
    }
}

/// The 32 bit pattern of two sync words, `0x4489_4489`.
pub open spec fn double_sync() -> u64 {
    0x4489_4489u64
}

/// The cells `c` read as a binary number, the first cell most significant; only the last 32
/// cells count.
pub open spec fn cells_word(c: Seq<Bit>) -> u32
    decreases c.len(),
{
    if c.len() == 0 {
        0
    } else {
        (cells_word(c.drop_last()) << 1u32) | (if c.last().0 {
            1u32
        } else {
            0u32
        })
    }
}

/// What an [`MfmDataSeperator`] remembers between two cells.
pub struct SepState {
    /// The cells most recently seen, newest in bit 0.
    pub window: u64,
    /// `true` once a sync was seen: cells are then grouped into words.
    pub synced: bool,
    /// The cells received of the current word.
    pub pending: Seq<Bit>,
}

/// The initial state of an [`MfmDataSeperator`].
pub open spec fn sep_init() -> SepState {
    SepState { window: 0, synced: false, pending: Seq::empty() }
}

/// One cell fed to an [`MfmDataSeperator`]: its next state and the words it emits. Two sync
/// words in a row emit [`RawMfmWord::SyncWord`] and start a new word; once in sync, every
/// 32nd cell emits the word made of the last 32 cells.
pub open spec fn sep_step(s: SepState, cell: Bit) -> (SepState, Seq<RawMfmWord>) {
    let window = (s.window << 1u64) | (if cell.0 {
        1u64
    } else {
        0u64
    });
    let cells = s.pending.push(cell);
    if (window & 0xffff_ffffu64) == double_sync() {
        (SepState { window, synced: true, pending: Seq::empty() }, seq![RawMfmWord::SyncWord])
    } else if !s.synced {
        (SepState { window, synced: false, pending: s.pending }, Seq::empty())
    } else if cells.len() == 32 {
        (
            SepState { window, synced: true, pending: Seq::empty() },
            seq![RawMfmWord::Raw(cells_word(cells))],
        )
    } else {
        (SepState { window, synced: true, pending: cells }, Seq::empty())
    }
}

/// All cells `cells` fed to an [`MfmDataSeperator`] in state `s`: its final state and all
/// words it emits.
pub open spec fn sep_run(s: SepState, cells: Seq<Bit>) -> (SepState, Seq<RawMfmWord>)
    decreases cells.len(),
{
    if cells.len() == 0 {
        (s, Seq::empty())
    } else {
        let (s1, w1) = sep_run(s, cells.drop_last());
        let (s2, w2) = sep_step(s1, cells.last());
        (s2, w1 + w2)
    }
}

/// Splits MFM cells into raw 32 cell words, synchronizing on two consecutive sync words.
pub struct MfmDataSeperator {
    sync_buffer: u64,
    word_buffer: u32,
    in_sync: bool,
    shift_count: u8,
}

impl MfmDataSeperator {
    pub closed spec fn wf(&self) -> bool {
        &&& self.shift_count < 32
        &&& self.word_buffer == cells_word(self.pending())
    }

    /// The cells received of the current word.
    pub closed spec fn pending(&self) -> Seq<Bit> {
        raw_cells(self.word_buffer, self.shift_count as nat)
    }

    pub closed spec fn state(&self) -> SepState {
        SepState { window: self.sync_buffer, synced: self.in_sync, pending: self.pending() }
    }

    pub fn new() -> (r: Self)
        ensures
            r.wf(),
            r.state() == sep_init(),
    {
        let r = Self { sync_buffer: 0, word_buffer: 0, in_sync: false, shift_count: 0 };
        assert(r.pending() =~= Seq::<Bit>::empty());
        r
    }

    /// Takes one cell, as [`sep_step`] says.
    pub fn feed(&mut self, cell: Bit, sink: &mut Vec<RawMfmWord>)
        requires
            old(self).wf(),
        ensures
            final(self).wf(),
            final(self).state() == sep_step(old(self).state(), cell).0,
            final(sink)@ == old(sink)@ + sep_step(old(self).state(), cell).1,
    {
        let ghost s0 = self.state();
        self.sync_buffer = (self.sync_buffer << 1) | (if cell.0 { 1u64 } else { 0u64 });
        if (self.sync_buffer & 0xffff_ffff) == 0x4489_4489 {
            self.in_sync = true;
            self.shift_count = 0;
            self.word_buffer = 0;
            sink.push(RawMfmWord::SyncWord);
            assert(self.pending() =~= Seq::<Bit>::empty());
            assert(sink@ =~= old(sink)@ + sep_step(s0, cell).1);
            return ;
        }
        if self.in_sync {
            let ghost old_cells = self.pending();
            let n = self.shift_count;
            let w = self.word_buffer;
            let c: u32 = if cell.0 { 1 } else { 0 };
            let w2: u32 = (w << 1) | c;
            assert forall|k: int| 0 <= k < n implies #[trigger] bit32(w2, n - k) == bit32(
                w,
                n - 1 - k,
            ) by {
                let j: u32 = (n - k) as u32;
                let j1: u32 = (n - 1 - k) as u32;
                lemma_u32_shift_in(w, c, j, j1);
            }
            assert(bit32(w2, 0) == cell.0) by {
                lemma_u32_shift_in(w, c, 1, 0);
            }
            self.word_buffer = w2;
            self.shift_count = n + 1;
            let ghost cells = old_cells.push(cell);
            assert(raw_cells(w2, (n + 1) as nat) =~= cells);
            assert(cells.drop_last() == old_cells);
            assert(cells_word(cells) == w2);
            if self.shift_count == 32 {
                self.shift_count = 0;
                self.word_buffer = 0;
                sink.push(RawMfmWord::Raw(w2));
                assert(self.pending() =~= Seq::<Bit>::empty());
                assert(sink@ =~= old(sink)@ + sep_step(s0, cell).1);
            } else {
                assert(sink@ =~= old(sink)@ + sep_step(s0, cell).1);
            }
        } else {
            assert(sink@ =~= old(sink)@ + sep_step(s0, cell).1);
        }
    }
}

/// One unit of work for an [`MfmEncoder`], as the track generators issue them.
#[derive(Clone, Copy, Debug, PartialEq, Eq, Structural)]
pub enum MfmItem {
    /// `feed_encoded8`
    Enc8(u8),
    /// `feed(MfmWord::SyncWord)`
    Sync,
    /// `feed_odd16_32`
    Odd(u32),
    /// `feed_even16_32`
    Even(u32),
    /// `feed_raw8`
    Raw8(u8),
    /// `feed_raw_var`
    RawVar(u32, u8),
}

/// The item can be encoded without a panic.
pub open spec fn item_ok(it: MfmItem) -> bool {
    match it {
        MfmItem::RawVar(_, len) => 1 <= len <= 32,
        _ => true,
    }
}

/// Cells an encoder whose last data bit is `last` writes for `it`.
pub open spec fn item_cells(last: bool, it: MfmItem) -> Seq<Bit> {
    match it {
        MfmItem::Enc8(x) => mfm_encode(last, byte_bits(x)),
        MfmItem::Sync => sync_word_cells(),
        MfmItem::Odd(v) => mfm_encode(last, odd_bits(v)),
        MfmItem::Even(v) => mfm_encode(last, even_bits(v)),
        MfmItem::Raw8(x) => byte_cells(x),
        MfmItem::RawVar(v, len) => raw_cells(v, len as nat),
    }
}

/// The encoder's last data bit after `it`.
pub open spec fn item_last(last: bool, it: MfmItem) -> bool {
    match it {
        MfmItem::Enc8(x) => msb_bit(x, 7),
        MfmItem::Sync => true,
        MfmItem::Odd(v) => bit32(v, 1),
        MfmItem::Even(v) => bit32(v, 0),
        MfmItem::Raw8(x) => (x & 1) != 0,
        MfmItem::RawVar(v, _) => (v & 1) != 0,
    }
}

/// The encoder's last data bit after all of `items`.
pub open spec fn items_last(last: bool, items: Seq<MfmItem>) -> bool
    decreases items.len(),
{
    if items.len() == 0 {
        last
    } else {
        item_last(items_last(last, items.drop_last()), items.last())
    }
}

/// Cells an encoder whose last data bit is `last` writes for all of `items`.
pub open spec fn items_cells(last: bool, items: Seq<MfmItem>) -> Seq<Bit>
    decreases items.len(),
{
    if items.len() == 0 {
        Seq::empty()
    } else {
        items_cells(last, items.drop_last()) + item_cells(
            items_last(last, items.drop_last()),
            items.last(),
        )
    }
}

pub proof fn lemma_items_push(last: bool, items: Seq<MfmItem>, it: MfmItem)
    ensures
        items_cells(last, items.push(it)) == items_cells(last, items) + item_cells(
            items_last(last, items),
            it,
        ),
        items_last(last, items.push(it)) == item_last(items_last(last, items), it),
{
    assert(items.push(it).drop_last() == items);
}

pub proof fn lemma_items_append(last: bool, a: Seq<MfmItem>, b: Seq<MfmItem>)
    ensures
        items_cells(last, a + b) == items_cells(last, a) + items_cells(items_last(last, a), b),
        items_last(last, a + b) == items_last(items_last(last, a), b),
    decreases b.len(),
{
    if b.len() == 0 {
        assert(a + b == a);
    } else {
        lemma_items_append(last, a, b.drop_last());
        assert((a + b).drop_last() == a + b.drop_last());
    }
}

/// The number of cells written for `it`.
pub open spec fn item_cell_count(it: MfmItem) -> nat {
    match it {
        MfmItem::Enc8(_) => 16,
        MfmItem::Sync => 16,
        MfmItem::Odd(_) => 32,
        MfmItem::Even(_) => 32,
        MfmItem::Raw8(_) => 8,
        MfmItem::RawVar(_, len) => len as nat,
    }
}

pub proof fn lemma_item_cells_len(last: bool, it: MfmItem)
    ensures
        item_cells(last, it).len() == item_cell_count(it),
{
    match it {
        MfmItem::Enc8(x) => lemma_mfm_encode_cells(last, byte_bits(x)),
        MfmItem::Odd(v) => lemma_mfm_encode_cells(last, odd_bits(v)),
        MfmItem::Even(v) => lemma_mfm_encode_cells(last, even_bits(v)),
        _ => {},
    }
}

/// Items of whole bytes of cells write whole bytes of cells.
pub proof fn lemma_items_cells_bytes(last: bool, items: Seq<MfmItem>)
    requires
        forall|i: int| 0 <= i < items.len() ==> #[trigger] item_cell_count(items[i]) % 8 == 0,
    ensures
        items_cells(last, items).len() % 8 == 0,
    decreases items.len(),
{
    if items.len() > 0 {
        let pre = items.drop_last();
        assert forall|i: int| 0 <= i < pre.len() implies #[trigger] item_cell_count(pre[i]) % 8 == 0 by {
            assert(pre[i] == items[i]);
        }
        lemma_items_cells_bytes(last, pre);
        lemma_item_cells_len(items_last(last, pre), items.last());
        assert(item_cell_count(items[items.len() - 1]) % 8 == 0);
    }
}

impl MfmEncoder {
    /// Issues one item.
    pub fn feed_item(&mut self, it: MfmItem, sink: &mut Vec<Bit>)
        requires
            item_ok(it),
        ensures
            final(sink)@ == old(sink)@ + item_cells(old(self)@, it),
            final(self)@ == item_last(old(self)@, it),
    {
        match it {
            MfmItem::Enc8(x) => self.feed_encoded8(x, sink),
            MfmItem::Sync => self.feed(MfmWord::SyncWord, sink),
            MfmItem::Odd(v) => self.feed_odd16_32(v, sink),
            MfmItem::Even(v) => self.feed_even16_32(v, sink),
            MfmItem::Raw8(x) => self.feed_raw8(x, sink),
            MfmItem::RawVar(v, len) => self.feed_raw_var(v, len, sink),
        }
    }

    /// Issues all of `items` in order.
    pub fn feed_items(&mut self, items: &[MfmItem], sink: &mut Vec<Bit>)
        requires
            forall|i: int| 0 <= i < items@.len() ==> item_ok(#[trigger] items@[i]),
        ensures
            final(sink)@ == old(sink)@ + items_cells(old(self)@, items@),
            final(self)@ == items_last(old(self)@, items@),
    {
        let ghost start = sink@;
        let ghost last0 = self@;
        let mut i: usize = 0;
        while i < items.len()
            invariant
                i <= items@.len(),
                forall|j: int| 0 <= j < items@.len() ==> item_ok(#[trigger] items@[j]),
                sink@ == start + items_cells(last0, items@.take(i as int)),
                self@ == items_last(last0, items@.take(i as int)),
            decreases items@.len() - i,
        {
            proof {
                assert(items@.take(i + 1) == items@.take(i as int).push(items@[i as int]));
                lemma_items_push(last0, items@.take(i as int), items@[i as int]);
            }
            self.feed_item(items[i], sink);
            i = i + 1;
        }
        assert(items@.take(i as int) == items@);
    }
}

/// A byte is the number that its eight bits, most significant first, make.
proof fn lemma_byte_from_bits(b: u8)
    by (bit_vector)
    ensures
        ((((((((((((((((0u8 << 1u8) | (if ((b >> 7u8) & 1u8) == 1u8 { 1u8 } else { 0u8 })) << 1u8) | (if ((b >> 6u8) & 1u8) == 1u8 { 1u8 } else { 0u8 })) << 1u8) | (if ((b >> 5u8) & 1u8) == 1u8 { 1u8 } else { 0u8 })) << 1u8) | (if ((b >> 4u8) & 1u8) == 1u8 { 1u8 } else { 0u8 })) << 1u8) | (if ((b >> 3u8) & 1u8) == 1u8 { 1u8 } else { 0u8 })) << 1u8) | (if ((b >> 2u8) & 1u8) == 1u8 { 1u8 } else { 0u8 })) << 1u8) | (if ((b >> 1u8) & 1u8) == 1u8 { 1u8 } else { 0u8 })) << 1u8) | (if ((b >> 0u8) & 1u8) == 1u8 { 1u8 } else { 0u8 })) == b,
{
}

/// Once in sync at a word boundary, with the sync detector off, the first `k` cells of a
/// byte's MFM cells move the decoder `k` cells into the word and collect the data bits
/// among them.
proof fn lemma_dec_byte_prefix(s: DecState, last: bool, b: u8, k: int)
    requires
        !s.detector_active,
        s.synced,
        s.phase == 0,
        s.data.len() == 0,
        0 <= k <= 15,
    ensures
        dec_run(s, mfm_encode(last, byte_bits(b)).take(k)) == (
            DecState { phase: k as nat, data: byte_bits(b).take(k / 2), ..s },
            Seq::<MfmWord>::empty(),
        ),
    decreases k,
{
    let c = mfm_encode(last, byte_bits(b));
    lemma_mfm_encode_cells(last, byte_bits(b));
    if k == 0 {
        assert(c.take(0) =~= Seq::<Bit>::empty());
        assert(byte_bits(b).take(0) =~= s.data);
    } else {
        lemma_dec_byte_prefix(s, last, b, k - 1);
        assert(c.take(k).drop_last() =~= c.take(k - 1));
        assert(c.take(k).last() == c[k - 1]);
        if (k - 1) % 2 == 1 {
            let i = (k - 1) / 2;
            assert(c[2 * i + 1] == Bit(byte_bits(b)[i]));
            assert(byte_bits(b).take((k - 1) / 2).push(byte_bits(b)[i]) =~= byte_bits(b).take(k / 2));
        } else {
            assert((k - 1) / 2 == k / 2);
        }
    }
}

/// MFM decoding inverts MFM encoding: once in sync at a word boundary and with its sync
/// detector off, the decoder reads the sixteen cells that the encoder writes for a byte,
/// whatever data bit preceded it, as that byte, and is then at the next word boundary.
pub proof fn lemma_mfm_byte_roundtrip(s: DecState, last: bool, b: u8)
    requires
        !s.detector_active,
        s.synced,
        s.phase == 0,
        s.data.len() == 0,
    ensures
        dec_run(s, mfm_encode(last, byte_bits(b))) == (s, seq![MfmWord::Enc(b)]),
{
    let c = mfm_encode(last, byte_bits(b));
    let d = byte_bits(b);
    lemma_mfm_encode_cells(last, d);
    lemma_dec_byte_prefix(s, last, b, 15);
    assert(c.drop_last() =~= c.take(15));
    assert(c[15] == Bit(d[7]));
    assert(d.take(7).push(d[7]) =~= d);
    assert(d.take(0).len() == 0);
    assert forall|k: int| 1 <= k <= 8 implies #[trigger] bits_byte(d.take(k)) == ((bits_byte(d.take(k - 1)) << 1u8) | (if d[k - 1] {
        1u8
    } else {
        0u8
    })) by {
        assert(d.take(k).drop_last() =~= d.take(k - 1));
    }
    assert(bits_byte(d.take(1)) == ((bits_byte(d.take(0)) << 1u8) | (if d[0] { 1u8 } else { 0u8 })));
    assert(bits_byte(d.take(2)) == ((bits_byte(d.take(1)) << 1u8) | (if d[1] { 1u8 } else { 0u8 })));
    assert(bits_byte(d.take(3)) == ((bits_byte(d.take(2)) << 1u8) | (if d[2] { 1u8 } else { 0u8 })));
    assert(bits_byte(d.take(4)) == ((bits_byte(d.take(3)) << 1u8) | (if d[3] { 1u8 } else { 0u8 })));
    assert(bits_byte(d.take(5)) == ((bits_byte(d.take(4)) << 1u8) | (if d[4] { 1u8 } else { 0u8 })));
    assert(bits_byte(d.take(6)) == ((bits_byte(d.take(5)) << 1u8) | (if d[5] { 1u8 } else { 0u8 })));
    assert(bits_byte(d.take(7)) == ((bits_byte(d.take(6)) << 1u8) | (if d[6] { 1u8 } else { 0u8 })));
    assert(bits_byte(d.take(8)) == ((bits_byte(d.take(7)) << 1u8) | (if d[7] { 1u8 } else { 0u8 })));
    assert(d.take(8) =~= d);
    lemma_byte_from_bits(b);
    assert(bits_byte(d) == b);
    assert(s.data =~= Seq::<bool>::empty());
}

/// The data bits of bytes, each byte most significant bit first.
pub open spec fn bytes_bits(s: Seq<u8>) -> Seq<bool>
    decreases s.len(),
{
    if s.len() == 0 {
        Seq::empty()
    } else {
        bytes_bits(s.drop_last()) + byte_bits(s.last())
    }
}

/// Encoding two runs of bits one after the other is encoding them together.
pub proof fn lemma_mfm_encode_append(last: bool, x: Seq<bool>, y: Seq<bool>)
    ensures
        mfm_encode(last, x + y) == mfm_encode(last, x) + mfm_encode(mfm_last(last, x), y),
        mfm_last(last, x + y) == mfm_last(mfm_last(last, x), y),
    decreases y.len(),
{
    if y.len() == 0 {
        assert(x + y =~= x);
    } else {
        lemma_mfm_encode_append(last, x, y.drop_last());
        assert((x + y).drop_last() =~= x + y.drop_last());
        assert((x + y).last() == y.last());
    }
}

/// Decoding two runs of cells one after the other is decoding them together.
pub proof fn lemma_dec_run_append(s: DecState, a: Seq<Bit>, b: Seq<Bit>)
    ensures
        dec_run(s, a + b) == (
            dec_run(dec_run(s, a).0, b).0,
            dec_run(s, a).1 + dec_run(dec_run(s, a).0, b).1,
        ),
    decreases b.len(),
{
    if b.len() == 0 {
        assert(a + b =~= a);
        assert(dec_run(s, a).1 + Seq::<MfmWord>::empty() =~= dec_run(s, a).1);
    } else {
        lemma_dec_run_append(s, a, b.drop_last());
        assert((a + b).drop_last() =~= a + b.drop_last());
        assert((a + b).last() == b.last());
        let m = dec_run(s, a).0;
        let w1 = dec_run(m, b.drop_last()).1;
        let w2 = dec_step(dec_run(m, b.drop_last()).0, b.last()).1;
        assert(dec_run(s, a).1 + w1 + w2 =~= dec_run(s, a).1 + (w1 + w2));
    }
}

/// MFM decoding inverts MFM encoding for any run of bytes: once in sync at a word boundary
/// and with its sync detector off, the decoder reads the cells that the encoder writes for
/// the bytes, whatever data bit preceded them, as those bytes, one word per byte.
pub proof fn lemma_mfm_bytes_roundtrip(s: DecState, last: bool, bytes: Seq<u8>)
    requires
        !s.detector_active,
        s.synced,
        s.phase == 0,
        s.data.len() == 0,
    ensures
        dec_run(s, mfm_encode(last, bytes_bits(bytes))) == (
            s,
            Seq::new(bytes.len(), |i: int| MfmWord::Enc(bytes[i])),
        ),
    decreases bytes.len(),
{
    if bytes.len() == 0 {
        assert(mfm_encode(last, bytes_bits(bytes)) =~= Seq::<Bit>::empty());
        assert(Seq::new(bytes.len(), |i: int| MfmWord::Enc(bytes[i])) =~= Seq::<MfmWord>::empty());
    } else {
        let pre = bytes.drop_last();
        let b = bytes.last();
        lemma_mfm_bytes_roundtrip(s, last, pre);
        lemma_mfm_encode_append(last, bytes_bits(pre), byte_bits(b));
        let l = mfm_last(last, bytes_bits(pre));
        lemma_dec_run_append(s, mfm_encode(last, bytes_bits(pre)), mfm_encode(l, byte_bits(b)));
        lemma_mfm_byte_roundtrip(s, l, b);
        assert(Seq::new(pre.len(), |i: int| MfmWord::Enc(pre[i])) + seq![MfmWord::Enc(b)] =~= Seq::new(
            bytes.len(),
            |i: int| MfmWord::Enc(bytes[i]),
        ));
    }
}

} // verus!
