use vstd::prelude::*;

use crate::bitfacts::lemma_u64_shift_in;
use crate::types::Bit;

verus! {

/// An item decoded from a GCR cell stream.
#[derive(Debug, PartialEq, Eq, Structural)]
pub enum GcrDecoderResult {
    Sync,
    Byte(u8),
}

/// The 5 bit GCR code of each nibble, as written by the Commodore 1541.
pub open spec fn gcr_encode_table() -> Seq<u8> {
    seq![
        0b01010u8, 0b01011u8, 0b10010u8, 0b10011u8, 0b01110u8, 0b01111u8, 0b10110u8, 0b10111u8,
        0b01001u8, 0b11001u8, 0b11010u8, 0b11011u8, 0b01101u8, 0b11101u8, 0b11110u8, 0b10101u8,
    ]
}

/// The nibble of each 5 bit code; codes that no nibble has decode to 0.
pub open spec fn gcr_decode_table() -> Seq<u8> {
    seq![
        0u8, 0u8, 0u8, 0u8, 0u8, 0u8, 0u8, 0u8, 0u8, 8u8, 0u8, 1u8, 0u8, 12u8, 4u8, 5u8,
        0u8, 0u8, 2u8, 3u8, 0u8, 15u8, 6u8, 7u8, 0u8, 9u8, 10u8, 11u8, 0u8, 13u8, 14u8, 0u8,
    ]
}

/// The decode table is the inverse of the encode table: every nibble's code decodes to it.
pub proof fn lemma_gcr_tables_inverse()
    ensures
        forall|n: int| 0 <= n < 16 ==> #[trigger] gcr_decode_table()[gcr_encode_table()[n] as int] == n,
        forall|n: int| 0 <= n < 16 ==> #[trigger] gcr_encode_table()[n] < 32,
{
    assert(gcr_decode_table()[gcr_encode_table()[0] as int] == 0);
    assert(gcr_decode_table()[gcr_encode_table()[1] as int] == 1);
    assert(gcr_decode_table()[gcr_encode_table()[2] as int] == 2);
    assert(gcr_decode_table()[gcr_encode_table()[3] as int] == 3);
    assert(gcr_decode_table()[gcr_encode_table()[4] as int] == 4);
    assert(gcr_decode_table()[gcr_encode_table()[5] as int] == 5);
    assert(gcr_decode_table()[gcr_encode_table()[6] as int] == 6);
    assert(gcr_decode_table()[gcr_encode_table()[7] as int] == 7);
    assert(gcr_decode_table()[gcr_encode_table()[8] as int] == 8);
    assert(gcr_decode_table()[gcr_encode_table()[9] as int] == 9);
    assert(gcr_decode_table()[gcr_encode_table()[10] as int] == 10);
    assert(gcr_decode_table()[gcr_encode_table()[11] as int] == 11);
    assert(gcr_decode_table()[gcr_encode_table()[12] as int] == 12);
    assert(gcr_decode_table()[gcr_encode_table()[13] as int] == 13);
    assert(gcr_decode_table()[gcr_encode_table()[14] as int] == 14);
    assert(gcr_decode_table()[gcr_encode_table()[15] as int] == 15);
}

/// How the 1541 builds its GCR codes. For a nibble below 8, bit 4 of the code is bit 1 of the
/// nibble and bit 3 its negation, bit 2 is bit 2 of the nibble, bit 1 is set and bit 0 is
/// bit 0 of the nibble. A nibble of 8 or more whose code
/// `1` followed by the nibble would end in two zeros or be all ones is written as 01001 (8),
/// 01101 (12) and 10101 (15); every other one as `1` followed by the nibble.
pub proof fn lemma_gcr_code_structure()
    ensures
        forall|n: int|
            0 <= n < 8 ==> #[trigger] gcr_encode_table()[n] as int == (if (n / 2) % 2 == 1 {
                16int
            } else {
                8int
            }) + 4 * ((n / 4) % 2) + 2 + n % 2,
        forall|n: int|
            8 <= n < 16 && n % 4 != 0 && n != 15 ==> #[trigger] gcr_encode_table()[n] as int == 16 + n,
        gcr_encode_table()[8] == 0b01001u8,
        gcr_encode_table()[12] == 0b01101u8,
        gcr_encode_table()[15] == 0b10101u8,
{
    assert forall|n: int| 0 <= n < 8 implies #[trigger] gcr_encode_table()[n] as int == (if (n / 2)
        % 2 == 1 {
        16int
    } else {
        8int
    }) + 4 * ((n / 4) % 2) + 2 + n % 2 by {
        assert(n == 0 || n == 1 || n == 2 || n == 3 || n == 4 || n == 5 || n == 6 || n == 7);
    }
    assert forall|n: int| 8 <= n < 16 && n % 4 != 0 && n != 15 implies #[trigger] gcr_encode_table()[n]
        as int == 16 + n by {
        assert(n == 9 || n == 10 || n == 11 || n == 13 || n == 14);
    }
}

/// Every GCR code has at most one leading zero, at most one trailing zero and never three
/// zeros in a row, so that cells of codes written one after the other never hold more than
/// two zeros in a row, as the 1541 needs to keep its clock; and no code is five ones, which
/// could look like part of a sync.
pub proof fn lemma_gcr_codes_valid()
    ensures
        forall|n: int|
            0 <= n < 16 ==> {
                let c = #[trigger] gcr_encode_table()[n] as int;
                &&& 8 <= c < 31
                &&& c % 4 != 0
                &&& c % 8 != 0 && (c / 2) % 8 != 0 && (c / 4) % 8 != 0
            },
{
    assert forall|n: int| 0 <= n < 16 implies {
        let c = #[trigger] gcr_encode_table()[n] as int;
        &&& 8 <= c < 31
        &&& c % 4 != 0
        &&& c % 8 != 0 && (c / 2) % 8 != 0 && (c / 4) % 8 != 0
    } by {
        assert(n == 0 || n == 1 || n == 2 || n == 3 || n == 4 || n == 5 || n == 6 || n == 7 || n == 8
            || n == 9 || n == 10 || n == 11 || n == 12 || n == 13 || n == 14 || n == 15);
    }
}

/// The 5 bit code of a nibble.
pub fn gcr_encode_nibble(n: u8) -> (r: u8)
    requires
        n < 16,
    ensures
        r == gcr_encode_table()[n as int],
{
    match n {
        0 => 0b01010,
        1 => 0b01011,
        2 => 0b10010,
        3 => 0b10011,
        4 => 0b01110,
        5 => 0b01111,
        6 => 0b10110,
        7 => 0b10111,
        8 => 0b01001,
        9 => 0b11001,
        10 => 0b11010,
        11 => 0b11011,
        12 => 0b01101,
        13 => 0b11101,
        14 => 0b11110,
        _ => 0b10101,
    }
}

/// The nibble of a 5 bit code; codes that no nibble has decode to 0.
pub fn gcr_decode_code(c: u64) -> (r: u8)
    requires
        c < 32,
    ensures
        r == gcr_decode_table()[c as int],
        r < 16,
{
    match c {
        9 => 8,
        11 => 1,
        13 => 12,
        14 => 4,
        15 => 5,
        18 => 2,
        19 => 3,
        21 => 15,
        22 => 6,
        23 => 7,
        25 => 9,
        26 => 10,
        27 => 11,
        29 => 13,
        30 => 14,
        _ => 0,
    }
}

/// The value of five cells read as a binary number, most significant cell first.
pub open spec fn cells5_value(c: Seq<Bit>) -> int {
    (if c[0].0 { 16int } else { 0 }) + (if c[1].0 { 8int } else { 0 }) + (if c[2].0 { 4int } else { 0 })
        + (if c[3].0 { 2int } else { 0 }) + (if c[4].0 { 1int } else { 0 })
}

/// The five cells of a 5 bit code, most significant first.
pub open spec fn code_cells(code: u8) -> Seq<Bit> {
    Seq::new(5, |i: int| Bit(((code >> ((4 - i) as u8)) & 1u8) == 1u8))
}

/// The ten GCR cells of a byte: the code of the upper nibble, then that of the lower one.
pub open spec fn gcr_cells(b: u8) -> Seq<Bit> {
    code_cells(gcr_encode_table()[(b >> 4u8) as int]) + code_cells(gcr_encode_table()[(b & 0xfu8) as int])
}

/// The byte that ten cells decode to: the nibbles of both 5 cell codes.
pub open spec fn gcr_decode_cells(c: Seq<Bit>) -> u8 {
    ((gcr_decode_table()[cells5_value(c.take(5))] << 4u8) | gcr_decode_table()[cells5_value(c.skip(5))]) as u8
}

proof fn lemma_code_cells_value(code: u8)
    requires
        code < 32,
    ensures
        cells5_value(code_cells(code)) == code,
{
    let c = code_cells(code);
    assert(c[0].0 == (((code >> 4u8) & 1u8) == 1u8));
    assert(c[1].0 == (((code >> 3u8) & 1u8) == 1u8));
    assert(c[2].0 == (((code >> 2u8) & 1u8) == 1u8));
    assert(c[3].0 == (((code >> 1u8) & 1u8) == 1u8));
    assert(c[4].0 == (((code >> 0u8) & 1u8) == 1u8));
    assert(code < 32 ==> code == (if ((code >> 4u8) & 1u8) == 1u8 { 16u8 } else { 0u8 }) + (if ((code
        >> 3u8) & 1u8) == 1u8 { 8u8 } else { 0u8 }) + (if ((code >> 2u8) & 1u8) == 1u8 { 4u8 } else {
        0u8
    }) + (if ((code >> 1u8) & 1u8) == 1u8 { 2u8 } else { 0u8 }) + (if ((code >> 0u8) & 1u8) == 1u8 {
        1u8
    } else {
        0u8
    })) by (bit_vector);
}

pub(crate) proof fn lemma_nibbles(b: u8)
    by (bit_vector)
    ensures
        (b >> 4u8) < 16,
        (b & 0xfu8) < 16,
        (((b >> 4u8) << 4u8) | (b & 0xfu8)) == b,
{
}

proof fn lemma_gcr_word_walk(hi: u8, lo: u8, gcr_word: u16, i: u16)
    by (bit_vector)
    requires
        gcr_word == ((hi as u16) << 5u16) | (lo as u16),
        hi < 32,
        lo < 32,
        i < 10,
    ensures
        gcr_word << 0u16 == gcr_word,
        1u16 << 9u16 == 0x200u16,
        i < 5 ==> (((gcr_word << i) & 0x200u16) != 0u16) == (((hi >> ((4 - i) as u8)) & 1u8)
            == 1u8),
        5 <= i ==> (((gcr_word << i) & 0x200u16) != 0u16) == (((lo >> ((9 - i) as u8)) & 1u8)
            == 1u8),
        (gcr_word << i) << 1u16 == gcr_word << ((i + 1) as u16),
{
}

proof fn lemma_five_bit_words(w2: u64)
    by (bit_vector)
    ensures
        ((w2 >> 5u64) & 0b11111u64) < 32,
        (w2 & 0b11111u64) < 32,
        ((w2 >> 5u64) & 0b11111u64) == (if ((w2 >> 9u64) & 1u64) == 1u64 { 16u64 } else { 0u64 })
            + (if ((w2 >> 8u64) & 1u64) == 1u64 { 8u64 } else { 0u64 }) + (if ((w2 >> 7u64) & 1u64)
            == 1u64 { 4u64 } else { 0u64 }) + (if ((w2 >> 6u64) & 1u64) == 1u64 { 2u64 } else {
            0u64
        }) + (if ((w2 >> 5u64) & 1u64) == 1u64 { 1u64 } else { 0u64 }),
        (w2 & 0b11111u64) == (if ((w2 >> 4u64) & 1u64) == 1u64 { 16u64 } else { 0u64 }) + (if ((w2
            >> 3u64) & 1u64) == 1u64 { 8u64 } else { 0u64 }) + (if ((w2 >> 2u64) & 1u64) == 1u64 {
            4u64
        } else { 0u64 }) + (if ((w2 >> 1u64) & 1u64) == 1u64 { 2u64 } else { 0u64 }) + (if ((w2
            >> 0u64) & 1u64) == 1u64 { 1u64 } else { 0u64 }),
{
}

/// GCR decoding inverts GCR encoding: the ten cells of any byte decode to that byte.
pub proof fn lemma_gcr_roundtrip(b: u8)
    ensures
        gcr_cells(b).len() == 10,
        gcr_decode_cells(gcr_cells(b)) == b,
{
    lemma_gcr_tables_inverse();
    let hi = b >> 4u8;
    let lo = b & 0xfu8;
    lemma_nibbles(b);
    let ch = gcr_encode_table()[hi as int];
    let cl = gcr_encode_table()[lo as int];
    lemma_code_cells_value(ch);
    lemma_code_cells_value(cl);
    let c = gcr_cells(b);
    assert(c.take(5) =~= code_cells(ch));
    assert(c.skip(5) =~= code_cells(cl));
}

/// Appends the ten GCR cells of `byte`.
pub fn to_gcr_stream(byte: u8, sink: &mut Vec<Bit>)
    ensures
        final(sink)@ == old(sink)@ + gcr_cells(byte),
{
    let upper_nibble = byte >> 4;
    let lower_nibble = byte & 0xf;
    proof {
        lemma_nibbles(byte);
    }
    let hi = gcr_encode_nibble(upper_nibble);
    let lo = gcr_encode_nibble(lower_nibble);
    proof {
        lemma_gcr_tables_inverse();
    }
    let gcr_word: u16 = ((hi as u16) << 5) | (lo as u16);
    let ghost start = sink@;
    let ghost expected = gcr_cells(byte);
    let mut v: u16 = gcr_word;
    let mut i: u16 = 0;
    proof {
        lemma_gcr_word_walk(hi, lo, gcr_word, 0);
    }
    while i < 10
        invariant
            i <= 10,
            hi < 32,
            lo < 32,
            gcr_word == ((hi as u16) << 5u16) | (lo as u16),
            v == gcr_word << i,
            expected == code_cells(hi) + code_cells(lo),
            sink@ == start + expected.take(i as int),
        decreases 10 - i,
    {
        let cell = Bit((v & (1 << 9)) != 0);
        proof {
            lemma_gcr_word_walk(hi, lo, gcr_word, i);
        }
        if i < 5 {
            assert(expected[i as int] == code_cells(hi)[i as int]);
        } else {
            assert(expected[i as int] == code_cells(lo)[i - 5]);
        }
        assert(expected.take(i + 1) == expected.take(i as int).push(cell));
        sink.push(cell);
        v = v << 1;
        i = i + 1;
    }
    assert(expected.take(10) == expected);
}

/// Bit `s` of `v`, counting from the least significant bit.
pub open spec fn bit64(v: u64, s: int) -> bool {
    ((v >> (s as u64)) & 1u64) == 1u64
}

/// What a [`GcrDecoder`] remembers between two cells.
pub struct GcrState {
    /// The number of one cells received since the last zero cell.
    pub ones: nat,
    /// `true` once a sync was seen: cells are then grouped into ten cell words.
    pub synced: bool,
    /// The cells received of the current ten cell word.
    pub pending: Seq<Bit>,
}

/// The initial state of a [`GcrDecoder`].
pub open spec fn gcr_init() -> GcrState {
    GcrState { ones: 0, synced: false, pending: Seq::empty() }
}

/// One cell fed to a [`GcrDecoder`]: its next state and what it emits. A zero cell after at
/// least ten one cells emits [`GcrDecoderResult::Sync`] and starts a new word with this cell;
/// once in sync, every tenth cell emits the byte that the word decodes to.
pub open spec fn gcr_step(s: GcrState, cell: Bit) -> (GcrState, Seq<GcrDecoderResult>) {
    let sync_now = !cell.0 && s.ones >= 10;
    let ones: nat = if cell.0 {
        s.ones + 1
    } else {
        0
    };
    let out: Seq<GcrDecoderResult> = if sync_now {
        seq![GcrDecoderResult::Sync]
    } else {
        Seq::empty()
    };
    let cells = if sync_now {
        seq![cell]
    } else {
        s.pending.push(cell)
    };
    if !(s.synced || sync_now) {
        (GcrState { ones, synced: false, pending: s.pending }, out)
    } else if cells.len() == 10 {
        (
            GcrState { ones, synced: true, pending: Seq::empty() },
            out.push(GcrDecoderResult::Byte(gcr_decode_cells(cells))),
        )
    } else {
        (GcrState { ones, synced: true, pending: cells }, out)
    }
}

/// All cells `cells` fed to a [`GcrDecoder`] in state `s`: its final state and all it emits.
pub open spec fn gcr_run(s: GcrState, cells: Seq<Bit>) -> (GcrState, Seq<GcrDecoderResult>)
    decreases cells.len(),
{
    if cells.len() == 0 {
        (s, Seq::empty())
    } else {
        let (s1, w1) = gcr_run(s, cells.drop_last());
        let (s2, w2) = gcr_step(s1, cells.last());
        (s2, w1 + w2)
    }
}

/// Decodes GCR cells into bytes; ten or more one cells followed by a zero cell form a sync.
pub struct GcrDecoder {
    gcr_word_buffer: u64,
    shift_count: u8,
    in_sync: bool,
    ones_count: u32,
}

impl GcrDecoder {
    pub closed spec fn wf(&self) -> bool {
        self.shift_count < 10
    }

    /// The cells received of the current ten cell word.
    pub closed spec fn pending(&self) -> Seq<Bit> {
        Seq::new(
            self.shift_count as nat,
            |k: int| Bit(bit64(self.gcr_word_buffer, self.shift_count - 1 - k)),
        )
    }

    pub closed spec fn state(&self) -> GcrState {
        GcrState { ones: self.ones_count as nat, synced: self.in_sync, pending: self.pending() }
    }

    pub fn new() -> (r: Self)
        ensures
            r.wf(),
            r.state() == gcr_init(),
    {
        let r = Self { gcr_word_buffer: 0, shift_count: 0, in_sync: false, ones_count: 0 };
        assert(r.pending() =~= Seq::<Bit>::empty());
        r
    }

    /// Takes one cell, as [`gcr_step`] says.
    /// Takes the cells one after the other, as [`gcr_run`] says.
    pub fn feed_cells(&mut self, cells: &[Bit], sink: &mut Vec<GcrDecoderResult>)
        requires
            old(self).wf(),
            old(self).state().ones + cells@.len() < u32::MAX,
        ensures
            final(self).wf(),
            final(self).state() == gcr_run(old(self).state(), cells@).0,
            final(sink)@ == old(sink)@ + gcr_run(old(self).state(), cells@).1,
    {
        let ghost s0 = self.state();
        let ghost out0 = sink@;
        let mut j: usize = 0;
        while j < cells.len()
            invariant
                j <= cells@.len(),
                s0.ones + cells@.len() < u32::MAX,
                self.wf(),
                self.state().ones <= s0.ones + j,
                self.state() == gcr_run(s0, cells@.take(j as int)).0,
                sink@ == out0 + gcr_run(s0, cells@.take(j as int)).1,
            decreases cells@.len() - j,
        {
            assert(cells@.take(j + 1).drop_last() == cells@.take(j as int));
            self.feed(cells[j], sink);
            assert(sink@ =~= out0 + gcr_run(s0, cells@.take(j + 1)).1);
            j = j + 1;
        }
        assert(cells@.take(j as int) == cells@);
    }

    pub fn feed(&mut self, cell: Bit, sink: &mut Vec<GcrDecoderResult>)
        requires
            old(self).wf(),
            cell.0 ==> old(self).state().ones < u32::MAX,
        ensures
            final(self).wf(),
            final(self).state() == gcr_step(old(self).state(), cell).0,
            final(sink)@ == old(sink)@ + gcr_step(old(self).state(), cell).1,
    {
        let ghost s0 = self.state();
        if cell.0 {
            self.ones_count += 1;
        } else {
            if self.ones_count >= 10 {
                self.in_sync = true;
                sink.push(GcrDecoderResult::Sync);
                self.shift_count = 0;
            }
            self.ones_count = 0;
        }
        if self.in_sync {
            let ghost old_cells = self.pending();
            let n = self.shift_count;
            let w = self.gcr_word_buffer;
            let c: u64 = if cell.0 { 1 } else { 0 };
            let w2: u64 = (w << 1) | c;
            assert forall|k: int| 0 <= k < n implies #[trigger] bit64(w2, n - k) == bit64(
                w,
                n - 1 - k,
            ) by {
                let j: u64 = (n - k) as u64;
                let j1: u64 = (n - 1 - k) as u64;
                lemma_u64_shift_in(w, c, j, j1);
            }
            assert(bit64(w2, 0) == cell.0) by {
                lemma_u64_shift_in(w, c, 1, 0);
            }
            self.gcr_word_buffer = w2;
            self.shift_count = n + 1;
            let ghost cells = old_cells.push(cell);
            assert(self.pending() =~= cells);
            if self.shift_count >= 10 {
                self.shift_count = 0;
                let upper_word = (w2 >> 5) & 0b11111;
                let lower_word = w2 & 0b11111;
                proof {
                    lemma_five_bit_words(w2);
                }
                assert(cells.take(5)[0] == Bit(bit64(w2, 9)));
                assert(cells.take(5)[1] == Bit(bit64(w2, 8)));
                assert(cells.take(5)[2] == Bit(bit64(w2, 7)));
                assert(cells.take(5)[3] == Bit(bit64(w2, 6)));
                assert(cells.take(5)[4] == Bit(bit64(w2, 5)));
                assert(cells.skip(5)[0] == Bit(bit64(w2, 4)));
                assert(cells.skip(5)[1] == Bit(bit64(w2, 3)));
                assert(cells.skip(5)[2] == Bit(bit64(w2, 2)));
                assert(cells.skip(5)[3] == Bit(bit64(w2, 1)));
                assert(cells.skip(5)[4] == Bit(bit64(w2, 0)));
                let result = (gcr_decode_code(upper_word) << 4) | gcr_decode_code(lower_word);
                sink.push(GcrDecoderResult::Byte(result));
                assert(self.pending() =~= Seq::<Bit>::empty());
            }
        }
        assert(self.state().ones == gcr_step(s0, cell).0.ones);
        assert(self.state().synced == gcr_step(s0, cell).0.synced);
        assert(self.state().pending =~= gcr_step(s0, cell).0.pending);
        assert(self.state() == gcr_step(s0, cell).0);
        assert(sink@ =~= old(sink)@ + gcr_step(s0, cell).1);
    }
}

/// The ones that the decoder has counted after the cells `x`, having counted `r0` before.
pub open spec fn ones_after(r0: nat, x: Seq<Bit>) -> nat
    decreases x.len(),
{
    if x.len() == 0 {
        r0
    } else if x.last().0 {
        ones_after(r0, x.drop_last()) + 1
    } else {
        0
    }
}

proof fn lemma_ones_after_append(r0: nat, x: Seq<Bit>, y: Seq<Bit>)
    ensures
        ones_after(r0, x + y) == ones_after(ones_after(r0, x), y),
    decreases y.len(),
{
    if y.len() == 0 {
        assert(x + y =~= x);
    } else {
        lemma_ones_after_append(r0, x, y.drop_last());
        assert((x + y).drop_last() =~= x + y.drop_last());
        assert((x + y).last() == y.last());
    }
}

/// The ones counted after a prefix grow by at most one per cell, and a zero cell among them
/// starts the count anew.
pub(crate) proof fn lemma_ones_bound(r0: nat, x: Seq<Bit>, k: int, z: int)
    requires
        0 <= k <= x.len(),
    ensures
        ones_after(r0, x.take(k)) <= r0 + k,
        0 <= z < k && !x[z].0 ==> ones_after(r0, x.take(k)) <= k - 1 - z,
    decreases k,
{
    if k > 0 {
        lemma_ones_bound(r0, x, k - 1, z);
        assert(x.take(k).drop_last() =~= x.take(k - 1));
        assert(x.take(k).last() == x[k - 1]);
    }
}

proof fn lemma_code_has_zero(c: u8)
    by (bit_vector)
    requires
        c < 32,
        c != 31,
    ensures
        ((c >> 4u8) & 1u8) != 1u8 || ((c >> 3u8) & 1u8) != 1u8 || ((c >> 2u8) & 1u8) != 1u8 || ((c
            >> 1u8) & 1u8) != 1u8 || ((c >> 0u8) & 1u8) != 1u8,
{
}

/// The cells of a nibble's code hold a zero, so the count of ones stays below ten across them
/// and ends at four or less.
proof fn lemma_code_ones(n: int, r0: nat)
    requires
        0 <= n < 16,
        r0 <= 4,
    ensures
        forall|k: int| 0 <= k <= 5 ==> #[trigger] ones_after(r0, code_cells(gcr_encode_table()[n]).take(k)) <= 8,
        ones_after(r0, code_cells(gcr_encode_table()[n])) <= 4,
{
    let c = gcr_encode_table()[n];
    let x = code_cells(c);
    lemma_gcr_tables_inverse();
    assert(c != 31u8);
    lemma_code_has_zero(c);
    assert(exists|z: int| 0 <= z < 5 && !x[z].0) by {
        if ((c >> 4u8) & 1u8) != 1u8 {
            assert(!x[0].0);
        } else if ((c >> 3u8) & 1u8) != 1u8 {
            assert(!x[1].0);
        } else if ((c >> 2u8) & 1u8) != 1u8 {
            assert(!x[2].0);
        } else if ((c >> 1u8) & 1u8) != 1u8 {
            assert(!x[3].0);
        } else {
            assert(!x[4].0);
        }
    }
    let z = choose|z: int| 0 <= z < 5 && !x[z].0;
    assert forall|k: int| 0 <= k <= 5 implies #[trigger] ones_after(r0, x.take(k)) <= 8 by {
        lemma_ones_bound(r0, x, k, z);
    }
    lemma_ones_bound(r0, x, 5, z);
    assert(x.take(5) =~= x);
}

/// In sync at a word boundary, the decoder reads the ten cells of a byte as that byte, with
/// no sync in between.
proof fn lemma_gcr_byte_prefix(s: GcrState, b: u8, k: int)
    requires
        s.synced,
        s.pending.len() == 0,
        s.ones <= 4,
        0 <= k <= 10,
    ensures
        k < 10 ==> gcr_run(s, gcr_cells(b).take(k)) == (
            GcrState { ones: ones_after(s.ones, gcr_cells(b).take(k)), synced: true, pending: gcr_cells(b).take(k) },
            Seq::<GcrDecoderResult>::empty(),
        ),
        k == 10 ==> gcr_run(s, gcr_cells(b)) == (
            GcrState { ones: ones_after(s.ones, gcr_cells(b)), synced: true, pending: Seq::empty() },
            seq![GcrDecoderResult::Byte(gcr_decode_cells(gcr_cells(b)))],
        ),
        ones_after(s.ones, gcr_cells(b).take(k)) <= 8,
        ones_after(s.ones, gcr_cells(b)) <= 4,
    decreases k,
{
    let c = gcr_cells(b);
    lemma_nibbles(b);
    let x = code_cells(gcr_encode_table()[(b >> 4u8) as int]);
    let y = code_cells(gcr_encode_table()[(b & 0xfu8) as int]);
    assert(c == x + y);
    lemma_code_ones((b >> 4u8) as int, s.ones);
    let r1 = ones_after(s.ones, x);
    lemma_code_ones((b & 0xfu8) as int, r1);
    lemma_ones_after_append(s.ones, x, y);
    if k <= 5 {
        assert(c.take(k) =~= x.take(k));
    } else {
        assert(c.take(k) =~= x + y.take(k - 5));
        lemma_ones_after_append(s.ones, x, y.take(k - 5));
    }
    assert(x.take(5) =~= x);
    assert(ones_after(s.ones, c.take(k)) <= 8);
    if k == 0 {
        assert(c.take(0) =~= Seq::<Bit>::empty());
        assert(s.pending =~= Seq::<Bit>::empty());
    } else {
        lemma_gcr_byte_prefix(s, b, k - 1);
        let pre = c.take(k - 1);
        assert(c.take(k).drop_last() =~= pre);
        assert(c.take(k).last() == c[k - 1]);
        assert(pre.push(c[k - 1]) =~= c.take(k));
        if k == 10 {
            assert(c.take(10) =~= c);
        }
    }
}

/// The GCR cells of a sequence of bytes.
pub open spec fn gcr_bytes(s: Seq<u8>) -> Seq<Bit>
    decreases s.len(),
{
    if s.len() == 0 {
        Seq::empty()
    } else {
        gcr_bytes(s.drop_last()) + gcr_cells(s.last())
    }
}

/// Decoding two runs of cells one after the other is decoding them together.
pub proof fn lemma_gcr_run_append(s: GcrState, a: Seq<Bit>, b: Seq<Bit>)
    ensures
        gcr_run(s, a + b) == (
            gcr_run(gcr_run(s, a).0, b).0,
            gcr_run(s, a).1 + gcr_run(gcr_run(s, a).0, b).1,
        ),
    decreases b.len(),
{
    if b.len() == 0 {
        assert(a + b =~= a);
        assert(gcr_run(s, a).1 + Seq::<GcrDecoderResult>::empty() =~= gcr_run(s, a).1);
    } else {
        lemma_gcr_run_append(s, a, b.drop_last());
        assert((a + b).drop_last() =~= a + b.drop_last());
        assert((a + b).last() == b.last());
        let m = gcr_run(s, a).0;
        let w1 = gcr_run(m, b.drop_last()).1;
        let w2 = gcr_step(gcr_run(m, b.drop_last()).0, b.last()).1;
        assert(gcr_run(s, a).1 + w1 + w2 =~= gcr_run(s, a).1 + (w1 + w2));
    }
}

/// GCR decoding inverts GCR encoding for any run of bytes: in sync at a word boundary, with
/// at most four one cells counted, the decoder reads the cells of the bytes as those bytes,
/// one result per byte and no sync among them, and ends again at a word boundary.
pub proof fn lemma_gcr_bytes_roundtrip(s: GcrState, bytes: Seq<u8>)
    requires
        s.synced,
        s.pending.len() == 0,
        s.ones <= 4,
    ensures
        gcr_run(s, gcr_bytes(bytes)).1 == Seq::new(bytes.len(), |i: int| GcrDecoderResult::Byte(bytes[i])),
        gcr_run(s, gcr_bytes(bytes)).0.synced,
        gcr_run(s, gcr_bytes(bytes)).0.pending.len() == 0,
        gcr_run(s, gcr_bytes(bytes)).0.ones <= 4,
    decreases bytes.len(),
{
    if bytes.len() == 0 {
        assert(Seq::new(bytes.len(), |i: int| GcrDecoderResult::Byte(bytes[i])) =~= Seq::<GcrDecoderResult>::empty());
    } else {
        let pre = bytes.drop_last();
        let b = bytes.last();
        lemma_gcr_bytes_roundtrip(s, pre);
        let m = gcr_run(s, gcr_bytes(pre)).0;
        lemma_gcr_run_append(s, gcr_bytes(pre), gcr_cells(b));
        lemma_gcr_byte_prefix(m, b, 10);
        lemma_gcr_roundtrip(b);
        assert(Seq::new(pre.len(), |i: int| GcrDecoderResult::Byte(pre[i])) + seq![GcrDecoderResult::Byte(b)] =~= Seq::new(
            bytes.len(),
            |i: int| GcrDecoderResult::Byte(bytes[i]),
        ));
    }
}

/// The cells of two runs of bytes are the cells of the first run, then those of the second.
pub proof fn lemma_gcr_bytes_append(a: Seq<u8>, b: Seq<u8>)
    ensures
        gcr_bytes(a + b) == gcr_bytes(a) + gcr_bytes(b),
    decreases b.len(),
{
    if b.len() == 0 {
        assert(a + b == a);
    } else {
        lemma_gcr_bytes_append(a, b.drop_last());
        assert((a + b).drop_last() == a + b.drop_last());
    }
}

/// No result is a sync.
pub open spec fn no_sync(out: Seq<GcrDecoderResult>) -> bool {
    forall|i: int| 0 <= i < out.len() ==> #[trigger] out[i] is Byte
}

/// Cells in which no zero cell follows ten or more one cells bring no sync: a synced decoder
/// emits a byte every tenth cell, an unsynced one nothing.
pub proof fn lemma_gcr_run_no_sync(s: GcrState, x: Seq<Bit>)
    requires
        s.pending.len() < 10,
        forall|k: int| 0 <= k < x.len() && !(#[trigger] x[k]).0 ==> ones_after(s.ones, x.take(k)) < 10,
    ensures
        no_sync(gcr_run(s, x).1),
        gcr_run(s, x).0.synced == s.synced,
        gcr_run(s, x).0.ones == ones_after(s.ones, x),
        s.synced ==> gcr_run(s, x).0.pending.len() == (s.pending.len() + x.len()) % 10,
        s.synced ==> gcr_run(s, x).1.len() == (s.pending.len() + x.len()) / 10,
        !s.synced ==> gcr_run(s, x).0.pending == s.pending,
        !s.synced ==> gcr_run(s, x).1.len() == 0,
    decreases x.len(),
{
    if x.len() > 0 {
        let pre = x.drop_last();
        assert forall|k: int| 0 <= k < pre.len() && !(#[trigger] pre[k]).0 implies ones_after(s.ones, pre.take(k)) < 10 by {
            assert(x[k] == pre[k]);
            assert(pre.take(k) =~= x.take(k));
        }
        lemma_gcr_run_no_sync(s, pre);
        assert(x.take(x.len() - 1) =~= pre);
        let m = gcr_run(s, pre);
        let st = gcr_step(m.0, x.last());
        assert(x.last() == x[x.len() - 1]);
        assert(no_sync(m.1 + st.1)) by {
            assert forall|i: int| 0 <= i < (m.1 + st.1).len() implies #[trigger] (m.1 + st.1)[i] is Byte by {
                if i >= m.1.len() {
                    assert((m.1 + st.1)[i] == st.1[i - m.1.len()]);
                }
            }
        }
    }
}

/// After ten or more one cells, a zero cell that starts the cells of bytes brings a sync;
/// the bytes are then read back one by one.
pub proof fn lemma_gcr_sync_then_bytes(s: GcrState, v: Seq<u8>)
    requires
        s.ones >= 10,
        v.len() >= 1,
        !gcr_cells(v[0])[0].0,
    ensures
        gcr_run(s, gcr_bytes(v)).1 == seq![GcrDecoderResult::Sync] + Seq::new(
            v.len(),
            |i: int| GcrDecoderResult::Byte(v[i]),
        ),
        gcr_run(s, gcr_bytes(v)).0.synced,
        gcr_run(s, gcr_bytes(v)).0.pending.len() == 0,
        gcr_run(s, gcr_bytes(v)).0.ones <= 4,
{
    let b = v[0];
    let rest = v.drop_first();
    let c = gcr_cells(b);
    lemma_gcr_roundtrip(b);
    assert(seq![b] + rest =~= v);
    lemma_gcr_bytes_append(seq![b], rest);
    assert(gcr_bytes(seq![b]) =~= c) by {
        assert(seq![b].drop_last() =~= Seq::<u8>::empty());
        assert(seq![b].last() == b);
        assert(gcr_bytes(Seq::<u8>::empty()) == Seq::<Bit>::empty());
        assert(Seq::<Bit>::empty() + c =~= c);
    }
    let c0 = c.take(1);
    let c1 = c.skip(1);
    assert(c0 + c1 =~= c);
    // the zero cell ends the sync and starts the first word
    let s0 = GcrState { ones: 0, synced: true, pending: Seq::empty() };
    lemma_gcr_byte_prefix(s0, b, 1);
    lemma_gcr_byte_prefix(s0, b, 10);
    assert(c0.drop_last() =~= Seq::<Bit>::empty());
    assert(c0.last() == c[0]);
    assert(c0 =~= seq![c[0]]);
    assert(ones_after(0, c0) == 0);
    assert(gcr_run(s0, c0).0 == GcrState { ones: 0, synced: true, pending: seq![c[0]] });
    let st = gcr_step(s, c[0]);
    assert(st.0 == GcrState { ones: 0, synced: true, pending: seq![c[0]] });
    assert(st.1 == seq![GcrDecoderResult::Sync]);
    assert(gcr_run(s, c0.drop_last()) == (s, Seq::<GcrDecoderResult>::empty()));
    assert(Seq::<GcrDecoderResult>::empty() + st.1 =~= seq![GcrDecoderResult::Sync]);
    assert(gcr_run(s, c0) == (gcr_run(s0, c0).0, seq![GcrDecoderResult::Sync]));
    lemma_gcr_run_append(s0, c0, c1);
    lemma_gcr_run_append(s, c0, c1);
    let mid = gcr_run(s0, c0).0;
    let after_first = gcr_run(mid, c1);
    assert(gcr_run(s0, c0).1 =~= Seq::<GcrDecoderResult>::empty());
    assert(after_first.1 =~= seq![GcrDecoderResult::Byte(b)]);
    // the other bytes
    lemma_gcr_bytes_roundtrip(after_first.0, rest);
    lemma_gcr_run_append(s, c, gcr_bytes(rest));
    assert(seq![GcrDecoderResult::Sync] + seq![GcrDecoderResult::Byte(b)] + Seq::new(
        rest.len(),
        |i: int| GcrDecoderResult::Byte(rest[i]),
    ) =~= seq![GcrDecoderResult::Sync] + Seq::new(v.len(), |i: int| GcrDecoderResult::Byte(v[i])));
}

/// `k` one cells.
pub open spec fn one_cells(k: nat) -> Seq<Bit> {
    Seq::new(k, |i: int| Bit(true))
}

proof fn lemma_ones_from_init(k: nat)
    ensures
        gcr_run(gcr_init(), one_cells(k)) == (
            GcrState { ones: k, synced: false, pending: Seq::empty() },
            Seq::<GcrDecoderResult>::empty(),
        ),
    decreases k,
{
    if k > 0 {
        assert(one_cells(k).drop_last() =~= one_cells((k - 1) as nat));
        lemma_ones_from_init((k - 1) as nat);
        assert(Seq::<GcrDecoderResult>::empty() + Seq::<GcrDecoderResult>::empty()
            =~= Seq::<GcrDecoderResult>::empty());
    }
}

/// A new GCR decoder fed a sync of ten or more one cells and then the cells of some bytes,
/// the first of which starts with a zero cell, gives one sync and then those bytes in order.
pub proof fn lemma_gcr_decoder_reads_sync_and_bytes(k: nat, v: Seq<u8>)
    requires
        k >= 10,
        v.len() >= 1,
        !gcr_cells(v[0])[0].0,
    ensures
        gcr_run(gcr_init(), one_cells(k) + gcr_bytes(v)).1 == seq![GcrDecoderResult::Sync]
            + Seq::new(v.len(), |i: int| GcrDecoderResult::Byte(v[i])),
{
    lemma_ones_from_init(k);
    lemma_gcr_run_append(gcr_init(), one_cells(k), gcr_bytes(v));
    let s = gcr_run(gcr_init(), one_cells(k)).0;
    lemma_gcr_sync_then_bytes(s, v);
    assert(Seq::<GcrDecoderResult>::empty() + gcr_run(s, gcr_bytes(v)).1 =~= gcr_run(
        s,
        gcr_bytes(v),
    ).1);
}

} // verus!
