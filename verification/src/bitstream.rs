use vstd::prelude::*;

use crate::bitfacts::{lemma_u8_msb_walk, lemma_u8_shift_in};
use crate::types::Bit;

verus! {

/// Bit `i` of `b`, counting from the most significant bit (`i == 0`).
pub open spec fn msb_bit(b: u8, i: int) -> bool {
    ((b >> ((7 - i) as u8)) & 1u8) == 1u8
}

/// The eight cells of a byte, most significant bit first.
pub open spec fn byte_cells(b: u8) -> Seq<Bit> {
    Seq::new(8, |i: int| Bit(msb_bit(b, i)))
}

/// The cells of a sequence of bytes, each byte most significant bit first.
pub open spec fn bytes_cells(s: Seq<u8>) -> Seq<Bit>
    decreases s.len(),
{
    if s.len() == 0 {
        Seq::empty()
    } else {
        bytes_cells(s.drop_last()) + byte_cells(s.last())
    }
}

/// A byte is determined by its eight cells: packing the cells of a byte gives the byte back.
pub proof fn lemma_byte_cells_injective(a: u8, b: u8)
    requires
        byte_cells(a) == byte_cells(b),
    ensures
        a == b,
{
    assert(byte_cells(a)[0] == byte_cells(b)[0]);
    assert(byte_cells(a)[0].0 == msb_bit(a, 0));
    assert(byte_cells(b)[0].0 == msb_bit(b, 0));
    assert(msb_bit(a, 0) == msb_bit(b, 0));
    assert((((a >> 7u8) & 1u8) == 1u8) == (((b >> 7u8) & 1u8) == 1u8));
    assert(byte_cells(a)[1] == byte_cells(b)[1]);
    assert(byte_cells(a)[1].0 == msb_bit(a, 1));
    assert(byte_cells(b)[1].0 == msb_bit(b, 1));
    assert(msb_bit(a, 1) == msb_bit(b, 1));
    assert((((a >> 6u8) & 1u8) == 1u8) == (((b >> 6u8) & 1u8) == 1u8));
    assert(byte_cells(a)[2] == byte_cells(b)[2]);
    assert(byte_cells(a)[2].0 == msb_bit(a, 2));
    assert(byte_cells(b)[2].0 == msb_bit(b, 2));
    assert(msb_bit(a, 2) == msb_bit(b, 2));
    assert((((a >> 5u8) & 1u8) == 1u8) == (((b >> 5u8) & 1u8) == 1u8));
    assert(byte_cells(a)[3] == byte_cells(b)[3]);
    assert(byte_cells(a)[3].0 == msb_bit(a, 3));
    assert(byte_cells(b)[3].0 == msb_bit(b, 3));
    assert(msb_bit(a, 3) == msb_bit(b, 3));
    assert((((a >> 4u8) & 1u8) == 1u8) == (((b >> 4u8) & 1u8) == 1u8));
    assert(byte_cells(a)[4] == byte_cells(b)[4]);
    assert(byte_cells(a)[4].0 == msb_bit(a, 4));
    assert(byte_cells(b)[4].0 == msb_bit(b, 4));
    assert(msb_bit(a, 4) == msb_bit(b, 4));
    assert((((a >> 3u8) & 1u8) == 1u8) == (((b >> 3u8) & 1u8) == 1u8));
    assert(byte_cells(a)[5] == byte_cells(b)[5]);
    assert(byte_cells(a)[5].0 == msb_bit(a, 5));
    assert(byte_cells(b)[5].0 == msb_bit(b, 5));
    assert(msb_bit(a, 5) == msb_bit(b, 5));
    assert((((a >> 2u8) & 1u8) == 1u8) == (((b >> 2u8) & 1u8) == 1u8));
    assert(byte_cells(a)[6] == byte_cells(b)[6]);
    assert(byte_cells(a)[6].0 == msb_bit(a, 6));
    assert(byte_cells(b)[6].0 == msb_bit(b, 6));
    assert(msb_bit(a, 6) == msb_bit(b, 6));
    assert((((a >> 1u8) & 1u8) == 1u8) == (((b >> 1u8) & 1u8) == 1u8));
    assert(byte_cells(a)[7] == byte_cells(b)[7]);
    assert(byte_cells(a)[7].0 == msb_bit(a, 7));
    assert(byte_cells(b)[7].0 == msb_bit(b, 7));
    assert(msb_bit(a, 7) == msb_bit(b, 7));
    assert((((a >> 0u8) & 1u8) == 1u8) == (((b >> 0u8) & 1u8) == 1u8));
    assert(((((a >> 7u8) & 1u8) == 1u8) == (((b >> 7u8) & 1u8) == 1u8)
        && (((a >> 6u8) & 1u8) == 1u8) == (((b >> 6u8) & 1u8) == 1u8)
        && (((a >> 5u8) & 1u8) == 1u8) == (((b >> 5u8) & 1u8) == 1u8)
        && (((a >> 4u8) & 1u8) == 1u8) == (((b >> 4u8) & 1u8) == 1u8)
        && (((a >> 3u8) & 1u8) == 1u8) == (((b >> 3u8) & 1u8) == 1u8)
        && (((a >> 2u8) & 1u8) == 1u8) == (((b >> 2u8) & 1u8) == 1u8)
        && (((a >> 1u8) & 1u8) == 1u8) == (((b >> 1u8) & 1u8) == 1u8)
        && (((a >> 0u8) & 1u8) == 1u8) == (((b >> 0u8) & 1u8) == 1u8))
        ==> a == b) by (bit_vector);
}

/// The cells of a concatenation are the concatenation of the cells.
pub proof fn lemma_bytes_cells_push(s: Seq<u8>, b: u8)
    ensures
        bytes_cells(s.push(b)) == bytes_cells(s) + byte_cells(b),
{
    assert(s.push(b).drop_last() == s);
}

pub proof fn lemma_bytes_cells_len(s: Seq<u8>)
    ensures
        bytes_cells(s).len() == 8 * s.len(),
    decreases s.len(),
{
    if s.len() > 0 {
        lemma_bytes_cells_len(s.drop_last());
    }
}

/// Appends the eight cells of `inval` to `sink`, most significant bit first.
pub fn to_bit_stream(inval: u8, sink: &mut Vec<Bit>)
    ensures
        final(sink)@ == old(sink)@ + byte_cells(inval),
{
    let ghost start = old(sink)@;
    let mut val: u8 = inval;
    let mut i: u8 = 0;
    proof {
        lemma_u8_msb_walk(inval, 0);
    }
    while i < 8
        invariant
            i <= 8,
            val == inval << i,
            sink@ == start + byte_cells(inval).take(i as int),
        decreases 8 - i,
    {
        let cell = Bit((val & 0x80) != 0);
        proof {
            lemma_u8_msb_walk(inval, i);
        }
        assert(byte_cells(inval).take(i + 1) == byte_cells(inval).take(i as int).push(cell));
        sink.push(cell);
        val = val << 1;
        i = i + 1;
    }
    assert(byte_cells(inval).take(8) == byte_cells(inval));
}

/// Bit number `s` of `w`, counting from the least significant bit.
pub open spec fn shifted_bit(w: u8, s: int) -> bool {
    ((w >> (s as u8)) & 1u8) == 1u8
}

/// Packs a stream of cells into bytes, most significant bit first.
pub struct BitStreamCollector {
    bit_i: u8,
    working_byte: u8,
}

impl View for BitStreamCollector {
    /// The cells received since the last completed byte.
    type V = Seq<Bit>;

    closed spec fn view(&self) -> Seq<Bit> {
        Seq::new(
            self.bit_i as nat,
            |k: int| Bit(shifted_bit(self.working_byte, self.bit_i - 1 - k)),
        )
    }
}

impl BitStreamCollector {
    /// Fewer than eight cells are pending.
    pub closed spec fn wf(&self) -> bool {
        self.bit_i < 8
    }

    pub fn new() -> (r: Self)
        ensures
            r.wf(),
            r@ == Seq::<Bit>::empty(),
    {
        Self { bit_i: 0, working_byte: 0 }
    }

    /// Takes one cell; after every eighth cell the completed byte is appended to `sink`.
    pub fn feed(&mut self, cell: Bit, sink: &mut Vec<u8>)
        requires
            old(self).wf(),
        ensures
            final(self).wf(),
            old(self)@.len() < 7 ==> final(self)@ == old(self)@.push(cell) && final(sink)@ == old(
                sink,
            )@,
            old(self)@.len() == 7 ==> final(self)@ == Seq::<Bit>::empty() && final(sink)@.len()
                == old(sink)@.len() + 1 && final(sink)@.drop_last() == old(sink)@ && byte_cells(
                final(sink)@.last(),
            ) == old(self)@.push(cell),
    {
        let ghost old_view = self@;
        let n = self.bit_i;
        let w = self.working_byte;
        let c: u8 = if cell.0 { 1 } else { 0 };
        let w2: u8 = (w << 1) | c;
        assert forall|k: int| 0 <= k < n implies #[trigger] shifted_bit(w2, n - k) == shifted_bit(
            w,
            n - 1 - k,
        ) by {
            let j: u8 = (n - k) as u8;
            let j1: u8 = (n - 1 - k) as u8;
            lemma_u8_shift_in(w, c, j, j1);
        }
        assert(shifted_bit(w2, 0) == cell.0) by {
            lemma_u8_shift_in(w, c, 1, 0);
        }
        self.working_byte = w2;
        self.bit_i = n + 1;
        assert(self@ =~= old_view.push(cell));
        if self.bit_i == 8 {
            self.bit_i = 0;
            sink.push(w2);
            assert(byte_cells(w2) =~= old_view.push(cell));
            assert(self@ =~= Seq::<Bit>::empty());
        }
    }
}

/// Packs `cells` into bytes through a [`BitStreamCollector`]; cells after the last
/// complete byte are dropped.
pub fn pack_cells(cells: &[Bit]) -> (r: Vec<u8>)
    ensures
        bytes_cells(r@) == cells@.take(8 * (cells@.len() / 8) as int),
        r@.len() == cells@.len() / 8,
{
    let mut out: Vec<u8> = Vec::new();
    let mut collector = BitStreamCollector::new();
    let mut i: usize = 0;
    while i < cells.len()
        invariant
            i <= cells@.len(),
            collector.wf(),
            bytes_cells(out@) + collector@ == cells@.take(i as int),
            collector@.len() == i % 8,
            out@.len() == i / 8,
        decreases cells@.len() - i,
    {
        let ghost before = out@;
        let ghost pending = collector@;
        collector.feed(cells[i], &mut out);
        proof {
            if pending.len() == 7 {
                lemma_bytes_cells_push(before, out@.last());
                assert(out@ == before.push(out@.last()));
            }
            assert(cells@.take(i + 1) == cells@.take(i as int).push(cells@[i as int]));
        }
        i = i + 1;
    }
    proof {
        lemma_bytes_cells_len(out@);
        assert(cells@.take(i as int) == cells@);
        assert(cells@.take(8 * (cells@.len() / 8) as int) == (bytes_cells(out@) + collector@).take(
            8 * (cells@.len() / 8) as int,
        ));
    }
    out
}

/// Bytes are determined by their cells.
pub proof fn lemma_bytes_cells_injective(a: Seq<u8>, b: Seq<u8>)
    requires
        bytes_cells(a) == bytes_cells(b),
    ensures
        a == b,
    decreases a.len(),
{
    lemma_bytes_cells_len(a);
    lemma_bytes_cells_len(b);
    if a.len() > 0 {
        let n = 8 * (a.len() - 1);
        lemma_bytes_cells_len(a.drop_last());
        lemma_bytes_cells_len(b.drop_last());
        assert(bytes_cells(a.drop_last()) =~= bytes_cells(a).take(n));
        assert(bytes_cells(b.drop_last()) =~= bytes_cells(b).take(n));
        assert(byte_cells(a.last()) =~= bytes_cells(a).skip(n));
        assert(byte_cells(b.last()) =~= bytes_cells(b).skip(n));
        lemma_bytes_cells_injective(a.drop_last(), b.drop_last());
        lemma_byte_cells_injective(a.last(), b.last());
        assert(a =~= a.drop_last().push(a.last()));
        assert(b =~= b.drop_last().push(b.last()));
    } else {
        assert(a =~= b);
    }
}

/// Collecting the cells of a sequence of bytes, followed by fewer than eight more cells,
/// gives those bytes back in order; the cells behind the last byte give no byte. `r` is what
/// [`pack_cells`] returns for those cells.
pub proof fn lemma_collect_bytes_roundtrip(bs: Seq<u8>, extra: Seq<Bit>, r: Seq<u8>)
    requires
        extra.len() < 8,
        bytes_cells(r) == (bytes_cells(bs) + extra).take(
            8 * ((bytes_cells(bs) + extra).len() / 8) as int,
        ),
    ensures
        r == bs,
{
    lemma_bytes_cells_len(bs);
    let cells = bytes_cells(bs) + extra;
    assert((8 * bs.len() + extra.len()) / 8 == bs.len()) by (nonlinear_arith)
        requires
            extra.len() < 8,
    ;
    assert(cells.take(8 * bs.len() as int) =~= bytes_cells(bs));
    lemma_bytes_cells_injective(r, bs);
}

} // verus!
