//! The sync detector of the MFM decoder: three sync words bring it into step, and the cells
//! of MFM encoded data never look like three sync words to it.
use vstd::prelude::*;

use crate::mfm::{
    bytes_bits, dec_init, dec_run, dec_step, lemma_dec_run_append, lemma_mfm_bytes_roundtrip,
    lemma_mfm_encode_cells, mfm_encode, raw_cells, sync_word_cells, triple_sync, DecState,
    MfmWord,
};
use crate::types::Bit;

verus! {

/// The value a cell shifts into the sync detector.
pub open spec fn cell_bit(c: Bit) -> u64 {
    if c.0 {
        1u64
    } else {
        0u64
    }
}

/// The sync detector's cells after `x` were shifted into `w`, newest in bit 0.
pub open spec fn window_of(w: u64, x: Seq<Bit>) -> u64
    decreases x.len(),
{
    if x.len() == 0 {
        w
    } else {
        (window_of(w, x.drop_last()) << 1u64) | cell_bit(x.last())
    }
}

/// The cells of three sync words, as an encoder writes them.
pub open spec fn three_syncs() -> Seq<Bit> {
    sync_word_cells() + sync_word_cells() + sync_word_cells()
}

proof fn lemma_shift_in_bit(w: u64, c: u64, i: u64)
    by (bit_vector)
    requires
        c <= 1,
        i < 64,
    ensures
        i == 0 ==> (((w << 1u64) | c) >> i) & 1u64 == c,
        i > 0 ==> (((w << 1u64) | c) >> i) & 1u64 == (w >> ((i - 1u64) as u64)) & 1u64,
{
}

/// Bit `i` of the window is the cell `i` places before the newest, or a bit of the window
/// before the cells where there were fewer cells.
proof fn lemma_window_bit(w: u64, x: Seq<Bit>, i: u64)
    requires
        i < 64,
    ensures
        (window_of(w, x) >> i) & 1u64 == (if i < x.len() {
            cell_bit(x[x.len() - 1 - i])
        } else {
            (w >> ((i - x.len()) as u64)) & 1u64
        }),
    decreases x.len(),
{
    if x.len() > 0 {
        let p = x.drop_last();
        lemma_shift_in_bit(window_of(w, p), cell_bit(x.last()), i);
        if i > 0 {
            lemma_window_bit(w, p, (i - 1) as u64);
        }
    }
}

/// The bits of three sync words, and facts about them that the detector needs.
proof fn lemma_triple_sync_bits(j: u64, m: u64, w: u64)
    by (bit_vector)
    ensures
        (1 <= j <= 48) ==> ((0x4489_4489_4489u64 >> j) & 0xffff_ffff_ffffu64) != 0x4489_4489_4489u64,
        (w & 0xffff_ffff_ffffu64) == 0x4489_4489_4489u64 && m < 48 ==> (w >> m) & 1u64 == (
            0x4489_4489_4489u64 >> m) & 1u64,
        0x4489_4489_4489u64 >> 48u64 == 0,
        0x4489_4489_4489u64 >> 0u64 == 0x4489_4489_4489u64,
        0x4489_4489_4489u64 & 0xffff_ffff_ffffu64 == 0x4489_4489_4489u64,
        (0x4489_4489_4489u64 >> 0u64) & 1u64 == 1,
        (0x4489_4489_4489u64 >> 1u64) & 1u64 == 0,
        (0x4489_4489_4489u64 >> 2u64) & 1u64 == 0,
        (0x4489_4489_4489u64 >> 3u64) & 1u64 == 1,
        (0x4489_4489_4489u64 >> 4u64) & 1u64 == 0,
        (0x4489_4489_4489u64 >> 5u64) & 1u64 == 0,
        (0x4489_4489_4489u64 >> 6u64) & 1u64 == 0,
        (0x4489_4489_4489u64 >> 7u64) & 1u64 == 1,
        (0x4489_4489_4489u64 >> 8u64) & 1u64 == 0,
        (0x4489_4489_4489u64 >> 9u64) & 1u64 == 0,
        (0x4489_4489_4489u64 >> 10u64) & 1u64 == 1,
        (0x4489_4489_4489u64 >> 11u64) & 1u64 == 0,
        (0x4489_4489_4489u64 >> 12u64) & 1u64 == 0,
        (0x4489_4489_4489u64 >> 13u64) & 1u64 == 0,
        (0x4489_4489_4489u64 >> 14u64) & 1u64 == 1,
        (0x4489_4489_4489u64 >> 15u64) & 1u64 == 0,
        (0x4489_4489_4489u64 >> 16u64) & 1u64 == 1,
{
}

/// Shifting the cells of three sync words in one after the other.
proof fn lemma_sync_cell_step(k: u64)
    by (bit_vector)
    requires
        k < 48,
    ensures
        ((0x4489_4489_4489u64 >> ((48u64 - k) as u64)) << 1u64) | ((0x4489_4489_4489u64 >> ((47u64
            - k) as u64)) & 1u64) == 0x4489_4489_4489u64 >> ((47u64 - k) as u64),
        ((0x4489u32 >> ((15u64 - k % 16u64) as u32)) & 1u32 == 1u32) == ((0x4489_4489_4489u64 >> ((
        47u64 - k) as u64)) & 1u64 == 1u64),
        (0x4489_4489_4489u64 >> ((47u64 - k) as u64)) & 1u64 <= 1,
{
}

/// The decoder state after the first `k` cells of three sync words.
pub open spec fn syncs_state(k: nat) -> DecState {
    if k < 48 {
        DecState { window: triple_sync() >> ((48 - k) as u64), ..dec_init() }
    } else {
        DecState {
            detector_active: true,
            window: triple_sync(),
            synced: true,
            phase: 0,
            data: Seq::empty(),
        }
    }
}

/// A new decoder says nothing until the last cell of three sync words, and then that it is
/// in sync.
proof fn lemma_syncs_prefix(k: nat)
    requires
        k <= 48,
    ensures
        window_of(0, three_syncs().take(k as int)) == triple_sync() >> ((48 - k) as u64),
        dec_run(dec_init(), three_syncs().take(k as int)) == (
            syncs_state(k),
            if k < 48 {
                Seq::<MfmWord>::empty()
            } else {
                seq![MfmWord::SyncWord]
            },
        ),
    decreases k,
{
    lemma_triple_sync_bits(1, 0, 0);
    if k == 0 {
        assert(three_syncs().take(0) =~= Seq::<Bit>::empty());
    } else {
        let j = (k - 1) as nat;
        lemma_syncs_prefix(j);
        let x = three_syncs().take(k as int);
        assert(x.drop_last() =~= three_syncs().take(j as int));
        let sw = sync_word_cells();
        assert(three_syncs()[j as int] == sw[(j % 16) as int]) by {
            if j < 16 {
            } else if j < 32 {
            } else {
            }
        }
        lemma_sync_cell_step(j as u64);
        assert(x.last() == raw_cells(0x4489u32, 16)[(j % 16) as int]);
        assert(x.last().0 == ((0x4489u32 >> ((15u64 - (j as u64) % 16u64) as u32)) & 1u32 == 1u32));
        assert(cell_bit(x.last()) == (triple_sync() >> ((47 - j) as u64)) & 1u64);
        lemma_triple_sync_bits((48 - k) as u64, 0, 0);
    }
}

/// The state `s` with the sync detector switched off.
pub open spec fn detector_off(s: DecState) -> DecState {
    DecState { detector_active: false, ..s }
}

/// While the sync detector never sees three sync words, the decoder reads as it would with
/// the detector off; only the detector's window differs.
proof fn lemma_quiet_detector(on: DecState, x: Seq<Bit>)
    requires
        on.detector_active,
        forall|m: int|
            1 <= m <= x.len() ==> (window_of(on.window, #[trigger] x.take(m)) & 0xffff_ffff_ffffu64)
                != triple_sync(),
    ensures
        dec_run(on, x) == (
            DecState { detector_active: true, window: window_of(on.window, x), ..dec_run(detector_off(on), x).0 },
            dec_run(detector_off(on), x).1,
        ),
        !dec_run(detector_off(on), x).0.detector_active,
    decreases x.len(),
{
    if x.len() > 0 {
        let p = x.drop_last();
        assert forall|m: int| 1 <= m <= p.len() implies (window_of(on.window, #[trigger] p.take(m))
            & 0xffff_ffff_ffffu64) != triple_sync() by {
            assert(p.take(m) =~= x.take(m));
        }
        lemma_quiet_detector(on, p);
        assert(x.take(x.len() as int) =~= x);
    }
}

/// The cells of MFM encoded data, behind three sync words, never look like three sync words
/// to the detector: the sync word breaks the clock rule of MFM.
proof fn lemma_data_never_syncs(bs: Seq<u8>)
    ensures
        forall|m: int|
            1 <= m <= mfm_encode(true, bytes_bits(bs)).len() ==> (window_of(
                triple_sync(),
                #[trigger] mfm_encode(true, bytes_bits(bs)).take(m),
            ) & 0xffff_ffff_ffffu64) != triple_sync(),
{
    let bits = bytes_bits(bs);
    let e = mfm_encode(true, bits);
    lemma_mfm_encode_cells(true, bits);
    lemma_triple_sync_bits(1, 0, 0);
    assert forall|m: int| 1 <= m <= e.len() implies (window_of(triple_sync(), #[trigger] e.take(m))
        & 0xffff_ffff_ffffu64) != triple_sync() by {
        let y = e.take(m);
        let w = window_of(triple_sync(), y);
        if (w & 0xffff_ffff_ffffu64) == triple_sync() {
            if m < 16 {
                // the sync cells still in the window do not line up with themselves
                let i: u64 = if m == 3 || m == 6 {
                    6
                } else if m == 7 || m == 14 {
                    16
                } else if m == 10 {
                    13
                } else {
                    m as u64
                };
                lemma_triple_sync_bits(1, i, w);
                lemma_window_bit(triple_sync(), y, i);
                lemma_triple_sync_bits(1, (i - m) as u64, w);
            } else {
                let q = m - 16;
                let k0 = q / 2;
                if q % 2 == 0 {
                    // a clock cell missing between two zero data cells
                    lemma_triple_sync_bits(1, 6, w);
                    lemma_triple_sync_bits(1, 5, w);
                    lemma_triple_sync_bits(1, 4, w);
                    lemma_window_bit(triple_sync(), y, 6);
                    lemma_window_bit(triple_sync(), y, 5);
                    lemma_window_bit(triple_sync(), y, 4);
                    assert(y[q + 9] == e[2 * (k0 + 4) + 1]);
                    assert(y[q + 10] == e[2 * (k0 + 5)]);
                    assert(y[q + 11] == e[2 * (k0 + 5) + 1]);
                } else {
                    lemma_triple_sync_bits(1, 13, w);
                    lemma_triple_sync_bits(1, 12, w);
                    lemma_triple_sync_bits(1, 11, w);
                    lemma_window_bit(triple_sync(), y, 13);
                    lemma_window_bit(triple_sync(), y, 12);
                    lemma_window_bit(triple_sync(), y, 11);
                    assert(y[q + 2] == e[2 * (k0 + 1) + 1]);
                    assert(y[q + 3] == e[2 * (k0 + 2)]);
                    assert(y[q + 4] == e[2 * (k0 + 2) + 1]);
                }
            }
        }
    }
}

/// A new MFM decoder fed the cells of three sync words and then of the bytes `bs`, as an
/// encoder writes them, reads one sync word and then those bytes in order.
pub proof fn lemma_mfm_decoder_reads_sync_and_bytes(bs: Seq<u8>)
    ensures
        dec_run(dec_init(), three_syncs() + mfm_encode(true, bytes_bits(bs))).1 == seq![
            MfmWord::SyncWord,
        ] + Seq::new(bs.len(), |i: int| MfmWord::Enc(bs[i])),
{
    let e = mfm_encode(true, bytes_bits(bs));
    lemma_syncs_prefix(48);
    assert(three_syncs().take(48) =~= three_syncs());
    let a = syncs_state(48);
    lemma_dec_run_append(dec_init(), three_syncs(), e);
    lemma_data_never_syncs(bs);
    lemma_quiet_detector(a, e);
    lemma_mfm_bytes_roundtrip(detector_off(a), true, bs);
}

} // verus!
