use vstd::prelude::*;

verus! {

/// One shift of the CRC register: the register moves left by one bit, and where a one left
/// it at the top, the polynomial `0x1021` is added.
pub open spec fn crc16_shift(crc: u16) -> u16 {
    if crc & 0x8000u16 != 0 {
        ((crc << 1u16) ^ 0x1021u16) as u16
    } else {
        (crc << 1u16) as u16
    }
}

/// The register after byte `b`, most significant bit first.
pub open spec fn crc16_byte(crc: u16, b: u8) -> u16 {
    let c = crc ^ ((b as u16) << 8u16);
    crc16_shift(
        crc16_shift(crc16_shift(crc16_shift(crc16_shift(crc16_shift(crc16_shift(crc16_shift(c))))))),
    )
}

/// The CRC-16/CCITT-FALSE checksum of `msg`: polynomial `0x1021`, initial value `0xffff`,
/// neither input nor output reflected, no final xor.
#[verifier::opaque]
pub open spec fn crc16_ccitt_false(msg: Seq<u8>) -> u16
    decreases msg.len(),
{
    if msg.len() == 0 {
        0xffffu16
    } else {
        crc16_byte(crc16_ccitt_false(msg.drop_last()), msg.last())
    }
}

/// Calls `crc16::State::<crc16::CCITT_FALSE>::calculate`, which computes, table driven, the
/// checksum that the crate documents as CRC-16/CCITT-FALSE (`poly=0x1021`, `init=0xffff`,
/// `refin=False`, `refout=False`, `xorout=0x0000`). The contract claims that the result is
/// that checksum of the bytes of `msg`, as [`crc16_ccitt_false`] states it bit by bit.
#[verifier::external_body]
pub(crate) fn crc16_ccitt(msg: &[u8]) -> (r: u16)
    ensures
        r == crc16_ccitt_false(msg@),
{
    crc16::State::<crc16::CCITT_FALSE>::calculate(msg)
}

/// A checksum written after the bytes it covers, high byte first.
pub open spec fn with_crc(msg: Seq<u8>) -> Seq<u8> {
    let crc = crc16_ccitt_false(msg);
    msg + seq![(crc >> 8u16) as u8, (crc & 0xffu16) as u8]
}

/// Two bytes that repeat the register, high byte first, bring it back to zero.
proof fn lemma_register_cancels(
    crc: u16,
    c0: u16,
    c1: u16,
    c2: u16,
    c3: u16,
    c4: u16,
    c5: u16,
    c6: u16,
    c7: u16,
    c8: u16,
    d0: u16,
    d1: u16,
    d2: u16,
    d3: u16,
    d4: u16,
    d5: u16,
    d6: u16,
    d7: u16,
    d8: u16,
) by (bit_vector)
    requires
        c0 == crc ^ ((((crc >> 8u16) as u8) as u16) << 8u16),
        c1 == crc16_shift(c0),
        c2 == crc16_shift(c1),
        c3 == crc16_shift(c2),
        c4 == crc16_shift(c3),
        c5 == crc16_shift(c4),
        c6 == crc16_shift(c5),
        c7 == crc16_shift(c6),
        c8 == crc16_shift(c7),
        d0 == c8 ^ ((((crc & 0xffu16) as u8) as u16) << 8u16),
        d1 == crc16_shift(d0),
        d2 == crc16_shift(d1),
        d3 == crc16_shift(d2),
        d4 == crc16_shift(d3),
        d5 == crc16_shift(d4),
        d6 == crc16_shift(d5),
        d7 == crc16_shift(d6),
        d8 == crc16_shift(d7),
    ensures
        d8 == 0u16,
{
}

/// Checksumming a message followed by its own checksum gives zero: this is how a reader
/// checks a block in one pass.
pub proof fn lemma_crc_residue(msg: Seq<u8>)
    ensures
        crc16_ccitt_false(with_crc(msg)) == 0,
{
    let crc = crc16_ccitt_false(msg);
    let hi = (crc >> 8u16) as u8;
    let lo = (crc & 0xffu16) as u8;
    let m1 = msg.push(hi);
    let m2 = m1.push(lo);
    assert(with_crc(msg) =~= m2);
    assert(m2.drop_last() =~= m1);
    assert(m1.drop_last() =~= msg);
    reveal_with_fuel(crc16_ccitt_false, 3);
    let c0 = crc ^ ((hi as u16) << 8u16);
    let c1 = crc16_shift(c0);
    let c2 = crc16_shift(c1);
    let c3 = crc16_shift(c2);
    let c4 = crc16_shift(c3);
    let c5 = crc16_shift(c4);
    let c6 = crc16_shift(c5);
    let c7 = crc16_shift(c6);
    let c8 = crc16_shift(c7);
    let d0 = c8 ^ ((lo as u16) << 8u16);
    let d1 = crc16_shift(d0);
    let d2 = crc16_shift(d1);
    let d3 = crc16_shift(d2);
    let d4 = crc16_shift(d3);
    let d5 = crc16_shift(d4);
    let d6 = crc16_shift(d5);
    let d7 = crc16_shift(d6);
    let d8 = crc16_shift(d7);
    lemma_register_cancels(
        crc, c0, c1, c2, c3, c4, c5, c6, c7, c8, d0, d1, d2, d3, d4, d5, d6, d7, d8,
    );
    assert(crc16_ccitt_false(m1) == c8);
    assert(crc16_ccitt_false(m2) == d8);
}

} // verus!
