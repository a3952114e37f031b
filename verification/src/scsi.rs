//! The mass storage side of the device: bulk only transport wrappers, the SCSI commands it
//! answers, and the block cache of the disk it offers.
use std::collections::VecDeque;

use vstd::prelude::*;

use crate::bitfacts::lemma_le_word_bytes;
use crate::bytes::{be16, le32, read_be16, read_le32};
use crate::track_parser::CollectedSector;

verus! {

/// SCSI operation codes of SPC-3 that the device knows.
#[derive(Clone, Copy, Debug, PartialEq, Eq, Structural)]
pub enum OpCode {
    TestUnitReady,
    RequestSense,
    Format,
    Read6,
    Write6,
    Inquiry,
    ReadCapacity10,
    Read10,
    SendDiagnostic,
    ReportLuns,
    ModeSense6,
    ModeSense10,
    ModeSelect6,
    StartStopUnit,
    PreventAllowMediumRemoval,
    ReadFormatCapacities,
    Write10,
    Verify10,
    SynchronizeCache10,
    ReadTocPmaAtip,
    ModeSelect10,
    Read12,
    Write12,
}

/// The byte that stands for each operation.
pub open spec fn opcode_byte(op: OpCode) -> u8 {
    match op {
        OpCode::TestUnitReady => 0x00,
        OpCode::RequestSense => 0x03,
        OpCode::Format => 0x04,
        OpCode::Read6 => 0x08,
        OpCode::Write6 => 0x0A,
        OpCode::Inquiry => 0x12,
        OpCode::ReadCapacity10 => 0x25,
        OpCode::Read10 => 0x28,
        OpCode::SendDiagnostic => 0x1D,
        OpCode::ReportLuns => 0xA0,
        OpCode::ModeSense6 => 0x1A,
        OpCode::ModeSense10 => 0x5A,
        OpCode::ModeSelect6 => 0x15,
        OpCode::StartStopUnit => 0x1B,
        OpCode::PreventAllowMediumRemoval => 0x1E,
        OpCode::ReadFormatCapacities => 0x23,
        OpCode::Write10 => 0x2A,
        OpCode::Verify10 => 0x2F,
        OpCode::SynchronizeCache10 => 0x35,
        OpCode::ReadTocPmaAtip => 0x43,
        OpCode::ModeSelect10 => 0x55,
        OpCode::Read12 => 0xA8,
        OpCode::Write12 => 0xAA,
    }
}

impl OpCode {
    /// The byte of this operation.
    pub fn code(self) -> (r: u8)
        ensures
            r == opcode_byte(self),
    {
        match self {
            OpCode::TestUnitReady => 0x00,
            OpCode::RequestSense => 0x03,
            OpCode::Format => 0x04,
            OpCode::Read6 => 0x08,
            OpCode::Write6 => 0x0A,
            OpCode::Inquiry => 0x12,
            OpCode::ReadCapacity10 => 0x25,
            OpCode::Read10 => 0x28,
            OpCode::SendDiagnostic => 0x1D,
            OpCode::ReportLuns => 0xA0,
            OpCode::ModeSense6 => 0x1A,
            OpCode::ModeSense10 => 0x5A,
            OpCode::ModeSelect6 => 0x15,
            OpCode::StartStopUnit => 0x1B,
            OpCode::PreventAllowMediumRemoval => 0x1E,
            OpCode::ReadFormatCapacities => 0x23,
            OpCode::Write10 => 0x2A,
            OpCode::Verify10 => 0x2F,
            OpCode::SynchronizeCache10 => 0x35,
            OpCode::ReadTocPmaAtip => 0x43,
            OpCode::ModeSelect10 => 0x55,
            OpCode::Read12 => 0xA8,
            OpCode::Write12 => 0xAA,
        }
    }

    /// The operation that a byte stands for, if it is one of them.
    pub fn from_u8(b: u8) -> (r: Option<OpCode>)
        ensures
            r matches Some(op) ==> opcode_byte(op) == b,
            r is None ==> forall|op: OpCode| opcode_byte(op) != b,
    {
        let r = match b {
            0x00 => Some(OpCode::TestUnitReady),
            0x03 => Some(OpCode::RequestSense),
            0x04 => Some(OpCode::Format),
            0x08 => Some(OpCode::Read6),
            0x0A => Some(OpCode::Write6),
            0x12 => Some(OpCode::Inquiry),
            0x25 => Some(OpCode::ReadCapacity10),
            0x28 => Some(OpCode::Read10),
            0x1D => Some(OpCode::SendDiagnostic),
            0xA0 => Some(OpCode::ReportLuns),
            0x1A => Some(OpCode::ModeSense6),
            0x5A => Some(OpCode::ModeSense10),
            0x15 => Some(OpCode::ModeSelect6),
            0x1B => Some(OpCode::StartStopUnit),
            0x1E => Some(OpCode::PreventAllowMediumRemoval),
            0x23 => Some(OpCode::ReadFormatCapacities),
            0x2A => Some(OpCode::Write10),
            0x2F => Some(OpCode::Verify10),
            0x35 => Some(OpCode::SynchronizeCache10),
            0x43 => Some(OpCode::ReadTocPmaAtip),
            0x55 => Some(OpCode::ModeSelect10),
            0xA8 => Some(OpCode::Read12),
            0xAA => Some(OpCode::Write12),
            _ => None,
        };
        proof {
            if r is None {
                assert forall|op: OpCode| opcode_byte(op) != b by {
                    match op {
                        _ => {},
                    }
                }
            }
        }
        r
    }
}

/// Each operation's byte reads back as that operation.
pub proof fn lemma_opcode_roundtrip(op: OpCode, other: OpCode)
    ensures
        opcode_byte(op) == opcode_byte(other) ==> op == other,
{
}

/// A medium that the device offers as blocks of 512 bytes.
pub trait BlockDevice {
    /// Whether a medium is there.
    spec fn has_medium(&self) -> bool;

    /// The address of the last block.
    spec fn last_lba(&self) -> u32;

    fn medium_present(&self) -> (r: bool)
        ensures
            r == self.has_medium(),
    ;

    fn max_lba(&self) -> (r: u32)
        ensures
            r == self.last_lba(),
    ;
}

/// The command block wrapper of the bulk only transport.
#[derive(Debug, Clone, PartialEq, Eq)]
pub struct CommandBlockWrapper {
    pub tag: u32,
    pub data_transfer_length: u32,
    pub device_to_host: bool,
    pub command_block: Vec<u8>,
}

/// "USBC", little endian.
pub const CBW_SIGNATURE: u32 = 0x4342_5355;

/// "USBS", little endian.
pub const CSW_SIGNATURE: u32 = 0x5342_5355;

/// A packet of `count` bytes is a command block wrapper for logical unit 0.
pub open spec fn cbw_valid(b: Seq<u8>, count: nat) -> bool {
    &&& b.len() == 64
    &&& le32(b, 0) == CBW_SIGNATURE
    &&& count == 31
    &&& b[13] & 0x0fu8 == 0
}

/// Reads a command block wrapper from the 64 byte receive buffer that got `count` bytes;
/// `None` where the device stops on it: a wrong signature, size or logical unit.
pub fn parse_cbw(buf: &[u8], count: usize) -> (r: Option<CommandBlockWrapper>)
    ensures
        r is Some <==> cbw_valid(buf@, count as nat),
        r matches Some(c) ==> {
            &&& c.tag == le32(buf@, 4)
            &&& c.data_transfer_length == le32(buf@, 8)
            &&& c.device_to_host == (buf@[12] & 0x80u8 != 0)
            &&& c.command_block@ == buf@.subrange(15, 15 + (buf@[14] & 0x1fu8) as int)
        },
{
    if buf.len() != 64 || count != 31 {
        return None;
    }
    let signature = read_le32(buf, 0).unwrap();
    if signature != CBW_SIGNATURE || buf[13] & 0x0f != 0 {
        return None;
    }
    let flags_length = buf[14];
    assert(flags_length & 0x1fu8 <= 31) by (bit_vector);
    let length = (flags_length & 0x1f) as usize;
    let mut command_block: Vec<u8> = Vec::new();
    let mut i: usize = 15;
    while i < 15 + length
        invariant
            15 <= i <= 15 + length,
            length <= 31,
            buf@.len() == 64,
            command_block@ == buf@.subrange(15, i as int),
        decreases 15 + length - i,
    {
        command_block.push(buf[i]);
        i = i + 1;
        assert(command_block@ =~= buf@.subrange(15, i as int));
    }
    Some(
        CommandBlockWrapper {
            tag: read_le32(buf, 4).unwrap(),
            data_transfer_length: read_le32(buf, 8).unwrap(),
            device_to_host: buf[12] & 0x80 != 0,
            command_block,
        },
    )
}

fn push_le32(v: &mut Vec<u8>, x: u32)
    ensures
        final(v)@.len() == old(v)@.len() + 4,
        le32(final(v)@, old(v)@.len() as int) == x,
        final(v)@.subrange(0, old(v)@.len() as int) == old(v)@,
{
    let ghost start = v@;
    v.push((x & 0xff) as u8);
    v.push(((x >> 8) & 0xff) as u8);
    v.push(((x >> 16) & 0xff) as u8);
    v.push(((x >> 24) & 0xff) as u8);
    let ghost n = start.len() as int;
    assert(v@.subrange(0, n) =~= start);
    let b0 = (x & 0xff) as u8;
    let b1 = ((x >> 8) & 0xff) as u8;
    let b2 = ((x >> 16) & 0xff) as u8;
    let b3 = ((x >> 24) & 0xff) as u8;
    assert(v@[n] == b0 && v@[n + 1] == b1 && v@[n + 2] == b2 && v@[n + 3] == b3);
    proof {
        lemma_le_word_bytes(x, b0, b1, b2, b3);
    }
}

/// The command status wrapper that answers the command with tag `tag`: the residue is the
/// count of a successful command, else the length of its command block, and the status is
/// 0 for success and 1 for failure.
pub fn command_status_wrapper(tag: u32, result: Result<usize, ()>, command_block_length: usize) -> (r: Vec<u8>)
    requires
        result matches Ok(n) ==> n <= u32::MAX,
        command_block_length <= u32::MAX,
    ensures
        r@.len() == 13,
        le32(r@, 0) == CSW_SIGNATURE,
        le32(r@, 4) == tag,
        le32(r@, 8) == (match result {
            Ok(n) => n,
            Err(_) => command_block_length,
        }),
        r@[12] == (if result is Ok { 0u8 } else { 1u8 }),
{
    let residue = match result {
        Ok(n) => n,
        Err(_) => command_block_length,
    };
    let mut r: Vec<u8> = Vec::new();
    push_le32(&mut r, CSW_SIGNATURE);
    let ghost first = r@;
    push_le32(&mut r, tag);
    let ghost second = r@;
    push_le32(&mut r, residue as u32);
    r.push(if result.is_ok() { 0 } else { 1 });
    assert(r@.subrange(0, 8) =~= second);
    assert(r@.subrange(0, 4) =~= first);
    assert(le32(r@, 0) == le32(first, 0));
    assert(le32(r@, 4) == le32(second, 4));
    r
}

/// What the device does for a SCSI command.
#[derive(Debug, Clone, PartialEq, Eq)]
pub enum ScsiAction {
    /// Send these bytes; the command succeeded with this residue count.
    Send { data: Vec<u8>, count: usize },
    /// Nothing to send; the command succeeded with residue 0.
    Done,
    /// Send `blocks` blocks from `lba` on, 512 bytes each; then succeed with residue 0.
    ReadBlocks { lba: u32, blocks: u32 },
    /// Receive `blocks` blocks and write them from `lba` on; then succeed with residue 0.
    WriteBlocks { lba: u32, blocks: u32 },
    /// The command failed.
    Failed,
}

/// The standard inquiry data of the device.
pub open spec fn inquiry_data() -> Seq<u8> {
    seq![
        0x00u8, 0x80, 0x06, 2, 32, 0, 0, 0, 0x53, 0x6c, 0x61, 0x6d, 0x79, 0x20, 0x20, 0x20, 0x53,
        0x54, 0x4d, 0x33, 0x32, 0x2d, 0x55, 0x53, 0x42, 0x46, 0x6c, 0x6f, 0x70, 0x70, 0x79, 0x20,
        0x30, 0x30, 0x30, 0x31,
    ]
}

/// The mode parameters: write protected, read cache enabled.
pub open spec fn mode_sense_data() -> Seq<u8> {
    seq![6u8, 0, 0x80, 0, 0x08, 1, 0]
}

/// Fixed format sense data with sense key `key` and additional sense code `asc`.
pub open spec fn sense_data(key: u8, asc: u8) -> Seq<u8> {
    seq![0x70u8, 0, key, 0, 0, 0, 0, 10, 0, 0, 0, 0, asc, 0, 0, 0, 0, 0]
}

/// One formatted capacity descriptor: 2880 blocks of 512 bytes.
pub open spec fn format_capacities_data() -> Seq<u8> {
    seq![0u8, 0, 0, 0x08, 0x00, 0x00, 0x0B, 0x40, 0x02, 0x00, 0x02, 0x00]
}

/// The capacity: the last block's address and 512, both big endian.
pub open spec fn capacity_data(max_lba: u32) -> Seq<u8> {
    seq![
        (max_lba >> 24u32) as u8,
        ((max_lba >> 16u32) & 0xffu32) as u8,
        ((max_lba >> 8u32) & 0xffu32) as u8,
        (max_lba & 0xffu32) as u8,
        0,
        0,
        2,
        0,
    ]
}

/// The commands the device answers, with command blocks long enough for their fields, and
/// block transfers whose addresses stay within 32 bits.
pub open spec fn scsi_supported(cb: Seq<u8>, medium_present: bool) -> bool {
    cb.len() >= 1 && {
        let b = cb[0];
        if b == opcode_byte(OpCode::Read10) || b == opcode_byte(OpCode::Write10) {
            !medium_present || (cb.len() >= 9 && (be16(cb, 7) == 0 || be32_at(cb, 2) + be16(cb, 7) <= u32::MAX + 1))
        } else {
            b == opcode_byte(OpCode::Inquiry) || b == opcode_byte(OpCode::ReadCapacity10) || b
                == opcode_byte(OpCode::TestUnitReady) || b == opcode_byte(OpCode::ModeSense6) || b
                == opcode_byte(OpCode::RequestSense) || b == opcode_byte(
                OpCode::PreventAllowMediumRemoval,
            ) || b == opcode_byte(OpCode::ReadFormatCapacities)
        }
    }
}

/// The big endian 32 bit number at `p`.
pub open spec fn be32_at(b: Seq<u8>, p: int) -> int {
    b[p] * 0x100_0000 + b[p + 1] * 0x1_0000 + b[p + 2] * 0x100 + b[p + 3]
}

/// What the device does for the command block `cb`, given whether a medium is present and
/// the address of its last block.
pub open spec fn scsi_action_spec(cb: Seq<u8>, medium_present: bool, max_lba: u32) -> ScsiActionView {
    let b = cb[0];
    if b == opcode_byte(OpCode::Inquiry) {
        ScsiActionView::Send { data: inquiry_data(), count: 36 }
    } else if b == opcode_byte(OpCode::ReadCapacity10) {
        if medium_present {
            ScsiActionView::Send { data: capacity_data(max_lba), count: 8 }
        } else {
            ScsiActionView::Failed
        }
    } else if b == opcode_byte(OpCode::TestUnitReady) {
        if medium_present {
            ScsiActionView::Done
        } else {
            ScsiActionView::Failed
        }
    } else if b == opcode_byte(OpCode::ModeSense6) {
        ScsiActionView::Send { data: mode_sense_data(), count: 7 }
    } else if b == opcode_byte(OpCode::Read10) {
        if medium_present {
            ScsiActionView::ReadBlocks { lba: be32_at(cb, 2) as u32, blocks: be16(cb, 7) as u32 }
        } else {
            ScsiActionView::Failed
        }
    } else if b == opcode_byte(OpCode::Write10) {
        if medium_present {
            ScsiActionView::WriteBlocks { lba: be32_at(cb, 2) as u32, blocks: be16(cb, 7) as u32 }
        } else {
            ScsiActionView::Failed
        }
    } else if b == opcode_byte(OpCode::RequestSense) {
        if medium_present {
            ScsiActionView::Send { data: sense_data(0x5, 0x20), count: 18 }
        } else {
            ScsiActionView::Send { data: sense_data(0x2, 0x3a), count: 18 }
        }
    } else if b == opcode_byte(OpCode::PreventAllowMediumRemoval) {
        ScsiActionView::Failed
    } else {
        ScsiActionView::Send { data: format_capacities_data(), count: 0 }
    }
}

/// An action with the bytes to send as a sequence.
pub enum ScsiActionView {
    Send { data: Seq<u8>, count: usize },
    Done,
    ReadBlocks { lba: u32, blocks: u32 },
    WriteBlocks { lba: u32, blocks: u32 },
    Failed,
}

pub open spec fn scsi_action_view(a: ScsiAction) -> ScsiActionView {
    match a {
        ScsiAction::Send { data, count } => ScsiActionView::Send { data: data@, count },
        ScsiAction::Done => ScsiActionView::Done,
        ScsiAction::ReadBlocks { lba, blocks } => ScsiActionView::ReadBlocks { lba, blocks },
        ScsiAction::WriteBlocks { lba, blocks } => ScsiActionView::WriteBlocks { lba, blocks },
        ScsiAction::Failed => ScsiActionView::Failed,
    }
}

/// Whether the device answers this command block; it stops on any other.
pub fn scsi_command_supported(cb: &[u8], medium_present: bool) -> (r: bool)
    ensures
        r == scsi_supported(cb@, medium_present),
{
    if cb.len() < 1 {
        return false;
    }
    let b = cb[0];
    if b == 0x28 || b == 0x2A {
        if !medium_present {
            return true;
        }
        if cb.len() < 9 {
            return false;
        }
        let lba = big_endian_u32(cb, 2);
        let count = read_be16(cb, 7).unwrap();
        count == 0 || lba as u64 + count as u64 <= u32::MAX as u64 + 1
    } else {
        b == 0x12 || b == 0x25 || b == 0x00 || b == 0x1A || b == 0x03 || b == 0x1E || b == 0x23
    }
}

fn big_endian_u32(cb: &[u8], p: usize) -> (r: u32)
    requires
        p + 4 <= cb@.len(),
    ensures
        r == be32_at(cb@, p as int),
{
    let r = ((cb[p] as u32) << 24) | ((cb[p + 1] as u32) << 16) | ((cb[p + 2] as u32) << 8) | (cb[p + 3] as u32);
    let b0 = cb[p];
    let b1 = cb[p + 1];
    let b2 = cb[p + 2];
    let b3 = cb[p + 3];
    assert((((b0 as u32) << 24u32) | ((b1 as u32) << 16u32) | ((b2 as u32) << 8u32) | (b3 as u32)) == b0
        * 0x100_0000 + b1 * 0x1_0000 + b2 * 0x100 + b3) by (bit_vector);
    r
}

fn seq_vec(data: &[u8]) -> (r: Vec<u8>)
    ensures
        r@ == data@,
{
    let mut r: Vec<u8> = Vec::new();
    let mut i: usize = 0;
    while i < data.len()
        invariant
            i <= data@.len(),
            r@ == data@.take(i as int),
        decreases data@.len() - i,
    {
        r.push(data[i]);
        i = i + 1;
        assert(r@ =~= data@.take(i as int));
    }
    assert(data@.take(data@.len() as int) =~= data@);
    r
}

/// Decides how the device answers a SCSI command, given whether a medium is present and
/// the address of the last block.
pub fn scsi_action(cb: &[u8], medium_present: bool, max_lba: u32) -> (r: ScsiAction)
    requires
        scsi_supported(cb@, medium_present),
    ensures
        scsi_action_view(r) == scsi_action_spec(cb@, medium_present, max_lba),
{
    let b = cb[0];
    if b == 0x12 {
        let data = vec![
            0x00u8, 0x80, 0x06, 2, 32, 0, 0, 0, 0x53, 0x6c, 0x61, 0x6d, 0x79, 0x20, 0x20, 0x20,
            0x53, 0x54, 0x4d, 0x33, 0x32, 0x2d, 0x55, 0x53, 0x42, 0x46, 0x6c, 0x6f, 0x70, 0x70,
            0x79, 0x20, 0x30, 0x30, 0x30, 0x31,
        ];
        assert(data@ =~= inquiry_data());
        ScsiAction::Send { data, count: 36 }
    } else if b == 0x25 {
        if medium_present {
            let data = vec![
                (max_lba >> 24) as u8,
                ((max_lba >> 16) & 0xff) as u8,
                ((max_lba >> 8) & 0xff) as u8,
                (max_lba & 0xff) as u8,
                0,
                0,
                2,
                0,
            ];
            assert(data@ =~= capacity_data(max_lba));
            ScsiAction::Send { data, count: 8 }
        } else {
            ScsiAction::Failed
        }
    } else if b == 0x00 {
        if medium_present {
            ScsiAction::Done
        } else {
            ScsiAction::Failed
        }
    } else if b == 0x1A {
        let data = vec![6u8, 0, 0x80, 0, 0x08, 1, 0];
        assert(data@ =~= mode_sense_data());
        ScsiAction::Send { data, count: 7 }
    } else if b == 0x28 || b == 0x2A {
        if medium_present {
            let lba = big_endian_u32(cb, 2);
            let blocks = read_be16(cb, 7).unwrap() as u32;
            if b == 0x28 {
                ScsiAction::ReadBlocks { lba, blocks }
            } else {
                ScsiAction::WriteBlocks { lba, blocks }
            }
        } else {
            ScsiAction::Failed
        }
    } else if b == 0x03 {
        let data = if medium_present {
            vec![0x70u8, 0, 0x5, 0, 0, 0, 0, 10, 0, 0, 0, 0, 0x20, 0, 0, 0, 0, 0]
        } else {
            vec![0x70u8, 0, 0x2, 0, 0, 0, 0, 10, 0, 0, 0, 0, 0x3a, 0, 0, 0, 0, 0]
        };
        assert(medium_present ==> data@ =~= sense_data(0x5, 0x20));
        assert(!medium_present ==> data@ =~= sense_data(0x2, 0x3a));
        ScsiAction::Send { data, count: 18 }
    } else if b == 0x1E {
        ScsiAction::Failed
    } else {
        let data = vec![0u8, 0, 0, 0x08, 0x00, 0x00, 0x0B, 0x40, 0x02, 0x00, 0x02, 0x00];
        assert(data@ =~= format_capacities_data());
        ScsiAction::Send { data, count: 0 }
    }
}

/// The SCSI command processor of the mass storage class, over a block device.
pub struct MscScsiProcess<D: BlockDevice> {
    pub block_device: D,
}

impl<D: BlockDevice> MscScsiProcess<D> {
    /// Whether the device answers this command block with the current medium.
    pub fn supports(&self, cb: &[u8]) -> (r: bool)
        ensures
            r == scsi_supported(cb@, self.block_device.has_medium()),
    {
        scsi_command_supported(cb, self.block_device.medium_present())
    }

    /// Decides how to answer a command block: the device asks its block device whether a
    /// medium is present and for its last block, and answers as `scsi_action` does for
    /// what they reported.
    pub fn process_scsi_command(&self, cb: &[u8]) -> (r: Option<ScsiAction>)
        ensures
            r is None <==> !scsi_supported(cb@, self.block_device.has_medium()),
            r matches Some(a) ==> scsi_action_view(a) == scsi_action_spec(
                cb@,
                self.block_device.has_medium(),
                self.block_device.last_lba(),
            ),
    {
        let present = self.block_device.medium_present();
        if !scsi_command_supported(cb, present) {
            return None;
        }
        let max_lba = self.block_device.max_lba();
        let a = scsi_action(cb, present, max_lba);
        Some(a)
    }
}

/// Tracks of the disk that the device offers.
pub const BLOCK_CYLINDERS: u32 = 80;

pub const BLOCK_HEADS: u32 = 2;

pub const BLOCK_SECTORS_PER_TRACK: u32 = 18;

pub const SECTORS_PER_CYLINDER: u32 = 36;

pub const SECTORS_PER_DISK: u32 = 2880;

/// How many blocks the cache keeps.
pub const CACHE_BLOCKS: usize = 180;

/// A block read from the disk.
#[derive(Debug, Clone, PartialEq, Eq)]
pub struct CacheEntry {
    pub lba: u32,
    pub data: Vec<u8>,
}

/// The 1.44 MB disk offered as blocks, with the blocks of the tracks read last.
pub struct IsoBlockDevice {
    pub cache: VecDeque<CacheEntry>,
}

/// The cylinder, head and address of the first block of the track that holds block `lba`.
pub open spec fn lba_track_spec(lba: u32) -> (u32, u32, u32) {
    let cylinder = lba / SECTORS_PER_CYLINDER;
    let head = (lba % SECTORS_PER_CYLINDER) / BLOCK_SECTORS_PER_TRACK;
    (cylinder, head, (cylinder * SECTORS_PER_CYLINDER + head * BLOCK_SECTORS_PER_TRACK) as u32)
}

/// Where block `lba` lies on the disk.
pub fn lba_track(lba: u32) -> (r: (u32, u32, u32))
    ensures
        r == lba_track_spec(lba),
        r.2 <= lba < r.2 + BLOCK_SECTORS_PER_TRACK,
        r.1 < BLOCK_HEADS,
{
    let cylinder = lba / SECTORS_PER_CYLINDER;
    let cylinder_offset = lba % SECTORS_PER_CYLINDER;
    let head = cylinder_offset / BLOCK_SECTORS_PER_TRACK;
    assert(cylinder * 36 <= lba) by (nonlinear_arith)
        requires
            cylinder == lba / 36,
    ;
    assert(lba == cylinder * 36 + cylinder_offset) by (nonlinear_arith)
        requires
            cylinder == lba / 36,
            cylinder_offset == lba % 36,
    ;
    (cylinder, head, cylinder * SECTORS_PER_CYLINDER + head * BLOCK_SECTORS_PER_TRACK)
}

/// The cache after entries `entries` were added in order, the oldest dropped beyond
/// `CACHE_BLOCKS` entries.
pub open spec fn cache_after(cache: Seq<(u32, Seq<u8>)>, entries: Seq<(u32, Seq<u8>)>) -> Seq<(u32, Seq<u8>)>
    decreases entries.len(),
{
    if entries.len() == 0 {
        cache
    } else {
        let c = cache_after(cache, entries.drop_last()).push(entries.last());
        if c.len() > CACHE_BLOCKS {
            c.drop_first()
        } else {
            c
        }
    }
}

/// The first cached block with address `lba`.
pub open spec fn cache_lookup(cache: Seq<(u32, Seq<u8>)>, lba: u32) -> Option<Seq<u8>>
    decreases cache.len(),
{
    if cache.len() == 0 {
        None
    } else if cache[0].0 == lba {
        Some(cache[0].1)
    } else {
        cache_lookup(cache.drop_first(), lba)
    }
}

pub open spec fn entry_view(e: CacheEntry) -> (u32, Seq<u8>) {
    (e.lba, e.data@)
}

impl IsoBlockDevice {
    pub open spec fn cache_view(&self) -> Seq<(u32, Seq<u8>)> {
        self.cache@.map_values(|e: CacheEntry| entry_view(e))
    }

    /// No more than `CACHE_BLOCKS` blocks are kept.
    pub open spec fn wf(&self) -> bool {
        self.cache@.len() <= CACHE_BLOCKS
    }

    pub fn new() -> (r: Self)
        ensures
            r.wf(),
            r.cache_view() == Seq::<(u32, Seq<u8>)>::empty(),
    {
        let r = IsoBlockDevice { cache: VecDeque::new() };
        assert(r.cache_view() =~= Seq::<(u32, Seq<u8>)>::empty());
        r
    }

    /// The block with address `lba` from the cache, if it is there.
    pub fn cached_block(&self, lba: u32) -> (r: Option<Vec<u8>>)
        ensures
            match cache_lookup(self.cache_view(), lba) {
                None => r is None,
                Some(d) => r matches Some(v) && v@ == d,
            },
    {
        let mut i: usize = 0;
        assert(self.cache_view().skip(0) =~= self.cache_view());
        while i < self.cache.len()
            invariant
                i <= self.cache@.len(),
                cache_lookup(self.cache_view(), lba) == cache_lookup(self.cache_view().skip(i as int), lba),
            decreases self.cache@.len() - i,
        {
            proof {
                let rest = self.cache_view().skip(i as int);
                assert(rest[0] == entry_view(self.cache@[i as int]));
                assert(rest.drop_first() =~= self.cache_view().skip(i + 1));
            }
            if self.cache[i].lba == lba {
                return Some(seq_vec(self.cache[i].data.as_slice()));
            }
            i = i + 1;
        }
        assert(self.cache_view().skip(i as int) =~= Seq::<(u32, Seq<u8>)>::empty());
        None
    }

    /// Adds the sectors read from the track whose first block has address `first_lba`;
    /// sector `index` is block `first_lba + index`.
    pub fn store_track(&mut self, first_lba: u32, sectors: Vec<CollectedSector>)
        requires
            old(self).wf(),
            forall|i: int| 0 <= i < sectors@.len() ==> first_lba + (#[trigger] sectors@[i]).index <= u32::MAX,
        ensures
            final(self).wf(),
            final(self).cache_view() == cache_after(
                old(self).cache_view(),
                sectors@.map_values(|s: CollectedSector| ((first_lba + s.index) as u32, s.payload@)),
            ),
    {
        let ghost entries = sectors@.map_values(|s: CollectedSector| ((first_lba + s.index) as u32, s.payload@));
        let ghost start = self.cache_view();
        let ghost orig = sectors@;
        let mut sectors = sectors;
        let n = sectors.len();
        let mut i: usize = 0;
        while i < n
            invariant
                i <= n,
                n == orig.len(),
                sectors@ == orig.skip(i as int),
                self.wf(),
                entries == orig.map_values(|s: CollectedSector| ((first_lba + s.index) as u32, s.payload@)),
                forall|j: int| 0 <= j < orig.len() ==> first_lba + (#[trigger] orig[j]).index <= u32::MAX,
                self.cache_view() == cache_after(start, entries.take(i as int)),
            decreases n - i,
        {
            let s = sectors.remove(0);
            assert(s == orig[i as int]);
            assert(sectors@ =~= orig.skip(i + 1));
            proof {
                assert(entries.take(i + 1).drop_last() =~= entries.take(i as int));
            }
            self.cache.push_back(CacheEntry { lba: first_lba + s.index, data: s.payload });
            if self.cache.len() > CACHE_BLOCKS {
                self.cache.pop_front();
            }
            assert(self.cache_view() =~= cache_after(start, entries.take(i + 1)));
            i = i + 1;
        }
        assert(entries.take(n as int) =~= entries);
    }
}

proof fn lemma_cache_after_suffix(c: Seq<(u32, Seq<u8>)>, e: Seq<(u32, Seq<u8>)>)
    requires
        c.len() <= CACHE_BLOCKS,
    ensures
        cache_after(c, e) == (c + e).skip(
            if c.len() + e.len() > CACHE_BLOCKS {
                c.len() + e.len() - CACHE_BLOCKS
            } else {
                0
            },
        ),
        cache_after(c, e).len() <= CACHE_BLOCKS,
    decreases e.len(),
{
    if e.len() == 0 {
        assert((c + e).skip(0) =~= c);
    } else {
        let e0 = e.drop_last();
        lemma_cache_after_suffix(c, e0);
        let m0: int = if c.len() + e0.len() > CACHE_BLOCKS {
            c.len() + e0.len() - CACHE_BLOCKS
        } else {
            0
        };
        assert((c + e0).skip(m0).push(e.last()) =~= (c + e).skip(m0));
        if (c + e).skip(m0).len() > CACHE_BLOCKS {
            assert((c + e).skip(m0).drop_first() =~= (c + e).skip(m0 + 1));
        }
    }
}

proof fn lemma_lookup_none_skip(c: Seq<(u32, Seq<u8>)>, lba: u32, m: int)
    requires
        cache_lookup(c, lba) is None,
        0 <= m <= c.len(),
    ensures
        cache_lookup(c.skip(m), lba) is None,
    decreases m,
{
    if m > 0 {
        assert(c.drop_first().skip(m - 1) =~= c.skip(m));
        lemma_lookup_none_skip(c.drop_first(), lba, m - 1);
    } else {
        assert(c.skip(0) =~= c);
    }
}

proof fn lemma_lookup_append(x: Seq<(u32, Seq<u8>)>, y: Seq<(u32, Seq<u8>)>, lba: u32)
    requires
        cache_lookup(x, lba) is None,
    ensures
        cache_lookup(x + y, lba) == cache_lookup(y, lba),
    decreases x.len(),
{
    if x.len() == 0 {
        assert(x + y =~= y);
    } else {
        assert((x + y).drop_first() =~= x.drop_first() + y);
        lemma_lookup_append(x.drop_first(), y, lba);
    }
}

proof fn lemma_lookup_first(y: Seq<(u32, Seq<u8>)>, lba: u32, k: int)
    requires
        0 <= k < y.len(),
        y[k].0 == lba,
        forall|j: int| 0 <= j < k ==> y[j].0 != lba,
    ensures
        cache_lookup(y, lba) == Some(y[k].1),
    decreases k,
{
    if k > 0 {
        lemma_lookup_first(y.drop_first(), lba, k - 1);
    }
}

/// A block that the cache did not hold is found once the sectors of its track were stored,
/// no more of them than the cache keeps: the lookup gives the first stored sector with its
/// address.
pub proof fn lemma_store_then_lookup(
    cache: Seq<(u32, Seq<u8>)>,
    entries: Seq<(u32, Seq<u8>)>,
    lba: u32,
    k: int,
)
    requires
        cache.len() <= CACHE_BLOCKS,
        entries.len() <= CACHE_BLOCKS,
        cache_lookup(cache, lba) is None,
        0 <= k < entries.len(),
        entries[k].0 == lba,
        forall|j: int| 0 <= j < k ==> entries[j].0 != lba,
    ensures
        cache_lookup(cache_after(cache, entries), lba) == Some(entries[k].1),
{
    lemma_cache_after_suffix(cache, entries);
    let m: int = if cache.len() + entries.len() > CACHE_BLOCKS {
        cache.len() + entries.len() - CACHE_BLOCKS
    } else {
        0
    };
    assert((cache + entries).skip(m) =~= cache.skip(m) + entries);
    lemma_lookup_none_skip(cache, lba, m);
    lemma_lookup_append(cache.skip(m), entries, lba);
    lemma_lookup_first(entries, lba, k);
}

/// The cache never holds more than `CACHE_BLOCKS` blocks, whatever is stored.
pub proof fn lemma_cache_bounded(cache: Seq<(u32, Seq<u8>)>, entries: Seq<(u32, Seq<u8>)>)
    requires
        cache.len() <= CACHE_BLOCKS,
    ensures
        cache_after(cache, entries).len() <= CACHE_BLOCKS,
{
    lemma_cache_after_suffix(cache, entries);
}

impl BlockDevice for IsoBlockDevice {
    /// The disk is always there.
    open spec fn has_medium(&self) -> bool {
        true
    }

    open spec fn last_lba(&self) -> u32 {
        (SECTORS_PER_DISK - 1) as u32
    }

    fn medium_present(&self) -> (r: bool) {
        true
    }

    fn max_lba(&self) -> (r: u32) {
        SECTORS_PER_DISK - 1
    }
}

} // verus!
