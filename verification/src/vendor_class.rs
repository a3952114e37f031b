//! The device's side of the USB vendor protocol: commands arrive in packets of at most 64
//! bytes, the cell bytes of a track to write in the blocks that follow a write command,
//! and answers wait in a queue until the bus takes them.
use std::collections::VecDeque;

use vstd::prelude::*;
use vstd::string::StringSliceAdditionalSpecFns;

use crate::bytes::{le32, read_le32};
use crate::types::{
    total_cellbytes, Cylinder, Density, DensityMapEntry, DriveSelectState, Head, PulseDuration,
    RawCellData, Track,
};
use crate::rawtrack::RawTrack;
use crate::usb_protocol::{
    block_count, command_word, decode_spec, lemma_write_header_roundtrip, run_fits, run_of_word,
    write_header_error, write_track_word, run_word, CommandView, CMD_CONFIGURE, CMD_READ_TRACK,
    CMD_STEP_TO_TRACK, CMD_WRITE_TRACK,
};

verus! {

/// Size of the packets of the vendor endpoints.
pub const MAX_PACKET: usize = 64;

/// Work that the host asked for and that the device still has to do.
pub enum Command {
    WriteVerifyRawTrack { track: Track, raw_cell_data: RawCellData, write_precompensation: PulseDuration },
    ReadTrack { track: Track, duration_to_record: u32, wait_for_index: bool },
}

/// What the firmware around the protocol has to do after a packet: the protocol itself
/// only keeps state.
#[derive(Debug, Clone, Copy, PartialEq, Eq)]
pub enum VendorAction {
    Nothing,
    /// Configure the index simulation and select drive and density.
    Configure { select_drive: DriveSelectState, density: Density, index_sim_frequency: u32 },
    /// Move the head of the selected drive to a track on head 0.
    StepToTrack { track: Track },
    /// A command word the device does not know; it is ignored.
    UnknownCommand,
}

/// The state of the vendor protocol of the device.
pub struct FloppyTracerVendorClass {
    pub receive_buffer: Vec<u8>,
    pub speeds: Vec<DensityMapEntry>,
    pub remaining_blocks: u32,
    pub expected_size: usize,
    pub cylinder: u32,
    pub head: u32,
    pub has_non_flux_reversal_area: bool,
    pub write_precompensation: PulseDuration,
    pub tx_buffer: VecDeque<Vec<u8>>,
    pub current_command: Option<Command>,
}

/// A packet as the device's 64 byte receive buffer holds it: zeros behind the data.
pub open spec fn padded_packet(p: Seq<u8>) -> Seq<u8> {
    p + Seq::new((MAX_PACKET - p.len()) as nat, |i: int| 0u8)
}

/// The track that a packed configuration word names: cylinder in the low byte, head in
/// bit 8.
pub open spec fn packed_track(packed: u32) -> Track {
    Track { cylinder: Cylinder((packed & 0xffu32) as u8), head: Head(((packed >> 8u32) & 1u32) as u8) }
}

/// How many runs of the density map a write command packet holds: as many as it announces,
/// but no more than fit behind its five words.
pub open spec fn runs_in_packet(n: u32) -> nat {
    if n <= 11 {
        n as nat
    } else {
        11
    }
}

/// Everything but the answer queue and the pending command is as before.
pub open spec fn same_transfer_state(a: FloppyTracerVendorClass, b: FloppyTracerVendorClass) -> bool {
    &&& a.receive_buffer@ == b.receive_buffer@
    &&& a.speeds@ == b.speeds@
    &&& a.remaining_blocks == b.remaining_blocks
    &&& a.expected_size == b.expected_size
    &&& a.cylinder == b.cylinder
    &&& a.head == b.head
    &&& a.has_non_flux_reversal_area == b.has_non_flux_reversal_area
    &&& a.write_precompensation == b.write_precompensation
}

/// Everything but the answer queue is as before.
pub open spec fn same_protocol_state(a: FloppyTracerVendorClass, b: FloppyTracerVendorClass) -> bool {
    &&& same_transfer_state(a, b)
    &&& a.current_command == b.current_command
}

/// The effect of the command packet `b` (64 bytes) on state `s`, giving state `t` and
/// action `a`.
pub open spec fn command_effect(
    s: FloppyTracerVendorClass,
    b: Seq<u8>,
    t: FloppyTracerVendorClass,
    a: VendorAction,
) -> bool {
    let cmd = le32(b, 0);
    if cmd == CMD_WRITE_TRACK {
        let packed = le32(b, 12);
        let n = le32(b, 16);
        &&& t.expected_size == le32(b, 4) as usize
        &&& t.remaining_blocks == le32(b, 8)
        &&& t.cylinder == packed & 0xffu32
        &&& t.head == (packed >> 8u32) & 1u32
        &&& t.has_non_flux_reversal_area == (packed & 0x200u32 != 0)
        &&& t.write_precompensation == PulseDuration(((packed >> 16u32) & 0xffu32) as i32)
        &&& t.speeds@ == s.speeds@ + Seq::new(runs_in_packet(n), |k: int| run_of_word(le32(b, 4 * (5 + k))))
        &&& t.receive_buffer@ == s.receive_buffer@
        &&& t.current_command == s.current_command
        &&& a == VendorAction::Nothing
    } else if cmd == CMD_CONFIGURE {
        let settings = le32(b, 4);
        &&& same_protocol_state(s, t)
        &&& a == VendorAction::Configure {
            select_drive: if settings & 1u32 == 0 {
                DriveSelectState::A
            } else {
                DriveSelectState::B
            },
            density: if settings & 2u32 == 0 {
                Density::SingleDouble
            } else {
                Density::High
            },
            index_sim_frequency: le32(b, 8),
        }
    } else if cmd == CMD_STEP_TO_TRACK {
        &&& same_protocol_state(s, t)
        &&& a == VendorAction::StepToTrack {
            track: Track { cylinder: Cylinder(le32(b, 4) as u8), head: Head(0) },
        }
    } else if cmd == CMD_READ_TRACK {
        let packed = le32(b, 4);
        &&& same_transfer_state(s, t)
        &&& t.current_command == Some(
            Command::ReadTrack {
                track: packed_track(packed),
                duration_to_record: le32(b, 8),
                wait_for_index: (packed >> 9u32) & 1u32 != 0,
            },
        )
        &&& a == VendorAction::Nothing
    } else {
        &&& same_protocol_state(s, t)
        &&& a == VendorAction::UnknownCommand
    }
}

/// The effect of a block of cell bytes `p` while `s` still waits for blocks.
pub open spec fn block_effect(s: FloppyTracerVendorClass, p: Seq<u8>, t: FloppyTracerVendorClass) -> bool {
    &&& t.remaining_blocks == s.remaining_blocks - 1
    &&& t.expected_size == s.expected_size
    &&& t.cylinder == s.cylinder
    &&& t.head == s.head
    &&& t.has_non_flux_reversal_area == s.has_non_flux_reversal_area
    &&& t.write_precompensation == s.write_precompensation
    &&& if s.remaining_blocks > 1 {
        &&& t.receive_buffer@ == s.receive_buffer@ + p
        &&& t.speeds@ == s.speeds@
        &&& t.current_command == s.current_command
    } else {
        &&& t.receive_buffer@ == Seq::<u8>::empty()
        &&& t.speeds@ == Seq::<DensityMapEntry>::empty()
        &&& t.current_command matches Some(Command::WriteVerifyRawTrack { track, raw_cell_data, write_precompensation })
        &&& track == Track { cylinder: Cylinder(s.cylinder as u8), head: Head(s.head as u8) }
        &&& raw_cell_data.spec_speeds() == s.speeds@
        &&& raw_cell_data.spec_cells() == s.receive_buffer@ + p
        &&& raw_cell_data.spec_has_non_flux_reversal_area() == s.has_non_flux_reversal_area
        &&& write_precompensation == s.write_precompensation
    }
}

/// The device can take packet `p` in state `s` without failing one of its checks: the last
/// block completes exactly the announced size, covered by the announced runs, and a new
/// command finds the previous one taken.
pub open spec fn packet_acceptable(s: FloppyTracerVendorClass, p: Seq<u8>) -> bool {
    &&& p.len() <= MAX_PACKET
    &&& s.remaining_blocks == 1 ==> {
        &&& s.receive_buffer@.len() + p.len() == s.expected_size
        &&& total_cellbytes(s.speeds@) == s.receive_buffer@.len() + p.len()
        &&& s.current_command is None
    }
    &&& s.remaining_blocks == 0 && le32(padded_packet(p), 0) == CMD_READ_TRACK ==> s.current_command is None
}

/// The device, waiting for a command with no runs collected, takes the tool's write command
/// for a track as that track: it expects the track's size in as many 64 byte blocks as
/// carry it, and keeps the track's cylinder, head, area without flux reversals, write
/// precompensation and runs.
pub proof fn lemma_device_takes_write_header(
    s: FloppyTracerVendorClass,
    b: Seq<u8>,
    t: RawTrack,
    next: FloppyTracerVendorClass,
    a: VendorAction,
)
    requires
        s.speeds@.len() == 0,
        write_header_error(t) is None,
        t.raw_data@.len() <= u32::MAX,
        forall|k: int| 0 <= k < t.densitymap@.len() ==> run_fits(#[trigger] t.densitymap@[k]),
        b.len() == 64,
        command_word(b, 0) == Some(CMD_WRITE_TRACK),
        command_word(b, 1) == Some(t.raw_data@.len() as u32),
        command_word(b, 2) == Some(block_count(t.raw_data@.len()) as u32),
        command_word(b, 3) == Some(write_track_word(t)),
        command_word(b, 4) == Some(t.densitymap@.len() as u32),
        forall|k: int|
            0 <= k < t.densitymap@.len() ==> command_word(b, 5 + k) == Some(
                run_word(#[trigger] t.densitymap@[k]),
            ),
        command_effect(s, b, next, a),
    ensures
        next.expected_size == t.raw_data@.len(),
        next.remaining_blocks == block_count(t.raw_data@.len()),
        next.cylinder == t.cylinder,
        next.head == t.head,
        next.has_non_flux_reversal_area == t.has_non_flux_reversal_area,
        next.write_precompensation == PulseDuration(t.write_precompensation as i32),
        next.speeds@ == t.densitymap@,
        a == VendorAction::Nothing,
{
    lemma_write_header_roundtrip(b, t);
    let n = le32(b, 16);
    assert(command_word(b, 4) == Some(n));
    let runs = Seq::new(n as nat, |k: int| run_of_word(le32(b, 4 * (5 + k))));
    assert(decode_spec(b) matches Some(CommandView::WriteTrack { speeds, .. }) && speeds == runs);
    assert(4 * (5 + n) <= 64);
    assert(runs_in_packet(n) == n);
    assert(s.speeds@ + runs =~= runs);
}

impl FloppyTracerVendorClass {
    /// A protocol that waits for a command and has nothing to send.
    pub fn new() -> (r: Self)
        ensures
            r.receive_buffer@ == Seq::<u8>::empty(),
            r.speeds@ == Seq::<DensityMapEntry>::empty(),
            r.remaining_blocks == 0,
            r.expected_size == 0,
            r.cylinder == 0,
            r.head == 0,
            !r.has_non_flux_reversal_area,
            r.write_precompensation == PulseDuration(0),
            r.tx_buffer@ == Seq::<Vec<u8>>::empty(),
            r.current_command is None,
    {
        FloppyTracerVendorClass {
            receive_buffer: Vec::new(),
            speeds: Vec::new(),
            remaining_blocks: 0,
            expected_size: 0,
            cylinder: 0,
            head: 0,
            has_non_flux_reversal_area: false,
            write_precompensation: PulseDuration(0),
            tx_buffer: VecDeque::new(),
            current_command: None,
        }
    }

    /// Hands out the pending command, leaving none.
    pub fn take_command(&mut self) -> (r: Option<Command>)
        ensures
            r == old(self).current_command,
            final(self).current_command is None,
            same_transfer_state(*old(self), *final(self)),
            final(self).tx_buffer@ == old(self).tx_buffer@,
    {
        self.current_command.take()
    }

    /// Queues a text answer; it must fit into one packet with room to spare.
    pub fn response(&mut self, text: &str)
        requires
            text.spec_bytes().len() < 60,
        ensures
            same_protocol_state(*old(self), *final(self)),
            final(self).tx_buffer@.len() == old(self).tx_buffer@.len() + 1,
            forall|i: int| 0 <= i < old(self).tx_buffer@.len() ==> #[trigger] final(self).tx_buffer@[i]@ == old(self).tx_buffer@[i]@,
            final(self).tx_buffer@.last()@ == text.spec_bytes(),
    {
        let bytes = text.as_bytes();
        let mut buf: Vec<u8> = Vec::new();
        let mut i: usize = 0;
        while i < bytes.len()
            invariant
                i <= bytes@.len(),
                buf@ == bytes@.take(i as int),
            decreases bytes@.len() - i,
        {
            buf.push(bytes[i]);
            i = i + 1;
            assert(buf@ =~= bytes@.take(i as int));
        }
        assert(bytes@.take(bytes@.len() as int) =~= bytes@);
        self.tx_buffer.push_back(buf);
    }

    /// Queues a packet of data.
    pub fn write(&mut self, data: &[u8])
        requires
            data@.len() <= MAX_PACKET,
        ensures
            same_protocol_state(*old(self), *final(self)),
            final(self).tx_buffer@.len() == old(self).tx_buffer@.len() + 1,
            forall|i: int| 0 <= i < old(self).tx_buffer@.len() ==> #[trigger] final(self).tx_buffer@[i]@ == old(self).tx_buffer@[i]@,
            final(self).tx_buffer@.last()@ == data@,
    {
        let mut buf: Vec<u8> = Vec::new();
        let mut i: usize = 0;
        while i < data.len()
            invariant
                i <= data@.len(),
                buf@ == data@.take(i as int),
            decreases data@.len() - i,
        {
            buf.push(data[i]);
            i = i + 1;
            assert(buf@ =~= data@.take(i as int));
        }
        assert(data@.take(data@.len() as int) =~= data@);
        self.tx_buffer.push_back(buf);
    }

    /// Queues a packet of data that the caller hands over.
    pub fn write_consume(&mut self, data: Vec<u8>)
        requires
            data@.len() <= MAX_PACKET,
        ensures
            same_protocol_state(*old(self), *final(self)),
            final(self).tx_buffer@ == old(self).tx_buffer@.push(data),
    {
        self.tx_buffer.push_back(data);
    }

    /// The packet that is to be sent next, if any.
    pub fn next_packet(&self) -> (r: Option<&Vec<u8>>)
        ensures
            self.tx_buffer@.len() == 0 ==> r is None,
            self.tx_buffer@.len() > 0 ==> r == Some(&self.tx_buffer@[0]),
    {
        if self.tx_buffer.len() == 0 {
            None
        } else {
            Some(&self.tx_buffer[0])
        }
    }

    /// After the bus was offered the next packet: it leaves the queue where the bus took it.
    pub fn handle_transmit(&mut self, written: bool)
        ensures
            same_protocol_state(*old(self), *final(self)),
            written && old(self).tx_buffer@.len() > 0 ==> final(self).tx_buffer@ == old(self).tx_buffer@.drop_first(),
            !(written && old(self).tx_buffer@.len() > 0) ==> final(self).tx_buffer@ == old(self).tx_buffer@,
    {
        if written && self.tx_buffer.len() > 0 {
            self.tx_buffer.pop_front();
        }
    }

    /// Takes one packet from the host: a command when no blocks are awaited, else the next
    /// block of cell bytes of the track to write.
    pub fn poll(&mut self, packet: &[u8]) -> (a: VendorAction)
        requires
            packet_acceptable(*old(self), packet@),
        ensures
            final(self).tx_buffer@ == old(self).tx_buffer@,
            old(self).remaining_blocks == 0 ==> command_effect(*old(self), padded_packet(packet@), *final(self), a),
            old(self).remaining_blocks > 0 ==> block_effect(*old(self), packet@, *final(self)) && a == VendorAction::Nothing,
    {
        if self.remaining_blocks == 0 {
            let mut buf: Vec<u8> = Vec::new();
            let mut i: usize = 0;
            while i < MAX_PACKET
                invariant
                    i <= MAX_PACKET,
                    packet@.len() <= MAX_PACKET,
                    buf@ == padded_packet(packet@).take(i as int),
                decreases MAX_PACKET - i,
            {
                if i < packet.len() {
                    buf.push(packet[i]);
                } else {
                    buf.push(0);
                }
                i = i + 1;
                assert(buf@ =~= padded_packet(packet@).take(i as int));
            }
            assert(padded_packet(packet@).take(64) =~= padded_packet(packet@));
            self.handle_command(buf.as_slice())
        } else {
            self.take_block(packet);
            VendorAction::Nothing
        }
    }

    fn take_block(&mut self, packet: &[u8])
        requires
            old(self).remaining_blocks > 0,
            packet_acceptable(*old(self), packet@),
        ensures
            final(self).tx_buffer@ == old(self).tx_buffer@,
            block_effect(*old(self), packet@, *final(self)),
    {
        let mut i: usize = 0;
        let ghost start = self.receive_buffer@;
        while i < packet.len()
            invariant
                i <= packet@.len(),
                self.receive_buffer@ == start + packet@.take(i as int),
                start == old(self).receive_buffer@,
                self.remaining_blocks == old(self).remaining_blocks,
                self.speeds@ == old(self).speeds@,
                self.expected_size == old(self).expected_size,
                self.cylinder == old(self).cylinder,
                self.head == old(self).head,
                self.has_non_flux_reversal_area == old(self).has_non_flux_reversal_area,
                self.write_precompensation == old(self).write_precompensation,
                self.tx_buffer@ == old(self).tx_buffer@,
                self.current_command == old(self).current_command,
            decreases packet@.len() - i,
        {
            self.receive_buffer.push(packet[i]);
            i = i + 1;
            assert(self.receive_buffer@ =~= start + packet@.take(i as int));
        }
        assert(packet@.take(packet@.len() as int) =~= packet@);
        self.remaining_blocks = self.remaining_blocks - 1;
        if self.remaining_blocks == 0 {
            let mut recv_buffer: Vec<u8> = Vec::new();
            let mut speeds: Vec<DensityMapEntry> = Vec::new();
            core::mem::swap(&mut recv_buffer, &mut self.receive_buffer);
            core::mem::swap(&mut speeds, &mut self.speeds);
            let raw_cell_data = RawCellData::construct(speeds, recv_buffer, self.has_non_flux_reversal_area);
            self.current_command = Some(
                Command::WriteVerifyRawTrack {
                    track: Track { cylinder: Cylinder(self.cylinder as u8), head: Head(self.head as u8) },
                    raw_cell_data,
                    write_precompensation: self.write_precompensation,
                },
            );
        }
    }

    /// Takes a command packet while no blocks of a track are awaited, as [`command_effect`]
    /// says.
    pub fn handle_command(&mut self, buf: &[u8]) -> (a: VendorAction)
        requires
            buf@.len() == MAX_PACKET,
            old(self).remaining_blocks == 0,
            le32(buf@, 0) == CMD_READ_TRACK ==> old(self).current_command is None,
        ensures
            final(self).tx_buffer@ == old(self).tx_buffer@,
            command_effect(*old(self), buf@, *final(self), a),
    {
        let command = read_le32(buf, 0).unwrap();
        if command == CMD_WRITE_TRACK {
            self.expected_size = read_le32(buf, 4).unwrap() as usize;
            self.remaining_blocks = read_le32(buf, 8).unwrap();
            let packed = read_le32(buf, 12).unwrap();
            self.cylinder = packed & 0xff;
            self.head = (packed >> 8) & 1;
            self.has_non_flux_reversal_area = (packed & 0x200) != 0;
            self.write_precompensation = PulseDuration(((packed >> 16) & 0xff) as i32);
            let n = read_le32(buf, 16).unwrap();
            let count: usize = if n <= 11 {
                n as usize
            } else {
                11
            };
            let mut added: Vec<DensityMapEntry> = Vec::new();
            let mut k: usize = 0;
            while k < count
                invariant
                    k <= count,
                    count <= 11,
                    buf@.len() == MAX_PACKET,
                    added@ == Seq::new(k as nat, |j: int| run_of_word(le32(buf@, 4 * (5 + j)))),
                decreases count - k,
            {
                let w = read_le32(buf, 4 * (5 + k)).unwrap();
                added.push(
                    DensityMapEntry {
                        number_of_cellbytes: (w >> 9) as usize,
                        cell_size: PulseDuration((w & 0x1ff) as i32),
                    },
                );
                k = k + 1;
                assert(added@ =~= Seq::new(k as nat, |j: int| run_of_word(le32(buf@, 4 * (5 + j)))));
            }
            self.speeds.append(&mut added);
            VendorAction::Nothing
        } else if command == CMD_CONFIGURE {
            let settings = read_le32(buf, 4).unwrap();
            let index_sim_frequency = read_le32(buf, 8).unwrap();
            let select_drive = if settings & 1 == 0 {
                DriveSelectState::A
            } else {
                DriveSelectState::B
            };
            let density = if settings & 2 == 0 {
                Density::SingleDouble
            } else {
                Density::High
            };
            VendorAction::Configure { select_drive, density, index_sim_frequency }
        } else if command == CMD_STEP_TO_TRACK {
            let cylinder = read_le32(buf, 4).unwrap();
            VendorAction::StepToTrack { track: Track { cylinder: Cylinder(cylinder as u8), head: Head(0) } }
        } else if command == CMD_READ_TRACK {
            let packed = read_le32(buf, 4).unwrap();
            let duration_to_record = read_le32(buf, 8).unwrap();
            self.current_command = Some(
                Command::ReadTrack {
                    track: Track {
                        cylinder: Cylinder((packed & 0xff) as u8),
                        head: Head(((packed >> 8) & 1) as u8),
                    },
                    duration_to_record,
                    wait_for_index: ((packed >> 9) & 1) != 0,
                },
            );
            VendorAction::Nothing
        } else {
            VendorAction::UnknownCommand
        }
    }
}

} // verus!
