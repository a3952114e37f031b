use vstd::prelude::*;

use crate::bitfacts::{lemma_le_word_bytes, lemma_mask_constants};
use crate::bytes::{le32, read_le32};
use crate::rawtrack::RawTrack;
use crate::types::{Density, DensityMapEntry, DriveSelectState, PulseDuration};

verus! {

/// Command words of the vendor protocol between the tool and the device.
pub const CMD_WRITE_TRACK: u32 = 0x1234_0001;

pub const CMD_CONFIGURE: u32 = 0x1234_0002;

pub const CMD_STEP_TO_TRACK: u32 = 0x1234_0003;

pub const CMD_READ_TRACK: u32 = 0x1234_0004;

pub const CMD_MEASURE_ROTATION: u32 = 0x1234_0005;

/// The 32 bit little endian word number `i` of a command, if all its bytes are there.
pub open spec fn command_word(b: Seq<u8>, i: int) -> Option<u32> {
    if 4 * i + 4 <= b.len() {
        Some(le32(b, 4 * i))
    } else {
        None
    }
}

/// `n` zero bytes.
fn zeros(n: usize) -> (r: Vec<u8>)
    ensures
        r@ == Seq::new(n as nat, |i: int| 0u8),
{
    let mut v: Vec<u8> = Vec::new();
    let mut i: usize = 0;
    while i < n
        invariant
            i <= n,
            v@ == Seq::new(i as nat, |k: int| 0u8),
        decreases n - i,
    {
        v.push(0);
        i = i + 1;
        assert(v@ =~= Seq::new(i as nat, |k: int| 0u8));
    }
    v
}

/// Stores `value` little endian as word number `i`.
fn put_word(buf: &mut Vec<u8>, i: usize, value: u32)
    requires
        4 * i + 4 <= old(buf)@.len(),
    ensures
        final(buf)@.len() == old(buf)@.len(),
        le32(final(buf)@, 4 * i) == value,
        forall|k: int|
            0 <= k < old(buf)@.len() && !(4 * i <= k < 4 * i + 4) ==> #[trigger] final(buf)@[k]
                == old(buf)@[k],
{
    let len = buf.len();
    let p = 4 * i;
    buf.set(p, (value & 0xff) as u8);
    buf.set(p + 1, ((value >> 8) & 0xff) as u8);
    buf.set(p + 2, ((value >> 16) & 0xff) as u8);
    buf.set(p + 3, ((value >> 24) & 0xff) as u8);
    let ghost b0 = buf@[p as int];
    let ghost b1 = buf@[p + 1];
    let ghost b2 = buf@[p + 2];
    let ghost b3 = buf@[p + 3];
    proof {
        lemma_le_word_bytes(value, b0, b1, b2, b3);
    }
}

proof fn lemma_settings_bits()
    by (bit_vector)
    ensures
        (0u32 | 1u32) == 1u32 && (0u32 | 2u32) == 2u32 && (1u32 | 2u32) == 3u32 && (1u32 | 0u32)
            == 1u32 && (0u32 | 0u32) == 0u32,
        ((0u32 | 0u32) & 1u32) == 0u32 && ((0u32 | 0u32) & 2u32) == 0u32,
        ((1u32 | 0u32) & 1u32) != 0u32 && ((1u32 | 0u32) & 2u32) == 0u32,
        ((0u32 | 2u32) & 1u32) == 0u32 && ((0u32 | 2u32) & 2u32) != 0u32,
        ((1u32 | 2u32) & 1u32) != 0u32 && ((1u32 | 2u32) & 2u32) != 0u32,
{
}

/// The settings word of the configure command: bit 0 selects drive B, bit 1 high density.
pub open spec fn settings_word(select_drive: DriveSelectState, density: Density) -> u32 {
    (if select_drive == DriveSelectState::B {
        1u32
    } else {
        0u32
    }) | (if density == Density::High {
        2u32
    } else {
        0u32
    })
}

/// The command that selects a drive and density and sets the index simulation frequency.
pub fn configure_command(select_drive: DriveSelectState, density: Density, index_sim_frequency: u32) -> (r: Vec<u8>)
    ensures
        r@.len() == 12,
        command_word(r@, 0) == Some(CMD_CONFIGURE),
        command_word(r@, 1) == Some(settings_word(select_drive, density)),
        command_word(r@, 2) == Some(index_sim_frequency),
{
    let mut buf = zeros(12);
    let mut settings: u32 = 0;
    if let DriveSelectState::B = select_drive {
        settings = settings | 1;
    }
    if let Density::High = density {
        settings = settings | 2;
    }
    assert(settings == settings_word(select_drive, density)) by {
        lemma_settings_bits();
    }
    put_word(&mut buf, 0, CMD_CONFIGURE);
    let ghost b0 = buf@;
    put_word(&mut buf, 1, settings);
    let ghost b1 = buf@;
    put_word(&mut buf, 2, index_sim_frequency);
    proof {
        lemma_word_unchanged(b0, b1, 0);
        lemma_word_unchanged(b1, buf@, 0);
        lemma_word_unchanged(b1, buf@, 1);
    }
    buf
}

/// Bytes outside a word leave the word unchanged.
proof fn lemma_word_unchanged(before: Seq<u8>, after: Seq<u8>, j: int)
    requires
        after.len() == before.len(),
        0 <= j,
        4 * j + 4 <= before.len(),
        after[4 * j] == before[4 * j],
        after[4 * j + 1] == before[4 * j + 1],
        after[4 * j + 2] == before[4 * j + 2],
        after[4 * j + 3] == before[4 * j + 3],
    ensures
        command_word(after, j) == command_word(before, j),
{
}

/// The command that asks for the duration of one revolution.
pub fn measure_ticks_command() -> (r: Vec<u8>)
    ensures
        r@.len() == 64,
        command_word(r@, 0) == Some(CMD_MEASURE_ROTATION),
        forall|i: int| 4 <= i < 64 ==> r@[i] == 0,
{
    let mut buf = zeros(64);
    let ghost b0 = buf@;
    put_word(&mut buf, 0, CMD_MEASURE_ROTATION);
    assert forall|i: int| 4 <= i < 64 implies buf@[i] == 0 by {
        assert(buf@[i] == b0[i]);
    }
    buf
}

/// The packed track word of the read command: cylinder, head in bit 8, wait for the index in
/// bit 9.
pub open spec fn read_track_word(cylinder: u32, head: u32, wait_for_index: bool) -> u32 {
    cylinder | (head << 8u32) | (if wait_for_index {
        0x200u32
    } else {
        0u32
    })
}

/// The command that reads a raw track for `duration_to_record` timer ticks.
pub fn read_raw_track_command(cylinder: u32, head: u32, wait_for_index: bool, duration_to_record: usize) -> (r: Vec<u8>)
    ensures
        r@.len() == 64,
        command_word(r@, 0) == Some(CMD_READ_TRACK),
        command_word(r@, 1) == Some(read_track_word(cylinder, head, wait_for_index)),
        command_word(r@, 2) == Some(duration_to_record as u32),
        forall|i: int| 12 <= i < 64 ==> r@[i] == 0,
{
    let mut buf = zeros(64);
    let wait: u32 = if wait_for_index { 1 << 9 } else { 0 };
    proof {
        lemma_mask_constants();
    }
    let ghost z = buf@;
    put_word(&mut buf, 0, CMD_READ_TRACK);
    let ghost b0 = buf@;
    put_word(&mut buf, 1, cylinder | (head << 8) | wait);
    let ghost b1 = buf@;
    put_word(&mut buf, 2, duration_to_record as u32);
    proof {
        lemma_word_unchanged(b0, b1, 0);
        lemma_word_unchanged(b1, buf@, 0);
        lemma_word_unchanged(b1, buf@, 1);
        assert forall|i: int| 12 <= i < 64 implies buf@[i] == 0 by {
            assert(buf@[i] == b1[i] && b1[i] == b0[i] && b0[i] == z[i]);
        }
    }
    buf
}

/// Why a track cannot be sent to the device.
#[derive(Clone, Copy, Debug, PartialEq, Eq, Structural)]
pub enum WriteHeaderError {
    /// The head is not 0 or 1.
    HeadOutOfRange,
    /// The cylinder does not fit into 8 bits.
    CylinderOutOfRange,
    /// The write precompensation does not fit into 8 bits.
    PrecompensationOutOfRange,
    /// A cell size is 512 or more.
    CellSizeOutOfRange,
    /// The density map has more runs than the command has room for (11).
    TooManyRuns,
}

/// The packed track word of the write command: cylinder, head in bit 8, an area without flux
/// reversals in bit 9, the write precompensation in bits 16 to 23.
pub open spec fn write_track_word(t: RawTrack) -> u32 {
    t.cylinder | (t.head << 8u32) | (if t.has_non_flux_reversal_area {
        0x200u32
    } else {
        0u32
    }) | (t.write_precompensation << 16u32)
}

/// A run of the density map: the number of cell bytes above bit 9, the cell size below.
pub open spec fn run_word(e: DensityMapEntry) -> u32 {
    ((e.number_of_cellbytes as u32) << 9u32) | (e.cell_size.0 as u32)
}

/// The number of 64 byte blocks that carry `size` bytes.
pub open spec fn block_count(size: nat) -> nat {
    if size % 64 != 0 {
        size / 64 + 1
    } else {
        size / 64
    }
}

/// What keeps a track from being sent: the checks of the track, then those of its runs in
/// order.
pub open spec fn write_header_error(t: RawTrack) -> Option<WriteHeaderError> {
    if t.head > 1 {
        Some(WriteHeaderError::HeadOutOfRange)
    } else if t.cylinder > 0xff {
        Some(WriteHeaderError::CylinderOutOfRange)
    } else if t.write_precompensation > 0xff {
        Some(WriteHeaderError::PrecompensationOutOfRange)
    } else {
        runs_error(t.densitymap@, 0)
    }
}

/// The first problem with the runs from number `k` on: a cell size of 512 or more, or a run
/// that does not fit into the command any more.
pub open spec fn runs_error(m: Seq<DensityMapEntry>, k: nat) -> Option<WriteHeaderError>
    decreases m.len() - k,
{
    if k >= m.len() {
        None
    } else if m[k as int].cell_size.0 >= 512 {
        Some(WriteHeaderError::CellSizeOutOfRange)
    } else if k >= 11 {
        Some(WriteHeaderError::TooManyRuns)
    } else {
        runs_error(m, k + 1)
    }
}

/// The command that announces a track to write and verify: size, blocks, track word and the
/// runs of the density map; the cell bytes follow in 64 byte blocks.
pub fn write_raw_track_header(track: &RawTrack) -> (r: Result<Vec<u8>, WriteHeaderError>)
    ensures
        match write_header_error(*track) {
            Some(e) => r == Err::<Vec<u8>, WriteHeaderError>(e),
            None => (r matches Ok(b) && {
                &&& b@.len() == 64
                &&& command_word(b@, 0) == Some(CMD_WRITE_TRACK)
                &&& command_word(b@, 1) == Some(track.raw_data@.len() as u32)
                &&& command_word(b@, 2) == Some(block_count(track.raw_data@.len()) as u32)
                &&& command_word(b@, 3) == Some(write_track_word(*track))
                &&& command_word(b@, 4) == Some(track.densitymap@.len() as u32)
                &&& forall|k: int|
                    0 <= k < track.densitymap@.len() ==> command_word(b@, 5 + k) == Some(
                        run_word(#[trigger] track.densitymap@[k]),
                    )
            }),
        },
{
    if track.head > 1 {
        return Err(WriteHeaderError::HeadOutOfRange);
    }
    if track.cylinder > 0xff {
        return Err(WriteHeaderError::CylinderOutOfRange);
    }
    if track.write_precompensation > 0xff {
        return Err(WriteHeaderError::PrecompensationOutOfRange);
    }
    let expected_size = track.raw_data.len();
    let mut remaining_blocks = expected_size / 64;
    if expected_size % 64 != 0 {
        remaining_blocks = remaining_blocks + 1;
    }
    let nfra: u32 = if track.has_non_flux_reversal_area { 0x200 } else { 0 };
    let mut buf = zeros(64);
    put_word(&mut buf, 0, CMD_WRITE_TRACK);
    let ghost b0 = buf@;
    put_word(&mut buf, 1, expected_size as u32);
    let ghost b1 = buf@;
    put_word(&mut buf, 2, remaining_blocks as u32);
    let ghost b2 = buf@;
    put_word(
        &mut buf,
        3,
        track.cylinder | (track.head << 8) | nfra | (track.write_precompensation << 16),
    );
    let ghost b3 = buf@;
    put_word(&mut buf, 4, track.densitymap.len() as u32);
    proof {
        lemma_word_unchanged(b0, b1, 0);
        lemma_word_unchanged(b1, b2, 0);
        lemma_word_unchanged(b1, b2, 1);
        lemma_word_unchanged(b2, b3, 0);
        lemma_word_unchanged(b2, b3, 1);
        lemma_word_unchanged(b2, b3, 2);
        lemma_word_unchanged(b3, buf@, 0);
        lemma_word_unchanged(b3, buf@, 1);
        lemma_word_unchanged(b3, buf@, 2);
        lemma_word_unchanged(b3, buf@, 3);
    }
    let ghost m = track.densitymap@;
    let mut k: usize = 0;
    while k < track.densitymap.len()
        invariant
            k <= m.len(),
            m == track.densitymap@,
            buf@.len() == 64,
            write_header_error(*track) == runs_error(m, k as nat),
            k <= 11,
            command_word(buf@, 0) == Some(CMD_WRITE_TRACK),
            command_word(buf@, 1) == Some(expected_size as u32),
            command_word(buf@, 2) == Some(remaining_blocks as u32),
            remaining_blocks == block_count(expected_size as nat),
            command_word(buf@, 3) == Some(write_track_word(*track)),
            command_word(buf@, 4) == Some(m.len() as u32),
            forall|j: int| 0 <= j < k ==> command_word(buf@, 5 + j) == Some(run_word(#[trigger] m[j])),
        decreases m.len() - k,
    {
        let entry = track.densitymap[k];
        if entry.cell_size.0 >= 512 {
            return Err(WriteHeaderError::CellSizeOutOfRange);
        }
        if k >= 11 {
            return Err(WriteHeaderError::TooManyRuns);
        }
        let ghost before = buf@;
        put_word(&mut buf, 5 + k, ((entry.number_of_cellbytes as u32) << 9) | (entry.cell_size.0 as u32));
        proof {
            assert forall|j: int| 0 <= j < 5 + k implies command_word(buf@, j) == command_word(
                before,
                j,
            ) by {
                lemma_word_unchanged(before, buf@, j);
            }
            assert forall|j: int| 0 <= j < k + 1 implies command_word(buf@, 5 + j) == Some(
                run_word(#[trigger] m[j]),
            ) by {
                if j < k {
                    assert(command_word(buf@, 5 + j) == command_word(before, 5 + j));
                }
            }
            assert(command_word(buf@, 0) == command_word(before, 0));
            assert(command_word(buf@, 1) == command_word(before, 1));
            assert(command_word(buf@, 2) == command_word(before, 2));
            assert(command_word(buf@, 3) == command_word(before, 3));
            assert(command_word(buf@, 4) == command_word(before, 4));
        }
        k = k + 1;
    }
    Ok(buf)
}

/// A command as the device reads it.
pub enum DeviceCommand {
    WriteTrack {
        expected_size: usize,
        remaining_blocks: u32,
        cylinder: u32,
        head: u32,
        has_non_flux_reversal_area: bool,
        write_precompensation: PulseDuration,
        speeds: Vec<DensityMapEntry>,
    },
    Configure { select_drive: DriveSelectState, density: Density, index_sim_frequency: u32 },
    StepToTrack { cylinder: u32 },
    ReadTrack { cylinder: u32, head: u32, wait_for_index: bool, duration_to_record: u32 },
    /// A command word the device does not know; it ignores it.
    Unknown,
}

/// A command as its words give it, the runs of a write command as a sequence.
pub enum CommandView {
    WriteTrack {
        expected_size: usize,
        remaining_blocks: u32,
        cylinder: u32,
        head: u32,
        has_non_flux_reversal_area: bool,
        write_precompensation: PulseDuration,
        speeds: Seq<DensityMapEntry>,
    },
    Configure { select_drive: DriveSelectState, density: Density, index_sim_frequency: u32 },
    StepToTrack { cylinder: u32 },
    ReadTrack { cylinder: u32, head: u32, wait_for_index: bool, duration_to_record: u32 },
    Unknown,
}

pub open spec fn command_view(c: DeviceCommand) -> CommandView {
    match c {
        DeviceCommand::WriteTrack {
            expected_size,
            remaining_blocks,
            cylinder,
            head,
            has_non_flux_reversal_area,
            write_precompensation,
            speeds,
        } => CommandView::WriteTrack {
            expected_size,
            remaining_blocks,
            cylinder,
            head,
            has_non_flux_reversal_area,
            write_precompensation,
            speeds: speeds@,
        },
        DeviceCommand::Configure { select_drive, density, index_sim_frequency } => CommandView::Configure {
            select_drive,
            density,
            index_sim_frequency,
        },
        DeviceCommand::StepToTrack { cylinder } => CommandView::StepToTrack { cylinder },
        DeviceCommand::ReadTrack { cylinder, head, wait_for_index, duration_to_record } => CommandView::ReadTrack {
            cylinder,
            head,
            wait_for_index,
            duration_to_record,
        },
        DeviceCommand::Unknown => CommandView::Unknown,
    }
}

/// A run of the density map as a write command gives it.
pub open spec fn run_of_word(w: u32) -> DensityMapEntry {
    DensityMapEntry {
        number_of_cellbytes: (w >> 9u32) as usize,
        cell_size: PulseDuration((w & 0x1ffu32) as i32),
    }
}

/// All of the `n` runs from word 5 on are there.
pub open spec fn runs_present(b: Seq<u8>, n: nat) -> bool {
    4 * (5 + n) <= b.len()
}

/// The command that the words `b` hold, or `None` where a word it needs is missing.
pub open spec fn decode_spec(b: Seq<u8>) -> Option<CommandView> {
    match command_word(b, 0) {
        None => None,
        Some(cmd) => if cmd == CMD_WRITE_TRACK {
            if !(command_word(b, 1) is Some && command_word(b, 2) is Some && command_word(b, 3) is Some
                && command_word(b, 4) is Some) {
                None
            } else {
                let packed = command_word(b, 3).unwrap();
                let n = command_word(b, 4).unwrap();
                if !runs_present(b, n as nat) {
                    None
                } else {
                    Some(
                        CommandView::WriteTrack {
                            expected_size: command_word(b, 1).unwrap() as usize,
                            remaining_blocks: command_word(b, 2).unwrap(),
                            cylinder: packed & 0xffu32,
                            head: (packed >> 8u32) & 1u32,
                            has_non_flux_reversal_area: packed & 0x200u32 != 0,
                            write_precompensation: PulseDuration(((packed >> 16u32) & 0xffu32) as i32),
                            speeds: Seq::new(n as nat, |k: int| run_of_word(le32(b, 4 * (5 + k)))),
                        },
                    )
                }
            }
        } else if cmd == CMD_CONFIGURE {
            match (command_word(b, 1), command_word(b, 2)) {
                (Some(settings), Some(freq)) => Some(
                    CommandView::Configure {
                        select_drive: if settings & 1u32 == 0 {
                            DriveSelectState::A
                        } else {
                            DriveSelectState::B
                        },
                        density: if settings & 2u32 == 0 {
                            Density::SingleDouble
                        } else {
                            Density::High
                        },
                        index_sim_frequency: freq,
                    },
                ),
                _ => None,
            }
        } else if cmd == CMD_STEP_TO_TRACK {
            match command_word(b, 1) {
                Some(c) => Some(CommandView::StepToTrack { cylinder: c }),
                None => None,
            }
        } else if cmd == CMD_READ_TRACK {
            match (command_word(b, 1), command_word(b, 2)) {
                (Some(packed), Some(d)) => Some(
                    CommandView::ReadTrack {
                        cylinder: packed & 0xffu32,
                        head: (packed >> 8u32) & 1u32,
                        wait_for_index: (packed >> 9u32) & 1u32 != 0,
                        duration_to_record: d,
                    },
                ),
                _ => None,
            }
        } else {
            Some(CommandView::Unknown)
        },
    }
}

/// The word number `i` of `buf`, if all its bytes are there.
fn word(buf: &[u8], i: usize) -> (r: Option<u32>)
    requires
        i < 0x1000_0000,
    ensures
        r == command_word(buf@, i as int),
{
    read_le32(buf, 4 * i)
}

/// Reads a command as the device does.
pub fn decode_command(buf: &[u8]) -> (r: Option<DeviceCommand>)
    ensures
        match decode_spec(buf@) {
            None => r is None,
            Some(v) => (r matches Some(c) && command_view(c) == v),
        },
{
    let command = match word(buf, 0) {
        Some(c) => c,
        None => {
            return None;
        },
    };
    if command == CMD_WRITE_TRACK {
        let expected_size = match word(buf, 1) {
            Some(v) => v,
            None => {
                return None;
            },
        };
        let remaining_blocks = match word(buf, 2) {
            Some(v) => v,
            None => {
                return None;
            },
        };
        let packed = match word(buf, 3) {
            Some(v) => v,
            None => {
                return None;
            },
        };
        let n = match word(buf, 4) {
            Some(v) => v,
            None => {
                return None;
            },
        };
        if (buf.len() / 4) < 5 || ((buf.len() / 4) - 5) < (n as usize) {
            return None;
        }
        let mut speeds: Vec<DensityMapEntry> = Vec::new();
        let buf_len = buf.len();
        let mut k: usize = 0;
        while k < n as usize
            invariant
                k <= n,
                buf_len == buf@.len(),
                runs_present(buf@, n as nat),
                speeds@ =~= Seq::new(k as nat, |j: int| run_of_word(le32(buf@, 4 * (5 + j)))),
            decreases n - k,
        {
            let w = read_le32(buf, 4 * (5 + k)).unwrap();
            speeds.push(
                DensityMapEntry {
                    number_of_cellbytes: (w >> 9) as usize,
                    cell_size: PulseDuration((w & 0x1ff) as i32),
                },
            );
            k = k + 1;
        }
        return Some(
            DeviceCommand::WriteTrack {
                expected_size: expected_size as usize,
                remaining_blocks,
                cylinder: packed & 0xff,
                head: (packed >> 8) & 1,
                has_non_flux_reversal_area: (packed & 0x200) != 0,
                write_precompensation: PulseDuration(((packed >> 16) & 0xff) as i32),
                speeds,
            },
        );
    }
    if command == CMD_CONFIGURE {
        let settings = match word(buf, 1) {
            Some(v) => v,
            None => {
                return None;
            },
        };
        let freq = match word(buf, 2) {
            Some(v) => v,
            None => {
                return None;
            },
        };
        let select_drive = if settings & 1 == 0 {
            DriveSelectState::A
        } else {
            DriveSelectState::B
        };
        let density = if settings & 2 == 0 {
            Density::SingleDouble
        } else {
            Density::High
        };
        return Some(DeviceCommand::Configure { select_drive, density, index_sim_frequency: freq });
    }
    if command == CMD_STEP_TO_TRACK {
        return match word(buf, 1) {
            Some(c) => Some(DeviceCommand::StepToTrack { cylinder: c }),
            None => None,
        };
    }
    if command == CMD_READ_TRACK {
        let packed = match word(buf, 1) {
            Some(v) => v,
            None => {
                return None;
            },
        };
        let d = match word(buf, 2) {
            Some(v) => v,
            None => {
                return None;
            },
        };
        return Some(
            DeviceCommand::ReadTrack {
                cylinder: packed & 0xff,
                head: (packed >> 8) & 1,
                wait_for_index: ((packed >> 9) & 1) != 0,
                duration_to_record: d,
            },
        );
    }
    Some(DeviceCommand::Unknown)
}

/// The device reads the configure command of the tool as the drive, density and index
/// frequency it was built from; the tool writes no selection as drive A.
pub proof fn lemma_configure_roundtrip(
    b: Seq<u8>,
    select_drive: DriveSelectState,
    density: Density,
    index_sim_frequency: u32,
)
    requires
        select_drive != DriveSelectState::Unselected,
        command_word(b, 0) == Some(CMD_CONFIGURE),
        command_word(b, 1) == Some(settings_word(select_drive, density)),
        command_word(b, 2) == Some(index_sim_frequency),
    ensures
        decode_spec(b) == Some(
            CommandView::Configure { select_drive, density, index_sim_frequency },
        ),
{
    let s = settings_word(select_drive, density);
    lemma_settings_bits();
}

/// The device reads the read command of the tool as the track, the wait for the index and
/// the duration it was built from, for cylinders of 8 bits and heads 0 and 1.
pub proof fn lemma_read_track_roundtrip(
    b: Seq<u8>,
    cylinder: u32,
    head: u32,
    wait_for_index: bool,
    duration_to_record: u32,
)
    requires
        cylinder <= 0xff,
        head <= 1,
        command_word(b, 0) == Some(CMD_READ_TRACK),
        command_word(b, 1) == Some(read_track_word(cylinder, head, wait_for_index)),
        command_word(b, 2) == Some(duration_to_record),
    ensures
        decode_spec(b) == Some(
            CommandView::ReadTrack { cylinder, head, wait_for_index, duration_to_record },
        ),
{
    let w: u32 = if wait_for_index {
        0x200u32
    } else {
        0u32
    };
    assert(((cylinder | (head << 8u32) | w) & 0xffu32) == cylinder && (((cylinder | (head << 8u32)
        | w) >> 8u32) & 1u32) == head && ((((cylinder | (head << 8u32) | w) >> 9u32) & 1u32) != 0u32)
        == (w == 0x200u32)) by (bit_vector)
        requires
            cylinder <= 0xffu32,
            head <= 1u32,
            w == 0u32 || w == 0x200u32,
    ;
}

/// A run survives the command: cell sizes below 512 and fewer than 2 to the 23 cell bytes.
pub open spec fn run_fits(e: DensityMapEntry) -> bool {
    &&& 0 <= e.cell_size.0 < 512
    &&& e.number_of_cellbytes < 0x80_0000
}

proof fn lemma_run_roundtrip(e: DensityMapEntry)
    requires
        run_fits(e),
    ensures
        run_of_word(run_word(e)) == e,
{
    let n = e.number_of_cellbytes as u32;
    let c = e.cell_size.0 as u32;
    assert(((n << 9u32) | c) >> 9u32 == n && ((n << 9u32) | c) & 0x1ffu32 == c) by (bit_vector)
        requires
            n < 0x80_0000u32,
            c < 512u32,
    ;
}

/// The device reads the write command of the tool as the track it was built from: its size,
/// blocks, cylinder, head, area without flux reversals, write precompensation and runs.
pub proof fn lemma_write_header_roundtrip(b: Seq<u8>, t: RawTrack)
    requires
        write_header_error(t) is None,
        t.raw_data@.len() <= u32::MAX,
        forall|k: int| 0 <= k < t.densitymap@.len() ==> run_fits(#[trigger] t.densitymap@[k]),
        b.len() == 64,
        command_word(b, 0) == Some(CMD_WRITE_TRACK),
        command_word(b, 1) == Some(t.raw_data@.len() as u32),
        command_word(b, 2) == Some(block_count(t.raw_data@.len()) as u32),
        command_word(b, 3) == Some(write_track_word(t)),
        command_word(b, 4) == Some(t.densitymap@.len() as u32),
        forall|k: int|
            0 <= k < t.densitymap@.len() ==> command_word(b, 5 + k) == Some(
                run_word(#[trigger] t.densitymap@[k]),
            ),
    ensures
        decode_spec(b) == Some(
            CommandView::WriteTrack {
                expected_size: t.raw_data@.len() as usize,
                remaining_blocks: block_count(t.raw_data@.len()) as u32,
                cylinder: t.cylinder,
                head: t.head,
                has_non_flux_reversal_area: t.has_non_flux_reversal_area,
                write_precompensation: PulseDuration(t.write_precompensation as i32),
                speeds: t.densitymap@,
            },
        ),
{
    let m = t.densitymap@;
    lemma_runs_error_len(m, 0);
    let c = t.cylinder;
    let h = t.head;
    let p = t.write_precompensation;
    let w: u32 = if t.has_non_flux_reversal_area {
        0x200u32
    } else {
        0u32
    };
    assert(((c | (h << 8u32) | w | (p << 16u32)) & 0xffu32) == c && (((c | (h << 8u32) | w | (p
        << 16u32)) >> 8u32) & 1u32) == h && (((c | (h << 8u32) | w | (p << 16u32)) & 0x200u32)
        != 0u32) == (w == 0x200u32) && (((c | (h << 8u32) | w | (p << 16u32)) >> 16u32) & 0xffu32)
        == p) by (bit_vector)
        requires
            c <= 0xffu32,
            h <= 1u32,
            p <= 0xffu32,
            w == 0u32 || w == 0x200u32,
    ;
    assert(runs_present(b, m.len() as u32 as nat));
    let speeds = Seq::new(
        m.len() as u32 as nat,
        |k: int| run_of_word(le32(b, 4 * (5 + k))),
    );
    assert forall|k: int| 0 <= k < m.len() implies speeds[k] == m[k] by {
        assert(command_word(b, 5 + k) == Some(run_word(m[k])));
        lemma_run_roundtrip(m[k]);
    }
    assert(speeds =~= m);
}

proof fn lemma_runs_error_len(m: Seq<DensityMapEntry>, k: nat)
    requires
        runs_error(m, k) is None,
        k <= 11,
    ensures
        m.len() <= 11,
    decreases m.len() - k,
{
    if k < m.len() {
        if k < 11 {
            lemma_runs_error_len(m, k + 1);
        }
    }
}

} // verus!
