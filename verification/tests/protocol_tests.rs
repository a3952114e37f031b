use floppytracer::rawtrack::RawTrack;
use floppytracer::types::{Cylinder, Density, DensityMapEntry, DriveSelectState, Encoding, Head, PulseDuration, Track};
use floppytracer::usb_answer::{absorb_track_packet, parse_answer, AnswerError, TrackPacket, UsbAnswer};
use floppytracer::usb_protocol::{
    configure_command, decode_command, measure_ticks_command, read_raw_track_command,
    write_raw_track_header, DeviceCommand, WriteHeaderError,
};
use floppytracer::vendor_class::{Command, FloppyTracerVendorClass, VendorAction};

#[test]
fn configure_command_bytes() {
    let c = configure_command(DriveSelectState::B, Density::High, 6);
    assert_eq!(c, vec![0x02, 0x00, 0x34, 0x12, 3, 0, 0, 0, 6, 0, 0, 0]);
    let a = configure_command(DriveSelectState::A, Density::SingleDouble, 0);
    assert_eq!(a, vec![0x02, 0x00, 0x34, 0x12, 0, 0, 0, 0, 0, 0, 0, 0]);
    match decode_command(&c) {
        Some(DeviceCommand::Configure { select_drive, density, index_sim_frequency }) => {
            assert_eq!(select_drive, DriveSelectState::B);
            assert_eq!(density, Density::High);
            assert_eq!(index_sim_frequency, 6);
        }
        _ => panic!("not a configure command"),
    }
}

#[test]
fn measure_and_read_commands() {
    let m = measure_ticks_command();
    assert_eq!(m.len(), 64);
    assert_eq!(&m[0..4], &[0x05, 0x00, 0x34, 0x12]);
    assert!(m[4..].iter().all(|b| *b == 0));
    let r = read_raw_track_command(79, 1, true, 1000);
    assert_eq!(&r[0..12], &[0x04, 0x00, 0x34, 0x12, 79, 3, 0, 0, 0xe8, 0x03, 0, 0]);
    match decode_command(&r) {
        Some(DeviceCommand::ReadTrack { cylinder, head, wait_for_index, duration_to_record }) => {
            assert_eq!((cylinder, head, wait_for_index, duration_to_record), (79, 1, true, 1000));
        }
        _ => panic!("not a read command"),
    }
    assert!(decode_command(&[0x04, 0x00, 0x34]).is_none());
    assert!(matches!(decode_command(&[0x99, 0, 0, 0]), Some(DeviceCommand::Unknown)));
}

fn track_to_write(head: u32, runs: usize) -> RawTrack {
    let mut densitymap = Vec::new();
    for i in 0..runs {
        densitymap.push(DensityMapEntry { number_of_cellbytes: 10 + i, cell_size: PulseDuration(168) });
    }
    let mut t = RawTrack::new(5, head, vec![0x55; 130], densitymap, Encoding::MFM);
    t.write_precompensation = 7;
    t.has_non_flux_reversal_area = true;
    t
}

#[test]
fn write_header_bytes_and_errors() {
    let h = write_raw_track_header(&track_to_write(1, 2)).unwrap();
    assert_eq!(h.len(), 64);
    assert_eq!(
        &h[0..28],
        &[
            0x01, 0x00, 0x34, 0x12, // command
            130, 0, 0, 0, // size
            3, 0, 0, 0, // blocks of 64
            5, 3, 7, 0, // cylinder, head and area without flux reversals, precompensation
            2, 0, 0, 0, // runs
            0xa8, 0x14, 0, 0, // 10 cell bytes of 168
            0xa8, 0x16, 0, 0, // 11 cell bytes of 168
        ]
    );
    assert_eq!(write_raw_track_header(&track_to_write(2, 2)), Err(WriteHeaderError::HeadOutOfRange));
    assert_eq!(write_raw_track_header(&track_to_write(0, 12)), Err(WriteHeaderError::TooManyRuns));
    let mut big = track_to_write(0, 1);
    big.densitymap[0].cell_size = PulseDuration(512);
    assert_eq!(write_raw_track_header(&big), Err(WriteHeaderError::CellSizeOutOfRange));
    let mut far = track_to_write(0, 1);
    far.cylinder = 256;
    assert_eq!(write_raw_track_header(&far), Err(WriteHeaderError::CylinderOutOfRange));
    let mut pre = track_to_write(0, 1);
    pre.write_precompensation = 256;
    assert_eq!(write_raw_track_header(&pre), Err(WriteHeaderError::PrecompensationOutOfRange));
}

#[test]
fn device_reads_write_header() {
    let t = track_to_write(1, 2);
    let h = write_raw_track_header(&t).unwrap();
    match decode_command(&h) {
        Some(DeviceCommand::WriteTrack {
            expected_size,
            remaining_blocks,
            cylinder,
            head,
            has_non_flux_reversal_area,
            write_precompensation,
            speeds,
        }) => {
            assert_eq!(expected_size, 130);
            assert_eq!(remaining_blocks, 3);
            assert_eq!((cylinder, head), (5, 1));
            assert!(has_non_flux_reversal_area);
            assert_eq!(write_precompensation, PulseDuration(7));
            assert_eq!(speeds, t.densitymap);
        }
        _ => panic!("not a write command"),
    }
}

#[test]
fn answers_of_the_device() {
    assert_eq!(parse_answer(b"RotationTicks 14000000"), Ok(UsbAnswer::RotationTicks { ticks: 14_000_000 }));
    assert_eq!(parse_answer(b"GotCmd"), Ok(UsbAnswer::GotCmd));
    assert_eq!(parse_answer(b"WriteProtected"), Ok(UsbAnswer::WriteProtected));
    assert_eq!(
        parse_answer(b"WrittenAndVerified 1 0 2 3 40 58 12 5"),
        Ok(UsbAnswer::WrittenAndVerified {
            cylinder: 1,
            head: 0,
            writes: 2,
            reads: 3,
            max_err: 40,
            similarity_threshold: 58,
            match_after_pulses: 12,
            write_precomp: 5,
        })
    );
    assert_eq!(
        parse_answer("Fail 3 1 5 15 Größe".as_bytes()),
        Ok(UsbAnswer::Fail { cylinder: 3, head: 1, writes: 5, reads: 15, error: "Größe".to_string() })
    );
    assert_eq!(parse_answer(b"Fail 3 1 5 15 No index"), Ok(UsbAnswer::Fail {
        cylinder: 3,
        head: 1,
        writes: 5,
        reads: 15,
        error: "No".to_string()
    }));
}

#[test]
fn bad_answers_of_the_device() {
    assert_eq!(parse_answer(b"Hello"), Err(AnswerError::Unexpected));
    assert_eq!(parse_answer(b""), Err(AnswerError::Unexpected));
    assert_eq!(parse_answer(b"RotationTicks"), Err(AnswerError::MissingField));
    assert_eq!(parse_answer(b"RotationTicks x"), Err(AnswerError::BadNumber));
    assert_eq!(parse_answer(b"WrittenAndVerified 1 x"), Err(AnswerError::BadNumber));
    assert_eq!(parse_answer(b"WrittenAndVerified 1 2"), Err(AnswerError::MissingField));
    assert_eq!(parse_answer(b"Fail 1 2 3 4"), Err(AnswerError::MissingField));
    assert_eq!(parse_answer(&[0x52, 0xff]), Err(AnswerError::NotUtf8));
}

#[test]
fn packets_of_a_track_read() {
    let mut acc: Vec<u8> = vec![1, 2];
    assert_eq!(absorb_track_packet(&mut acc, &[7u8; 64]), TrackPacket::Data);
    assert_eq!(acc.len(), 66);
    assert_eq!(absorb_track_packet(&mut acc, &[]), TrackPacket::End);
    assert_eq!(absorb_track_packet(&mut acc, b"No index"), TrackPacket::Message("No index".to_string()));
    assert_eq!(absorb_track_packet(&mut acc, &[0xff, 0xfe]), TrackPacket::NotUtf8);
    assert_eq!(acc.len(), 66);
}

fn packet(words: &[u32]) -> Vec<u8> {
    words.iter().flat_map(|w| w.to_le_bytes()).collect()
}

#[test]
fn device_protocol_write_sequence() {
    let mut class = FloppyTracerVendorClass::new();
    let t = track_to_write(1, 2);
    let header = write_raw_track_header(&RawTrack::new(
        5,
        1,
        vec![0x55; 21],
        vec![
            DensityMapEntry { number_of_cellbytes: 10, cell_size: PulseDuration(168) },
            DensityMapEntry { number_of_cellbytes: 11, cell_size: PulseDuration(168) },
        ],
        Encoding::MFM,
    ))
    .unwrap();
    assert_eq!(class.poll(&header), VendorAction::Nothing);
    assert_eq!(class.remaining_blocks, 1);
    assert_eq!(class.expected_size, 21);
    assert_eq!(class.speeds, t.densitymap);
    assert!(class.current_command.is_none());
    assert_eq!(class.poll(&[0x55; 21]), VendorAction::Nothing);
    assert_eq!(class.remaining_blocks, 0);
    match class.take_command() {
        Some(Command::WriteVerifyRawTrack { track, raw_cell_data, write_precompensation }) => {
            assert_eq!(track, Track { cylinder: Cylinder(5), head: Head(1) });
            assert_eq!(raw_cell_data.borrow_cells(), &vec![0x55u8; 21]);
            assert_eq!(raw_cell_data.borrow_speeds(), &t.densitymap);
            assert_eq!(write_precompensation, PulseDuration(0));
        }
        _ => panic!("no write command"),
    }
    assert!(class.take_command().is_none());
    assert!(class.receive_buffer.is_empty());
    assert!(class.speeds.is_empty());
}

#[test]
fn device_protocol_other_commands() {
    let mut class = FloppyTracerVendorClass::new();
    assert_eq!(
        class.poll(&configure_command(DriveSelectState::B, Density::High, 14)),
        VendorAction::Configure { select_drive: DriveSelectState::B, density: Density::High, index_sim_frequency: 14 }
    );
    assert_eq!(
        class.poll(&packet(&[0x1234_0003, 300])),
        VendorAction::StepToTrack { track: Track { cylinder: Cylinder(44), head: Head(0) } }
    );
    assert_eq!(class.poll(&packet(&[0x1234_0009])), VendorAction::UnknownCommand);
    assert_eq!(class.poll(&read_raw_track_command(3, 1, false, 99)), VendorAction::Nothing);
    match class.take_command() {
        Some(Command::ReadTrack { track, duration_to_record, wait_for_index }) => {
            assert_eq!(track, Track { cylinder: Cylinder(3), head: Head(1) });
            assert_eq!(duration_to_record, 99);
            assert!(!wait_for_index);
        }
        _ => panic!("no read command"),
    }
}

#[test]
fn device_answer_queue() {
    let mut class = FloppyTracerVendorClass::new();
    class.response("GotCmd");
    class.write(&[1, 2, 3]);
    class.write_consume(vec![4]);
    assert_eq!(class.next_packet(), Some(&b"GotCmd".to_vec()));
    class.handle_transmit(false);
    assert_eq!(class.tx_buffer.len(), 3);
    class.handle_transmit(true);
    assert_eq!(class.next_packet(), Some(&vec![1, 2, 3]));
    class.handle_transmit(true);
    class.handle_transmit(true);
    assert!(class.next_packet().is_none());
    class.handle_transmit(true);
    assert!(class.tx_buffer.is_empty());
}

#[test]
fn device_takes_written_header() {
    let t = track_to_write(1, 3);
    let header = write_raw_track_header(&t).unwrap();
    let mut packet = header.clone();
    packet.resize(64, 0);
    let mut class = FloppyTracerVendorClass::new();
    assert_eq!(class.handle_command(&packet), VendorAction::Nothing);
    assert_eq!(class.cylinder, t.cylinder);
    assert_eq!(class.head, t.head);
    assert_eq!(class.has_non_flux_reversal_area, t.has_non_flux_reversal_area);
    assert_eq!(class.write_precompensation, PulseDuration(t.write_precompensation as i32));
    assert_eq!(class.expected_size, t.raw_data.len());
    assert_eq!(class.remaining_blocks as usize, (t.raw_data.len() + 63) / 64);
    assert_eq!(class.speeds, t.densitymap);
}
