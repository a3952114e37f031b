use floppytracer::drive_unit::{
    position_after_seek, step_plan, FloppyControl, FloppyDriveUnit, HeadPosition, MotorState,
    StepDirection, StepRequest,
};
use floppytracer::scsi::{
    command_status_wrapper, lba_track, parse_cbw, scsi_action, scsi_command_supported, BlockDevice,
    IsoBlockDevice, MscScsiProcess, OpCode, ScsiAction,
};
use floppytracer::track_mfm::{MfmTrackHandler, Order, TrackState};
use floppytracer::track_parser::CollectedSector;
use floppytracer::track_verify::{
    compare_pulse, cross_correlate, reduce_pulse, similarity_threshold, PulseComparison, RawTrackError,
    RetryStep, TrackReadCollector, WriteVerifyRetry,
};
use floppytracer::types::{Cylinder, Density, DriveSelectState, Head, PulseDuration, Track};

fn cbw(tag: u32, flags: u8, lun: u8, cb: &[u8]) -> Vec<u8> {
    let mut b = vec![0u8; 64];
    b[0..4].copy_from_slice(&0x4342_5355u32.to_le_bytes());
    b[4..8].copy_from_slice(&tag.to_le_bytes());
    b[8..12].copy_from_slice(&512u32.to_le_bytes());
    b[12] = flags;
    b[13] = lun;
    b[14] = cb.len() as u8;
    b[15..15 + cb.len()].copy_from_slice(cb);
    b
}

#[test]
fn command_block_wrapper() {
    let b = cbw(7, 0x80, 0, &[0x28, 0, 0, 0, 0, 5, 0, 0, 2, 0]);
    let c = parse_cbw(&b, 31).unwrap();
    assert_eq!(c.tag, 7);
    assert_eq!(c.data_transfer_length, 512);
    assert!(c.device_to_host);
    assert_eq!(c.command_block, vec![0x28, 0, 0, 0, 0, 5, 0, 0, 2, 0]);
    assert!(parse_cbw(&b, 30).is_none());
    assert!(parse_cbw(&cbw(7, 0, 1, &[0]), 31).is_none());
    let mut bad = b.clone();
    bad[0] = 0;
    assert!(parse_cbw(&bad, 31).is_none());
}

#[test]
fn command_status_wrapper_bytes() {
    assert_eq!(
        command_status_wrapper(7, Ok(36), 6),
        vec![0x55, 0x53, 0x42, 0x53, 7, 0, 0, 0, 36, 0, 0, 0, 0]
    );
    assert_eq!(
        command_status_wrapper(9, Err(()), 6),
        vec![0x55, 0x53, 0x42, 0x53, 9, 0, 0, 0, 6, 0, 0, 0, 1]
    );
}

#[test]
fn scsi_answers() {
    assert_eq!(OpCode::from_u8(0x28), Some(OpCode::Read10));
    assert_eq!(OpCode::Read10.code(), 0x28);
    assert_eq!(OpCode::from_u8(0x99), None);
    assert!(!scsi_command_supported(&[0x99], true));
    assert!(!scsi_command_supported(&[], true));
    assert!(!scsi_command_supported(&[0x28, 0, 0], true));
    assert!(scsi_command_supported(&[0x28, 0, 0], false));
    match scsi_action(&[0x12], true, 0) {
        ScsiAction::Send { data, count } => {
            assert_eq!(count, 36);
            assert_eq!(&data[8..16], b"Slamy   ");
        }
        other => panic!("unexpected {other:?}"),
    }
    assert_eq!(
        scsi_action(&[0x25], true, 2879),
        ScsiAction::Send { data: vec![0, 0, 0x0b, 0x3f, 0, 0, 2, 0], count: 8 }
    );
    assert_eq!(scsi_action(&[0x25], false, 2879), ScsiAction::Failed);
    assert_eq!(scsi_action(&[0x00], true, 0), ScsiAction::Done);
    assert_eq!(scsi_action(&[0x00], false, 0), ScsiAction::Failed);
    assert_eq!(
        scsi_action(&[0x28, 0, 0, 0, 0x01, 0x02, 0, 0, 3], true, 0),
        ScsiAction::ReadBlocks { lba: 0x102, blocks: 3 }
    );
    assert_eq!(
        scsi_action(&[0x2a, 0, 0, 0, 0, 9, 0, 0, 1], true, 0),
        ScsiAction::WriteBlocks { lba: 9, blocks: 1 }
    );
    match scsi_action(&[0x03], false, 0) {
        ScsiAction::Send { data, count } => {
            assert_eq!(count, 18);
            assert_eq!(data[2], 0x2);
            assert_eq!(data[12], 0x3a);
        }
        other => panic!("unexpected {other:?}"),
    }
    assert_eq!(scsi_action(&[0x1e], true, 0), ScsiAction::Failed);
    assert_eq!(
        scsi_action(&[0x23], true, 0),
        ScsiAction::Send { data: vec![0, 0, 0, 8, 0, 0, 0x0b, 0x40, 2, 0, 2, 0], count: 0 }
    );
}

#[test]
fn scsi_process_with_disk() {
    let process = MscScsiProcess { block_device: IsoBlockDevice::new() };
    assert!(process.block_device.medium_present());
    assert_eq!(process.block_device.max_lba(), 2879);
    assert!(process.supports(&[0x25]));
    assert_eq!(
        process.process_scsi_command(&[0x25]),
        Some(ScsiAction::Send { data: vec![0, 0, 0x0b, 0x3f, 0, 0, 2, 0], count: 8 })
    );
    assert_eq!(process.process_scsi_command(&[0x77]), None);
}

#[test]
fn block_cache() {
    assert_eq!(lba_track(0), (0, 0, 0));
    assert_eq!(lba_track(17), (0, 0, 0));
    assert_eq!(lba_track(18), (0, 1, 18));
    assert_eq!(lba_track(37), (1, 0, 36));
    assert_eq!(lba_track(2879), (79, 1, 2862));

    let mut device = IsoBlockDevice::new();
    assert!(device.cached_block(20).is_none());
    let sectors: Vec<CollectedSector> = (0..18u32)
        .map(|i| CollectedSector { index: i, payload: vec![i as u8; 512] })
        .collect();
    device.store_track(18, sectors);
    assert_eq!(device.cached_block(20), Some(vec![2u8; 512]));
    assert!(device.cached_block(36).is_none());
    // nine more tracks fill the cache of 180 blocks
    for t in 1..10u32 {
        let sectors: Vec<CollectedSector> = (0..18u32)
            .map(|i| CollectedSector { index: i, payload: vec![t as u8; 512] })
            .collect();
        device.store_track(18 + 18 * t, sectors);
    }
    assert_eq!(device.cache.len(), 180);
    assert_eq!(device.cached_block(20), Some(vec![2u8; 512]));
    let sectors: Vec<CollectedSector> = (0..18u32)
        .map(|i| CollectedSector { index: i, payload: vec![99; 512] })
        .collect();
    device.store_track(1000, sectors);
    assert_eq!(device.cache.len(), 180);
    assert!(device.cached_block(20).is_none());
    assert_eq!(device.cached_block(1001), Some(vec![99u8; 512]));
}

#[test]
fn write_and_verify_retries() {
    let (mut s, step) = WriteVerifyRetry::start();
    assert_eq!(step, RetryStep::WriteTrack);
    assert_eq!(s.after_write(true), RetryStep::VerifyTrack);
    // a mismatch reads again, up to three times
    assert_eq!(s.after_verify(Err(RawTrackError::DataNotEqual)), RetryStep::VerifyTrack);
    assert_eq!(s.after_verify(Err(RawTrackError::DataNotEqual)), RetryStep::VerifyTrack);
    assert_eq!(s.after_verify(Err(RawTrackError::DataNotEqual)), RetryStep::WriteTrack);
    assert_eq!(s.after_write(true), RetryStep::VerifyTrack);
    // a failed cross correlation reads once more, then writes again
    assert_eq!(s.after_verify(Err(RawTrackError::NoCrossCorrelation)), RetryStep::VerifyTrack);
    assert_eq!(s.after_verify(Err(RawTrackError::NoCrossCorrelation)), RetryStep::WriteTrack);
    assert_eq!(s.after_write(true), RetryStep::VerifyTrack);
    assert_eq!(
        s.after_verify(Ok(PulseDuration(12))),
        RetryStep::Succeeded { writes: 3, verifies: 6, max_err: PulseDuration(12) }
    );

    let (mut s, _) = WriteVerifyRetry::start();
    assert_eq!(s.after_write(false), RetryStep::Failed { writes: 1, verifies: 0 });

    let (mut s, _) = WriteVerifyRetry::start();
    s.after_write(true);
    assert_eq!(s.after_verify(Err(RawTrackError::NoIndexPulse)), RetryStep::Failed { writes: 1, verifies: 1 });

    // five writes at most
    let (mut s, _) = WriteVerifyRetry::start();
    let mut last = RetryStep::WriteTrack;
    let mut steps = 0;
    while last == RetryStep::WriteTrack || last == RetryStep::VerifyTrack {
        last = if last == RetryStep::WriteTrack {
            s.after_write(true)
        } else {
            s.after_verify(Err(RawTrackError::DataNotEqual))
        };
        steps += 1;
    }
    assert_eq!(steps, 20);
    assert_eq!(last, RetryStep::Failed { writes: 5, verifies: 15 });
}

#[test]
fn pulse_reduction_and_collection() {
    assert_eq!(reduce_pulse(0), 0);
    assert_eq!(reduce_pulse(168), 21);
    assert_eq!(reduce_pulse(171), 21);
    assert_eq!(reduce_pulse(172), 22);
    assert_eq!(reduce_pulse(5000), 0xff);

    let mut c = TrackReadCollector::new(64 * 100);
    for _ in 0..63 {
        assert!(!c.feed_pulse(100));
    }
    assert!(c.frames.is_empty());
    assert!(c.feed_pulse(100));
    assert_eq!(c.frames.len(), 1);
    assert_eq!(c.frames[0], vec![13u8; 64]);
    assert!(c.required_duration_was_recorded);
    assert!(c.keep_reading(0));
    assert!(!c.keep_reading(1));
}

#[test]
fn verification_compare() {
    assert_eq!(similarity_threshold(PulseDuration(168)), 58);
    let reference: Vec<PulseDuration> = (0..20).map(|i| PulseDuration(200 + (i % 3) * 100)).collect();
    let mut read: Vec<PulseDuration> = vec![PulseDuration(500); 7];
    read.extend(reference.iter().map(|p| PulseDuration(p.0 + 10)));
    read.resize(200, PulseDuration(200));
    assert_eq!(cross_correlate(&read, &reference, 58), Ok(7));
    let nothing = vec![PulseDuration(1000); 200];
    assert_eq!(cross_correlate(&nothing, &reference, 58), Err(RawTrackError::NoCrossCorrelation));

    assert_eq!(
        compare_pulse(PulseDuration(300), PulseDuration(320), PulseDuration(168), 58),
        PulseComparison::Match { diff: 20 }
    );
    assert_eq!(
        compare_pulse(PulseDuration(300), PulseDuration(400), PulseDuration(168), 58),
        PulseComparison::Mismatch
    );
    assert_eq!(
        compare_pulse(PulseDuration(2000), PulseDuration(400), PulseDuration(168), 58),
        PulseComparison::NonFluxReversal
    );
}

#[test]
fn drive_motor_and_head() {
    let mut d = FloppyDriveUnit::new();
    assert!(!d.is_spinning());
    d.spin_motor();
    assert!(d.is_spinning());
    assert!(d.selection_signal_active());
    for _ in 0..600 {
        d.run();
    }
    assert_eq!(d.motor_state, MotorState::On(0));
    d.run();
    assert!(!d.is_spinning());
    assert!(!d.selection_signal_active());
    assert!(!d.head_position_equals(0));
    let p = d.take_head_position_for_stepping();
    assert_eq!(p, HeadPosition::Unknown);
    assert!(d.selection_signal_active());
    d.insert_current_head_position(HeadPosition::Cylinder(0));
    assert!(d.head_position_equals(0));
    assert!(!d.selection_signal_active());

    assert_eq!(step_plan(3, 10), Some((StepDirection::Inward, 7)));
    assert_eq!(step_plan(10, 3), Some((StepDirection::Outward, 7)));
    assert_eq!(step_plan(4, 4), None);
    assert_eq!(position_after_seek(true), HeadPosition::Cylinder(0));
    assert_eq!(position_after_seek(false), HeadPosition::Unknown);
}

#[test]
fn floppy_control_selects_and_steps() {
    let mut c = FloppyControl::new(FloppyDriveUnit::new(), FloppyDriveUnit::new());
    assert!(!c.is_spinning());
    c.select_drive(DriveSelectState::B);
    c.select_density(Density::High);
    assert!(c.density_high);
    c.spin_motor();
    assert!(c.is_spinning());
    assert!(!c.drive_a.is_spinning());
    let request = c.select_track(Track { cylinder: Cylinder(20), head: Head(1) });
    assert_eq!(request, Some(StepRequest { from: HeadPosition::Unknown, to: 20 }));
    assert!(!c.head_select_high);
    assert!(!c.reached_selected_cylinder());
    c.step_finished(HeadPosition::Cylinder(20));
    assert!(c.reached_selected_cylinder());
    assert_eq!(c.select_track(Track { cylinder: Cylinder(20), head: Head(0) }), None);
    assert!(c.head_select_high);
    c.stop_motor();
    assert!(!c.is_spinning());
}

#[test]
fn mfm_track_writer_orders() {
    let mut h = MfmTrackHandler::new();
    assert_eq!(h.run(), None);
    h.order_queue.push_back(Order::Verify(1));
    h.order_queue.push_back(Order::Write(2, vec![7, 8]));
    assert_eq!(h.run(), None);
    assert_eq!(h.state, TrackState::Idle);
    assert_eq!(h.run(), None);
    assert_eq!(h.state, TrackState::WaitingForIndexToWrite);
    assert_eq!(h.run(), None);
    h.index();
    assert_eq!(h.state, TrackState::WritingTrack);
    assert_eq!(h.run(), Some(7));
    assert_eq!(h.run(), Some(8));
    assert_eq!(h.run(), None);
    assert_eq!(h.state, TrackState::VerifyingTrack);
}

#[test]
fn drive_motor_runs_its_time() {
    let mut d = FloppyDriveUnit::new();
    d.spin_motor();
    d.run_for(600);
    assert!(d.is_spinning());
    d.run_for(1);
    assert!(!d.is_spinning());
    assert!(!d.selection_signal_active());
}
