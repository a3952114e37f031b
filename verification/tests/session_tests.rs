use floppytracer::calibration::{
    calibration_cylinders, calibration_step, calibration_track, maximum_write_precompensation, CalibrationStep,
    CalibrationTable, FAILED_TRACK_ERROR,
};
use floppytracer::digest::image_digest;
use floppytracer::rawtrack::{RawTrack, TrackFilter};
use floppytracer::session::{
    choose_drive, discovery_formats, format_for_extension, index_sim_frequency, read_plan, DriveChoiceError,
    ImageFormat, ReadPlan, ReadPlanError, SessionStep, WriteSession,
    ReadSession, ReadStep,
};
use floppytracer::types::{Density, DensityMapEntry, DiskType, DriveSelectState, Encoding, PulseDuration};
use floppytracer::usb_answer::UsbAnswer;

fn track(cylinder: u32, head: u32) -> RawTrack {
    RawTrack::new(cylinder, head, vec![0x55; 4], vec![], Encoding::MFM)
}

fn verified(cylinder: u32, head: u32, max_err: u32) -> UsbAnswer {
    UsbAnswer::WrittenAndVerified {
        cylinder,
        head,
        writes: 1,
        reads: 1,
        max_err,
        similarity_threshold: 20,
        match_after_pulses: 0,
        write_precomp: 0,
    }
}

#[test]
fn drive_choice() {
    assert_eq!(choose_drive(true, false), Ok(DriveSelectState::A));
    assert_eq!(choose_drive(false, true), Ok(DriveSelectState::B));
    assert_eq!(choose_drive(true, true), Err(DriveChoiceError::Both));
    assert_eq!(choose_drive(false, false), Err(DriveChoiceError::Neither));
}

#[test]
fn flippy_index_period() {
    assert_eq!(index_sim_frequency(None), 0);
    assert_eq!(index_sim_frequency(Some(1000)), 13_000_000);
    assert_eq!(index_sim_frequency(Some(14000)), 0);
    assert_eq!(index_sim_frequency(Some(0)), 14_000_000);
}

#[test]
fn formats_by_extension() {
    assert_eq!(format_for_extension("adf"), Some(ImageFormat::Amiga));
    assert_eq!(format_for_extension("d64"), Some(ImageFormat::C64));
    assert_eq!(format_for_extension("st"), Some(ImageFormat::IsoDouble));
    assert_eq!(format_for_extension("img"), Some(ImageFormat::IsoHigh));
    assert_eq!(format_for_extension("ADF"), None);
    assert_eq!(format_for_extension("ipf"), None);
    assert_eq!(format_for_extension(""), None);
    assert_eq!(
        discovery_formats(),
        vec![ImageFormat::Amiga, ImageFormat::C64, ImageFormat::IsoDouble, ImageFormat::IsoHigh]
    );
}

#[test]
fn read_plans() {
    let range = TrackFilter { cyl_start: Some(2), cyl_end: Some(4), head: None, is_range: true };
    assert_eq!(
        read_plan(&range),
        Ok(ReadPlan { cylinder_begin: 2, cylinder_end: 5, head_begin: 0, head_end: 2 })
    );
    let single = TrackFilter { cyl_start: Some(8), cyl_end: Some(8), head: Some(1), is_range: false };
    assert_eq!(
        read_plan(&single),
        Ok(ReadPlan { cylinder_begin: 0, cylinder_end: 8, head_begin: 1, head_end: 2 })
    );
    let open_start = TrackFilter { cyl_start: None, cyl_end: Some(79), head: Some(0), is_range: true };
    assert_eq!(
        read_plan(&open_start),
        Ok(ReadPlan { cylinder_begin: 0, cylinder_end: 80, head_begin: 0, head_end: 1 })
    );
    let no_end = TrackFilter { cyl_start: Some(3), cyl_end: None, head: None, is_range: true };
    assert_eq!(read_plan(&no_end), Err(ReadPlanError::NoLastCylinder));
    let bad_head = TrackFilter { cyl_start: Some(3), cyl_end: Some(5), head: Some(2), is_range: true };
    assert_eq!(read_plan(&bad_head), Err(ReadPlanError::BadHead));
}

#[test]
fn read_plans_of_filter_parameters() {
    let plan = |p: &str| read_plan(&TrackFilter::new(p)).unwrap();
    let cylinders = |p: &str| {
        let r = plan(p);
        (r.cylinder_begin, r.cylinder_end)
    };
    // the first 82 cylinders
    assert_eq!(cylinders("82"), (0, 82));
    // cylinders 0 to 2
    assert_eq!(cylinders("-2"), (0, 3));
    // cylinders 2 to 3
    assert_eq!(cylinders("2-3"), (2, 4));
    // a range is inclusive also where it ends where it starts
    assert_eq!(cylinders("-0"), (0, 1));
    assert_eq!(cylinders("5-5"), (5, 6));
    let head = plan("8:1");
    assert_eq!((head.head_begin, head.head_end), (1, 2));
}

#[test]
fn write_session_runs_through_image() {
    let tracks = vec![track(0, 0), track(0, 1)];
    let mut session = WriteSession::new();
    assert_eq!(session.take_next_write(tracks.len()), Some(0));
    assert_eq!(session.on_answer(&tracks, &UsbAnswer::GotCmd), SessionStep::SendNext);
    assert_eq!(session.take_next_write(tracks.len()), Some(1));
    assert_eq!(session.take_next_write(tracks.len()), None);
    assert_eq!(session.on_answer(&tracks, &verified(0, 1, 3)), SessionStep::WrongTrack);
    assert_eq!(session.next_verify, 0);
    assert_eq!(session.on_answer(&tracks, &verified(0, 0, 3)), SessionStep::Verified);
    assert_eq!(session.on_answer(&tracks, &verified(0, 1, 3)), SessionStep::Finished);
    assert_eq!(session.next_verify, 2);
}

#[test]
fn write_session_failures() {
    let tracks = vec![track(5, 0)];
    let mut session = WriteSession::new();
    let fail = UsbAnswer::Fail { cylinder: 5, head: 0, writes: 5, reads: 15, error: "NoMatch".to_string() };
    assert_eq!(session.on_answer(&tracks, &fail), SessionStep::TrackFailed);
    assert_eq!(session.on_answer(&tracks, &UsbAnswer::WriteProtected), SessionStep::WriteProtected);
    assert_eq!(session.on_answer(&tracks, &UsbAnswer::RotationTicks { ticks: 1 }), SessionStep::Unexpected);
    assert_eq!(session, WriteSession { next_write: 0, next_verify: 0 });
}

#[test]
fn calibration_choices() {
    let cylinders = calibration_cylinders();
    assert_eq!(cylinders, vec![0, 10, 20, 30, 39, 40, 41, 42, 43, 44, 50, 60, 70, 75, 79]);
    assert_eq!(maximum_write_precompensation(Density::High, DiskType::Inch3_5), Some(12));
    assert_eq!(maximum_write_precompensation(Density::SingleDouble, DiskType::Inch3_5), Some(22));
    assert_eq!(maximum_write_precompensation(Density::SingleDouble, DiskType::Inch5_25), Some(14));
    assert_eq!(maximum_write_precompensation(Density::High, DiskType::Inch5_25), None);

    let tracks = vec![track(0, 0), track(10, 0), track(10, 1)];
    assert_eq!(calibration_track(&tracks, 10), Some(1));
    assert_eq!(calibration_track(&tracks, 0), Some(0));
    assert_eq!(calibration_track(&tracks, 39), Some(2));
    assert_eq!(calibration_track(&[], 39), None);

    assert_eq!(calibration_step(&verified(10, 0, 7)), CalibrationStep::Record { cylinder: 10, max_err: 7 });
    let fail = UsbAnswer::Fail { cylinder: 42, head: 0, writes: 5, reads: 15, error: "NoMatch".to_string() };
    assert_eq!(
        calibration_step(&fail),
        CalibrationStep::Record { cylinder: 42, max_err: FAILED_TRACK_ERROR }
    );
    assert_eq!(FAILED_TRACK_ERROR, 55);
    assert_eq!(calibration_step(&UsbAnswer::GotCmd), CalibrationStep::NextTrack);
    assert_eq!(calibration_step(&UsbAnswer::WriteProtected), CalibrationStep::WriteProtected);
    assert_eq!(calibration_step(&UsbAnswer::RotationTicks { ticks: 5 }), CalibrationStep::Unexpected);
}

#[test]
fn calibration_table_keeps_rows_by_cylinder() {
    let mut table = CalibrationTable::new();
    table.start_cylinder(40);
    table.start_cylinder(10);
    assert!(table.has_cylinder(40));
    assert!(table.has_cylinder(10));
    assert!(!table.has_cylinder(20));
    table.record(40, 3);
    table.record(10, 5);
    table.record(40, 4);
    let rows: Vec<(u32, Vec<u32>)> = table.rows.iter().map(|r| (r.cylinder, r.max_errors.clone())).collect();
    assert_eq!(rows, vec![(10, vec![5]), (40, vec![3, 4])]);
    table.start_cylinder(40);
    table.start_cylinder(79);
    let rows: Vec<(u32, Vec<u32>)> = table.rows.iter().map(|r| (r.cylinder, r.max_errors.clone())).collect();
    assert_eq!(rows, vec![(10, vec![5]), (40, vec![]), (79, vec![])]);
}

#[test]
fn image_digest_of_tracks() {
    assert_eq!(
        image_digest(&[]),
        [212, 29, 140, 217, 143, 0, 178, 4, 233, 128, 9, 152, 236, 248, 66, 126]
    );
    let t = RawTrack::new(
        1,
        0,
        vec![0xaa, 0x55, 0x00],
        vec![DensityMapEntry { number_of_cellbytes: 3, cell_size: PulseDuration(168) }],
        Encoding::MFM,
    );
    assert_eq!(
        image_digest(&[t]),
        [205, 178, 167, 255, 131, 23, 101, 53, 229, 247, 255, 35, 182, 140, 212, 154]
    );
}

#[test]
fn read_session_reads_planned_tracks_in_order() {
    let plan = read_plan(&TrackFilter::new("2-3")).unwrap();
    let mut session = ReadSession::new(plan, 1);
    let mut order = Vec::new();
    while let Some((c, h)) = session.current() {
        order.push((c, h));
        assert_eq!(session.on_read(Some((c, h))), ReadStep::Store);
    }
    assert_eq!(order, vec![(2, 0), (2, 1), (3, 0), (3, 1)]);

    // every second cylinder, one head
    let plan = read_plan(&TrackFilter::new("0-5:0")).unwrap();
    let mut session = ReadSession::new(plan, 2);
    let mut order = Vec::new();
    while let Some((c, h)) = session.current() {
        order.push((c, h));
        session.on_read(Some((c, h)));
    }
    assert_eq!(order, vec![(0, 0), (2, 0), (4, 0)]);
}

#[test]
fn read_session_retries_and_checks() {
    let plan = read_plan(&TrackFilter::new("7")).unwrap();
    let mut session = ReadSession::new(plan, 1);
    assert_eq!(session.current(), Some((0, 0)));
    for _ in 0..4 {
        assert_eq!(session.on_read(None), ReadStep::Retry);
    }
    assert_eq!(session.on_read(None), ReadStep::GiveUp);
    let mut session = ReadSession::new(plan, 1);
    assert_eq!(session.on_read(Some((1, 0))), ReadStep::WrongTrack);
    assert_eq!(session.current(), Some((0, 0)));
    assert_eq!(session.on_read(None), ReadStep::Retry);
    assert_eq!(session.on_read(Some((0, 0))), ReadStep::Store);
    assert_eq!(session.current(), Some((0, 1)));
    assert_eq!(session.failed_reads, 0);
}
