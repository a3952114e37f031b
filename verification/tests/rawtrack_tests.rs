use floppytracer::drive_speed::{
    get_timer_ticks_per_rotation, parse_stored_ticks, speed_config_file_name,
    DRIVE_5_25_TIMER_TICKS_PER_ROTATION,
};
use floppytracer::rawtrack::{parse_decimal, RawImage, RawTrack, TrackFilter};
use floppytracer::types::{DensityMapEntry, DiskType, Density, DriveSelectState, Encoding, PulseDuration};
use floppytracer::writability::WritabilityError;
use floppytracer::write_precomp::{CylinderInterpolation, Sample, WritePrecompDb};

#[test]
fn track_filter_test() {
    let filter = TrackFilter::new("2-10");
    assert_eq!(filter.cyl_end.unwrap(), 10);
    assert_eq!(filter.cyl_start.unwrap(), 2);
    assert!(filter.head.is_none());

    let filter = TrackFilter::new("2-");
    assert!(filter.cyl_end.is_none());
    assert_eq!(filter.cyl_start.unwrap(), 2);
    assert!(filter.head.is_none());

    let filter = TrackFilter::new("-8");
    assert!(filter.cyl_start.is_none());
    assert_eq!(filter.cyl_end.unwrap(), 8);
    assert!(filter.head.is_none());

    let filter = TrackFilter::new("2-10:1");
    assert_eq!(filter.cyl_end.unwrap(), 10);
    assert_eq!(filter.cyl_start.unwrap(), 2);
    assert_eq!(filter.head.unwrap(), 1);

    let filter = TrackFilter::new("2-8:0");
    assert_eq!(filter.cyl_end.unwrap(), 8);
    assert_eq!(filter.cyl_start.unwrap(), 2);
    assert_eq!(filter.head.unwrap(), 0);

    let filter = TrackFilter::new("34");
    assert_eq!(filter.cyl_end.unwrap(), 34);
    assert_eq!(filter.cyl_start.unwrap(), 34);
    assert!(filter.head.is_none());
}

fn track(cylinder: u32, head: u32) -> RawTrack {
    RawTrack::new(
        cylinder,
        head,
        vec![0x55; 4],
        vec![DensityMapEntry { number_of_cellbytes: 4, cell_size: PulseDuration(168) }],
        Encoding::MFM,
    )
}

#[test]
fn filter_keeps_matching_tracks_in_order() {
    let mut image = RawImage {
        density: Density::SingleDouble,
        disk_type: DiskType::Inch3_5,
        tracks: vec![track(0, 0), track(1, 1), track(2, 0), track(3, 1), track(4, 0)],
    };
    image.filter_tracks(TrackFilter::new("1-3:1"));
    let kept: Vec<(u32, u32)> = image.tracks.iter().map(|t| (t.cylinder, t.head)).collect();
    assert_eq!(kept, vec![(1, 1), (3, 1)]);
}

#[test]
fn decimal_numbers() {
    assert_eq!(parse_decimal(b"123"), Some(123));
    assert_eq!(parse_decimal(b"+7"), Some(7));
    assert_eq!(parse_decimal(b"4294967295"), Some(u32::MAX));
    assert_eq!(parse_decimal(b"4294967296"), None);
    assert_eq!(parse_decimal(b""), None);
    assert_eq!(parse_decimal(b"+"), None);
    assert_eq!(parse_decimal(b"-1"), None);
    assert_eq!(parse_decimal(b"12a"), None);
}

#[test]
fn stored_drive_speed() {
    assert_eq!(parse_stored_ticks(b"14000000\n"), Some(14_000_000));
    assert_eq!(parse_stored_ticks(b"14000000\r\nmore"), Some(14_000_000));
    assert_eq!(parse_stored_ticks(b"14000000"), Some(14_000_000));
    assert_eq!(parse_stored_ticks(b" 14000000\n"), None);
    assert_eq!(parse_stored_ticks(b""), None);
    assert_eq!(get_timer_ticks_per_rotation(Some(5)), 5);
    assert_eq!(get_timer_ticks_per_rotation(None), DRIVE_5_25_TIMER_TICKS_PER_ROTATION);
    assert_eq!(speed_config_file_name(DriveSelectState::A), Some("speed_a.cfg"));
    assert_eq!(speed_config_file_name(DriveSelectState::B), Some("speed_b.cfg"));
    assert_eq!(speed_config_file_name(DriveSelectState::Unselected), None);
}

#[test]
fn write_precompensation_table() {
    let db = WritePrecompDb::from_config(b"168 80 12\n168 0 4\nbad line\n200 0 6 7\n\xff 1 2 3\n200 0 6\n");
    assert_eq!(
        db.samples,
        vec![
            Sample { cellsize: 168, cylinder: 0, wprecomp: 4 },
            Sample { cellsize: 168, cylinder: 80, wprecomp: 12 },
            Sample { cellsize: 200, cylinder: 0, wprecomp: 6 },
        ]
    );
    // between two samples of cell size 168
    assert_eq!(
        db.lerp_left(180, 40),
        Some(CylinderInterpolation::Between {
            top: Sample { cellsize: 168, cylinder: 0, wprecomp: 4 },
            bottom: Sample { cellsize: 168, cylinder: 80, wprecomp: 12 },
        })
    );
    // nothing right of the point at this cylinder: the last sample
    assert_eq!(db.lerp_right(220, 40), Some(CylinderInterpolation::Exact { wprecomp: 6, cellsize: 200 }));
    // no sample left of and above the point
    assert_eq!(db.lerp_left(100, 40), None);
    // the right side has no sample above the point in its column
    assert_eq!(db.lerp_right(168, 0), Some(CylinderInterpolation::Exact { wprecomp: 4, cellsize: 168 }));
}

#[test]
fn writability_of_tracks() {
    // regular MFM data: pulses of 2, 3 and 4 cells
    let ok = track(0, 0);
    assert_eq!(ok.check_writability(), Ok(()));
    // 0xff: flux reversals in neighbouring cells, shorter than a cell plus the margin
    let bad = RawTrack::new(
        0,
        0,
        vec![0x55, 0xff, 0xff],
        vec![DensityMapEntry { number_of_cellbytes: 3, cell_size: PulseDuration(168) }],
        Encoding::MFM,
    );
    match bad.check_writability() {
        Err(WritabilityError::TooShortPulse { offset, pulse }) => {
            assert_eq!(offset, 2);
            assert_eq!(pulse, PulseDuration(168));
        }
        other => panic!("unexpected {other:?}"),
    }
    // GCR tracks are not checked
    let gcr = RawTrack::new(
        0,
        0,
        vec![0xff, 0xff],
        vec![DensityMapEntry { number_of_cellbytes: 2, cell_size: PulseDuration(168) }],
        Encoding::GCR,
    );
    assert_eq!(gcr.check_writability(), Ok(()));
}
