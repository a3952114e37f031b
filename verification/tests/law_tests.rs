use floppytracer::bitstream::{pack_cells, to_bit_stream};
use floppytracer::drive_speed::{format_stored_ticks, parse_stored_ticks};
use floppytracer::drive_unit::{stepper_plan, HeadPosition, StepDirection, StepperPlan};
use floppytracer::gcr::{to_gcr_stream, GcrDecoder, GcrDecoderResult};
use floppytracer::image_iso::{generate_iso_track, IsoGeometry};
use floppytracer::mfm::{MfmDecoder, MfmEncoder, MfmWord};
use floppytracer::fluxpulse::FluxPulseGenerator;
use floppytracer::track_parser::iso::IsoTrackParser;
use floppytracer::track_parser::{TrackParseError, TrackParser};
use floppytracer::track_verify::{trim_reference, verify_pulses, RawTrackError};
use floppytracer::types::{reduce_densitymap, Bit, Density, DensityMapEntry, PulseDuration};

fn entry(n: usize, c: i32) -> DensityMapEntry {
    DensityMapEntry { number_of_cellbytes: n, cell_size: PulseDuration(c) }
}

#[test]
fn density_runs_merge() {
    let m = vec![entry(10, 100), entry(5, 100), entry(3, 200), entry(2, 100)];
    let reduced = reduce_densitymap(m);
    assert_eq!(reduced, vec![entry(15, 100), entry(3, 200), entry(2, 100)]);
    assert_eq!(reduce_densitymap(reduced.clone()), reduced);
}

#[test]
fn stepper_plans() {
    let known = stepper_plan(HeadPosition::Cylinder(10), 3, &[], false);
    assert_eq!(
        known,
        StepperPlan {
            seek_pulses: 0,
            steps: Some((StepDirection::Outward, 7)),
            result: HeadPosition::Cylinder(3)
        }
    );
    // the track 0 signal shows after the fourth pulse
    let found = stepper_plan(HeadPosition::Unknown, 5, &[false, false, false, true], true);
    assert_eq!(
        found,
        StepperPlan { seek_pulses: 4, steps: Some((StepDirection::Inward, 5)), result: HeadPosition::Cylinder(5) }
    );
    // never shows: ninety pulses, position stays unknown
    let lost = stepper_plan(HeadPosition::Unknown, 5, &[false; 120], false);
    assert_eq!(lost, StepperPlan { seek_pulses: 90, steps: None, result: HeadPosition::Unknown });
    let at_zero = stepper_plan(HeadPosition::Unknown, 0, &[true], true);
    assert_eq!(at_zero, StepperPlan { seek_pulses: 1, steps: None, result: HeadPosition::Cylinder(0) });
}

fn pulses(v: &[i32]) -> Vec<PulseDuration> {
    v.iter().map(|p| PulseDuration(*p)).collect()
}

#[test]
fn verify_pass_over_track() {
    let reference = pulses(&[168, 252, 336, 168, 252]);
    let threshold = 58;
    // read back exactly
    assert_eq!(verify_pulses(&reference, &reference, PulseDuration(84), threshold), Some(Ok(PulseDuration(0))));
    // read back a little off: the largest difference
    let off = pulses(&[170, 250, 346, 160, 252]);
    assert_eq!(verify_pulses(&reference, &off, PulseDuration(84), threshold), Some(Ok(PulseDuration(10))));
    // the third pulse is too far off
    let bad = pulses(&[168, 252, 168, 168, 252]);
    assert_eq!(
        verify_pulses(&reference, &bad, PulseDuration(84), threshold),
        Some(Err(RawTrackError::DataNotEqual))
    );
    // not enough read back yet
    assert_eq!(verify_pulses(&reference, &reference[..3], PulseDuration(84), threshold), None);
    // an area without flux reversals skips the reference pulse behind it
    let nfr = pulses(&[168, 5000, 999, 252]);
    let read = pulses(&[168, 3, 252]);
    assert_eq!(verify_pulses(&nfr, &read, PulseDuration(84), threshold), Some(Ok(PulseDuration(0))));
}

#[test]
fn reference_trimming() {
    let r = pulses(&[1, 2, 3, 4, 5, 6, 6, 6, 7, 6]);
    assert_eq!(trim_reference(&r), 8);
    let r = pulses(&[1, 2, 3, 4, 5, 6, 7]);
    assert_eq!(trim_reference(&r), 6);
}

#[test]
fn stored_ticks_read_back() {
    for t in [0u32, 7, 10, 13_961_218, 16_800_000, u32::MAX] {
        let text = format_stored_ticks(t);
        assert_eq!(text, format!("{t}\n").into_bytes());
        assert_eq!(parse_stored_ticks(&text), Some(t));
    }
}

#[test]
fn collected_bytes_read_back() {
    let bytes = vec![0x00u8, 0xff, 0x5a, 0x81, 0x44];
    let mut cells: Vec<Bit> = Vec::new();
    for b in &bytes {
        to_bit_stream(*b, &mut cells);
    }
    cells.extend([Bit(true), Bit(false), Bit(true)]);
    assert_eq!(pack_cells(&cells), bytes);
}

#[test]
fn gcr_decoder_reads_sync_and_bytes() {
    let bytes = vec![0x08u8, 0x12, 0x00, 0xff, 0x41];
    let mut cells: Vec<Bit> = vec![Bit(true); 12];
    for b in &bytes {
        to_gcr_stream(*b, &mut cells);
    }
    assert!(!cells[12].0);
    let mut decoder = GcrDecoder::new();
    let mut out: Vec<GcrDecoderResult> = Vec::new();
    decoder.feed_cells(&cells, &mut out);
    let mut expected = vec![GcrDecoderResult::Sync];
    expected.extend(bytes.iter().map(|b| GcrDecoderResult::Byte(*b)));
    assert_eq!(out, expected);
}

#[test]
fn mfm_decoder_reads_sync_and_bytes() {
    let bytes = vec![0xfeu8, 0x00, 0x01, 0xa1, 0x44, 0x89, 0x4e, 0xff];
    let mut encoder = MfmEncoder::new();
    let mut cells: Vec<Bit> = Vec::new();
    for _ in 0..3 {
        encoder.feed(MfmWord::SyncWord, &mut cells);
    }
    for b in &bytes {
        encoder.feed(MfmWord::Enc(*b), &mut cells);
    }
    let mut decoder = MfmDecoder::new();
    let mut out: Vec<MfmWord> = Vec::new();
    decoder.feed_cells(&cells, &mut out);
    let mut expected = vec![MfmWord::SyncWord];
    expected.extend(bytes.iter().map(|b| MfmWord::Enc(*b)));
    assert_eq!(out, expected);
}

fn iso_pulses(spt: usize, cylinder: u32, seed: u8) -> (Vec<u8>, Vec<u8>) {
    let geometry = IsoGeometry::new(spt);
    let data: Vec<u8> = (0..512 * spt).map(|i| (i as u8).wrapping_mul(seed).wrapping_add(seed)).collect();
    let trackbuf = generate_iso_track(cylinder, 0, &geometry, &data);
    let mut out: Vec<PulseDuration> = Vec::new();
    let mut generator = FluxPulseGenerator::new(168 >> 3);
    for b in trackbuf.iter().chain([0x55u8].iter()) {
        let mut cells: Vec<Bit> = Vec::new();
        to_bit_stream(*b, &mut cells);
        for c in cells {
            generator.feed(c, &mut out);
        }
    }
    generator.flush(&mut out);
    (data, out.iter().map(|p| p.0 as u8).collect())
}

#[test]
fn iso_sector_count_fixed_by_first_track() {
    let mut parser = IsoTrackParser::new(None, Density::SingleDouble);
    let (data, first) = iso_pulses(9, 4, 3);
    parser.expect_track(4, 0);
    assert_eq!(parser.parse_raw_track(&first).unwrap().payload, data);
    // the next track has nine sectors as well
    let (data, second) = iso_pulses(9, 5, 7);
    parser.expect_track(5, 0);
    assert_eq!(parser.parse_raw_track(&second).unwrap().payload, data);
    // a track of eight sectors now misses one
    let (_, short) = iso_pulses(8, 6, 11);
    parser.expect_track(6, 0);
    assert!(matches!(parser.parse_raw_track(&short), Err(TrackParseError::MissingSectors)));
}
