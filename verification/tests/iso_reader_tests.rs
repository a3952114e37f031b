use floppytracer::iso_reader::{read_iso_sectors, read_iso_track, IsoTrackOutcome};
use floppytracer::mfm::{MfmEncoder, MfmWord};
use floppytracer::types::Bit;

fn crc(bytes: &[u8]) -> [u8; 2] {
    crc16::State::<crc16::CCITT_FALSE>::calculate(bytes).to_be_bytes()
}

fn sector_data(sector: u8) -> Vec<u8> {
    (0..512u32).map(|i| (i as u8) ^ sector).collect()
}

/// The words of one sector as the decoder gives them: sync, header, gap, sync, data.
fn sector_words(cylinder: u8, head: u8, sector: u8, size_code: u8) -> Vec<MfmWord> {
    let mut words = vec![MfmWord::SyncWord, MfmWord::Enc(0xfe)];
    let header = [cylinder, head, sector, size_code];
    let mut msg = vec![0xa1, 0xa1, 0xa1, 0xfe];
    msg.extend_from_slice(&header);
    let header_crc = crc(&msg);
    words.extend(header.iter().map(|b| MfmWord::Enc(*b)));
    words.extend(header_crc.iter().map(|b| MfmWord::Enc(*b)));
    words.extend((0..22).map(|_| MfmWord::Enc(0x4e)));
    words.push(MfmWord::SyncWord);
    words.push(MfmWord::Enc(0xfb));
    let size = 128usize << size_code;
    let data: Vec<u8> = (0..size as u32).map(|i| (i as u8) ^ sector).collect();
    let mut msg = vec![0xa1, 0xa1, 0xa1, 0xfb];
    msg.extend_from_slice(&data);
    let data_crc = crc(&msg);
    words.extend(data.iter().map(|b| MfmWord::Enc(*b)));
    words.extend(data_crc.iter().map(|b| MfmWord::Enc(*b)));
    words.extend((0..40).map(|_| MfmWord::Enc(0x4e)));
    words
}

fn track_words(cylinder: u8, head: u8, sectors: std::ops::RangeInclusive<u8>) -> Vec<MfmWord> {
    let mut words: Vec<MfmWord> = (0..10).map(|_| MfmWord::Enc(0x4e)).collect();
    for s in sectors {
        words.extend(sector_words(cylinder, head, s, 2));
    }
    words
}

#[test]
fn iso_reader_collects_all_sectors() {
    let words = track_words(5, 1, 1..=18);
    match read_iso_sectors(&words, 5, 1) {
        IsoTrackOutcome::Complete(sectors) => {
            assert_eq!(sectors.len(), 18);
            for (i, s) in sectors.iter().enumerate() {
                assert_eq!(s.index, i as u32);
                assert_eq!(s.payload, sector_data(i as u8 + 1));
            }
        }
        _ => panic!("track not read"),
    }
}

#[test]
fn iso_reader_needs_all_sectors() {
    let words = track_words(5, 1, 1..=17);
    assert!(matches!(read_iso_sectors(&words, 5, 1), IsoTrackOutcome::Incomplete));
}

#[test]
fn iso_reader_refuses_other_track() {
    let words = track_words(6, 1, 1..=18);
    assert!(matches!(read_iso_sectors(&words, 5, 1), IsoTrackOutcome::WrongTrack));
    let words = track_words(5, 0, 1..=18);
    assert!(matches!(read_iso_sectors(&words, 5, 1), IsoTrackOutcome::WrongTrack));
}

#[test]
fn iso_reader_refuses_other_sector_size() {
    let mut words = track_words(5, 1, 1..=3);
    words.extend(sector_words(5, 1, 4, 3));
    assert!(matches!(read_iso_sectors(&words, 5, 1), IsoTrackOutcome::Corrupt));
}

#[test]
fn iso_reader_skips_bad_checksums_and_repeats() {
    let mut words = track_words(5, 1, 1..=2);
    // sector 1 again: its header is valid but the sector is known, so its data is ignored
    let mut repeat = sector_words(5, 1, 1, 2);
    let data_start = repeat.len() - 40 - 514;
    repeat[data_start] = MfmWord::Enc(0xff);
    words.extend(repeat);
    // a header with a broken checksum is ignored, and so is the data behind it
    let mut broken = sector_words(5, 1, 9, 2);
    if let MfmWord::Enc(b) = broken[7] {
        broken[7] = MfmWord::Enc(b ^ 0xff);
    }
    words.extend(broken);
    words.extend(track_words(5, 1, 3..=18));
    match read_iso_sectors(&words, 5, 1) {
        IsoTrackOutcome::Complete(sectors) => {
            let indices: Vec<u32> = sectors.iter().map(|s| s.index).collect();
            assert_eq!(indices, (0..18).collect::<Vec<u32>>());
            assert_eq!(sectors[0].payload, sector_data(1));
        }
        _ => panic!("track not read"),
    }
}

/// The pulse durations of cells: each flux reversal ends a pulse as long as the cells
/// since the previous one.
fn cells_to_pulses(cells: &[Bit]) -> Vec<u32> {
    let mut pulses = Vec::new();
    let mut run = 0u32;
    for c in cells {
        run += 1;
        if c.0 {
            pulses.push(run * 84);
            run = 0;
        }
    }
    pulses
}

#[test]
fn iso_track_read_from_pulses() {
    let mut encoder = MfmEncoder::new();
    let mut cells: Vec<Bit> = Vec::new();
    for s in 1..=18u8 {
        for _ in 0..12 {
            encoder.feed(MfmWord::Enc(0x00), &mut cells);
        }
        for w in sector_words(2, 0, s, 2) {
            if w == MfmWord::SyncWord {
                for _ in 0..3 {
                    encoder.feed(MfmWord::SyncWord, &mut cells);
                }
            } else {
                encoder.feed(w, &mut cells);
            }
        }
    }
    let mut pulses = vec![5000, 5000, 5000];
    pulses.extend(cells_to_pulses(&cells));
    match read_iso_track(&pulses, 2, 0) {
        IsoTrackOutcome::Complete(sectors) => {
            assert_eq!(sectors.len(), 18);
            assert_eq!(sectors[17].index, 17);
            assert_eq!(sectors[17].payload, sector_data(18));
        }
        _ => panic!("track not read from pulses"),
    }
    assert!(matches!(read_iso_track(&[84, 168], 2, 0), IsoTrackOutcome::Incomplete));
}
