use rand::rngs::SmallRng;
use rand::{RngCore, SeedableRng};
use floppytracer::bitstream::to_bit_stream;
use floppytracer::error::ImageError;
use floppytracer::fluxpulse::FluxPulseGenerator;
use floppytracer::image_adf::{generate_amiga_track, generate_track, parse_adf_image, AMIGA_MFM_MASK};
use floppytracer::image_dsk::parse_dsk_image;
use floppytracer::image_g64::{parse_g64_with_digest, patch_trackdata, u8_buf_to_u32_buf};
use floppytracer::image_ipf::{patch_ipf_trackdata, sparse_timebuf, trim_overlap};
use floppytracer::image_iso::{calculate_floppy_geometry, generate_iso_track, parse_iso_image, IsoGeometry};
use floppytracer::track_parser::amiga::AmigaTrackParser;
use floppytracer::track_parser::iso::IsoTrackParser;
use floppytracer::track_parser::TrackParser;
use floppytracer::types::{Bit, Density, DensityMapEntry, PulseDuration};
use floppytracer::image_iso::{generate_iso_gap, generate_iso_sectorheader};
use floppytracer::mfm::{MfmDecoder, MfmEncoder, MfmWord};
use floppytracer::image_stx::parse_stx_image;
use floppytracer::image_d64::{generate_track as generate_c64_track, parse_d64_image};
use floppytracer::track_parser::c64::C64TrackParser;

const BYTES_PER_SECTOR: usize = 512;
const SECTORS_PER_TRACK: usize = 11;

fn check_aligned_amiga_mfm_track(buffer: &Vec<u8>) {
    let mut longs = buffer.chunks(4);

    for _ in 0..SECTORS_PER_TRACK {
        loop {
            let longbuf = longs.next().unwrap();
            let long = u32::from_be_bytes(longbuf.try_into().unwrap());

            if long == 0x44894489 {
                println!("Detected sync!");
                break;
            }
        }

        let sector_header_odd =
            u32::from_be_bytes(longs.next().unwrap().try_into().unwrap()) & AMIGA_MFM_MASK;
        let sector_header_even =
            u32::from_be_bytes(longs.next().unwrap().try_into().unwrap()) & AMIGA_MFM_MASK;

        let sector_header = ((sector_header_odd) << 1) | (sector_header_even);

        println!("{:x}", sector_header);
        assert_eq!(sector_header & 0xFF000000, 0xff000000);
        let track = (sector_header >> 16) & 0xff;
        let sector = (sector_header >> 8) & 0xff;
        let remaining_sectors = sector_header & 0xff;
        println!("Track {} Sector {}", track, sector);
        assert_eq!(sector, 11 - remaining_sectors);

        let mut checksum: u32 = 0;
        checksum ^= sector_header_odd;
        checksum ^= sector_header_even;

        for _ in 0..8 {
            checksum ^=
                u32::from_be_bytes(longs.next().unwrap().try_into().unwrap()) & AMIGA_MFM_MASK;
        }

        checksum ^= u32::from_be_bytes(longs.next().unwrap().try_into().unwrap()) & AMIGA_MFM_MASK;
        checksum ^= u32::from_be_bytes(longs.next().unwrap().try_into().unwrap()) & AMIGA_MFM_MASK;

        println!("Header Checksum {:x}", checksum);
        assert_eq!(checksum, 0);

        checksum ^= u32::from_be_bytes(longs.next().unwrap().try_into().unwrap()) & AMIGA_MFM_MASK;
        checksum ^= u32::from_be_bytes(longs.next().unwrap().try_into().unwrap()) & AMIGA_MFM_MASK;

        for _ in 0..128 {
            checksum ^=
                u32::from_be_bytes(longs.next().unwrap().try_into().unwrap()) & AMIGA_MFM_MASK;
            checksum ^=
                u32::from_be_bytes(longs.next().unwrap().try_into().unwrap()) & AMIGA_MFM_MASK;
        }

        println!("Data Checksum {:x}", checksum);
        assert_eq!(checksum, 0);
    }
}

#[test]
fn amiga_track_check_test() {
    let buffer = vec![0x12; BYTES_PER_SECTOR * SECTORS_PER_TRACK];

    let trackbuf = generate_amiga_track(30, 1, &buffer);
    check_aligned_amiga_mfm_track(&trackbuf);
}

#[test]
fn track_check_test() {
    let buffer = vec![0x12; BYTES_PER_SECTOR * SECTORS_PER_TRACK];

    let trackbuf = generate_track(30, 1, &buffer).unwrap();
    check_aligned_amiga_mfm_track(&trackbuf);
}

#[test]
fn amiga_track_lengths() {
    let buffer = vec![0x12; BYTES_PER_SECTOR * SECTORS_PER_TRACK];
    let plain = generate_track(30, 1, &buffer).unwrap();
    let ended = generate_amiga_track(30, 1, &buffer);
    // each sector: 2 zero bytes, 2 syncs, 26 longs of header and checksums, 2 * 128 longs of data,
    // each byte of data written as 16 cells
    assert_eq!(plain.len(), 11 * (2 * 2 + 2 * 2 + 4 * (14 + 256)));
    // two more long words at the end
    assert_eq!(ended.len(), plain.len() + 8);
    assert_eq!(&ended[..plain.len()], &plain[..]);
}

#[test]
fn adf_track_errors() {
    let short = vec![0u8; 100];
    assert_eq!(generate_track(0, 0, &short), Err(ImageError::NotEnoughSectors));
    let buffer = vec![0u8; BYTES_PER_SECTOR * SECTORS_PER_TRACK];
    assert_eq!(generate_track(0, 2, &buffer), Err(ImageError::HeadOutOfRange));
    let ten = vec![0u8; BYTES_PER_SECTOR * 10];
    assert_eq!(generate_track(0, 0, &ten), Err(ImageError::NotEnoughSectors));
}

#[test]
fn adf_image_size() {
    assert!(matches!(parse_adf_image(&vec![0u8; 1000]), Err(ImageError::WrongImageSize)));
    let image = parse_adf_image(&vec![0u8; 901120]).unwrap();
    assert_eq!(image.tracks.len(), 160);
    assert_eq!(image.tracks[3].cylinder, 1);
    assert_eq!(image.tracks[3].head, 1);
    assert_eq!(image.tracks[3].densitymap[0].cell_size, PulseDuration(168));
    assert_eq!(image.tracks[3].densitymap[0].number_of_cellbytes, image.tracks[3].raw_data.len());
}

fn pseudo_random_bytes(n: usize, seed: u32) -> Vec<u8> {
    let mut state = seed;
    (0..n)
        .map(|_| {
            state = state.wrapping_mul(1_103_515_245).wrapping_add(12345);
            (state >> 16) as u8
        })
        .collect()
}

fn reduced_pulses(trackbuf: &[u8], cell: u32) -> Vec<u8> {
    let mut pulses: Vec<PulseDuration> = Vec::new();
    let mut pulse_generator = FluxPulseGenerator::new(cell);
    for b in trackbuf.iter().chain([0x55u8].iter()) {
        let mut cells: Vec<Bit> = Vec::new();
        to_bit_stream(*b, &mut cells);
        for c in cells {
            pulse_generator.feed(c, &mut pulses);
        }
    }
    pulse_generator.flush(&mut pulses);
    pulses.iter().map(|p| p.0 as u8).collect()
}

#[test]
fn amiga_track_reads_back() {
    let buffer = pseudo_random_bytes(BYTES_PER_SECTOR * SECTORS_PER_TRACK, 0x42);
    let trackbuf = generate_track(30, 1, &buffer).unwrap();
    let pulse_data = reduced_pulses(&trackbuf, 168 >> 3);

    let mut parser = AmigaTrackParser::new(Density::SingleDouble);
    parser.expect_track(30, 1);
    let result = parser.parse_raw_track(&pulse_data).unwrap();
    assert_eq!(result.cylinder, 30);
    assert_eq!(result.head, 1);
    assert_eq!(buffer, result.payload);
}

#[test]
fn c64_track_reads_back() {
    for tracknum in [1u8, 18, 25, 35] {
        let buffer = pseudo_random_bytes(256 * 21, tracknum as u32);
        let (trackbuf, config) = generate_c64_track(tracknum, &buffer).unwrap();
        let pulse_data = reduced_pulses(&trackbuf, (config.cellsize >> 3) as u32);

        let mut parser = C64TrackParser::new();
        let cylinder = (tracknum as u32 - 1) * 2;
        parser.expect_track(cylinder, 0);
        let result = parser.parse_raw_track(&pulse_data).unwrap();
        assert_eq!(result.cylinder, cylinder);
        assert_eq!(result.head, 0);
        assert_eq!(&buffer[..256 * config.sectors as usize], &result.payload[..]);
    }
}

#[test]
fn iso_track_reads_back() {
    let geometry = IsoGeometry::new(9);
    let buffer = pseudo_random_bytes(512 * 9, 7);
    let trackbuf = generate_iso_track(12, 0, &geometry, &buffer);
    let pulse_data = reduced_pulses(&trackbuf, 168 >> 3);

    let mut parser = IsoTrackParser::new(None, Density::SingleDouble);
    parser.expect_track(12, 0);
    let result = parser.parse_raw_track(&pulse_data).unwrap();
    assert_eq!(result.cylinder, 12);
    assert_eq!(result.head, 0);
    assert_eq!(buffer, result.payload);
}

#[test]
fn iso_geometry_of_image_sizes() {
    assert_eq!(calculate_floppy_geometry(737280), (80, 9));
    assert_eq!(calculate_floppy_geometry(368640), (40, 9));
    assert_eq!(calculate_floppy_geometry(1474560), (80, 18));
    assert_eq!(calculate_floppy_geometry(819200), (80, 10));
    assert!(matches!(parse_iso_image(&vec![0u8; 12345]), Err(ImageError::WrongImageSize)));
    assert!(matches!(parse_iso_image(&vec![0u8; 12345]), Err(ImageError::WrongImageSize)));
    let image = parse_iso_image(&vec![0u8; 737280]).unwrap();
    assert_eq!(image.tracks.len(), 160);
}

#[test]
fn iso_interleaving_geometry() {
    let g = IsoGeometry::new(10);
    assert_eq!(g.interleaving, 1);
    assert_eq!(g.gap5_size, 20);
    let g = IsoGeometry::new(9);
    assert_eq!(g.interleaving, 0);
    assert_eq!(g.gap5_size, 600);
}

fn dsk_image(extended: bool, sector_size: u8, status2: u8) -> Vec<u8> {
    let mut b = vec![0u8; 0x200 + 512];
    let sig: &[u8] = if extended {
        b"EXTENDED CPC DSK File\r\nDisk-Info\r\n"
    } else {
        b"MV - CPCEMU Disk-File\r\nDisk-Info\r\n"
    };
    b[..34].copy_from_slice(sig);
    b[0x30] = 1; // cylinders
    b[0x31] = 1; // sides
    if extended {
        b[0x34] = 3; // size of track 0, not zero: formatted
    }
    b[0x100..0x10c].copy_from_slice(b"Track-Info\r\n");
    b[0x110] = 0; // track
    b[0x111] = 0; // side
    b[0x114] = 2; // sector size
    b[0x115] = 1; // sectors
    // sector information
    b[0x118] = 0;
    b[0x119] = 0;
    b[0x11a] = 0xc1;
    b[0x11b] = sector_size;
    b[0x11d] = status2;
    b[0x11e] = 0x00;
    b[0x11f] = 0x02; // 512 bytes in the extended format
    for (i, x) in b[0x200..].iter_mut().enumerate() {
        *x = i as u8;
    }
    b
}

#[test]
fn dsk_single_sector_track() {
    let tracks = parse_dsk_image(&dsk_image(false, 2, 0)).unwrap();
    assert_eq!(tracks.len(), 1);
    assert_eq!(tracks[0].cylinder, 0);
    assert_eq!(tracks[0].head, 0);
    // gap 60, header 12 + 3 + 5 + 2, gap 22, data header 12 + 3 + 1, data 512 + 2, gap 1, end gap 10
    assert_eq!(tracks[0].raw_data.len(), 2 * (60 + 22 + 22 + 16 + 514 + 1 + 10));
    let extended = parse_dsk_image(&dsk_image(true, 2, 0)).unwrap();
    assert_eq!(extended[0].raw_data, tracks[0].raw_data);
    let deleted = parse_dsk_image(&dsk_image(false, 2, 0x40)).unwrap();
    assert_ne!(deleted[0].raw_data, tracks[0].raw_data);
}

#[test]
fn dsk_errors() {
    assert_eq!(parse_dsk_image(&vec![0u8; 100]), Err(ImageError::OutOfBounds));
    let mut bad = dsk_image(false, 2, 0);
    bad[0] = b'X';
    assert_eq!(parse_dsk_image(&bad), Err(ImageError::BadSignature));
    let mut bad_track = dsk_image(false, 2, 0);
    bad_track[0x100] = b'X';
    assert_eq!(parse_dsk_image(&bad_track), Err(ImageError::BadSignature));
    // a sector of 1024 bytes does not fit
    assert_eq!(parse_dsk_image(&dsk_image(false, 3, 0)), Err(ImageError::OutOfBounds));
    // unformatted tracks of an extended image are skipped
    let mut unformatted = dsk_image(true, 2, 0);
    unformatted[0x34] = 0;
    assert_eq!(parse_dsk_image(&unformatted), Ok(Vec::new()));
}

fn g64_image(version: u8, speed: u32, data: &[u8]) -> Vec<u8> {
    let mut b: Vec<u8> = b"GCR-1541".to_vec();
    b.push(version);
    b.push(2); // tracks
    b.extend_from_slice(&7928u16.to_le_bytes());
    let offset = 12 + 16;
    b.extend_from_slice(&(offset as u32).to_le_bytes());
    b.extend_from_slice(&0u32.to_le_bytes());
    b.extend_from_slice(&speed.to_le_bytes());
    b.extend_from_slice(&0u32.to_le_bytes());
    b.extend_from_slice(&(data.len() as u16).to_le_bytes());
    b.extend_from_slice(data);
    b
}

#[test]
fn g64_tracks_and_speed_zones() {
    let digest = [0u8; 16];
    let data = vec![0x55u8; 100];
    let tracks = parse_g64_with_digest(&g64_image(0, 3, &data), &digest).unwrap();
    assert_eq!(tracks.len(), 1);
    assert_eq!(tracks[0].cylinder, 0);
    assert_eq!(tracks[0].raw_data, data);
    assert_eq!(tracks[0].table_cell_size, 227);
    assert_eq!(tracks[0].forced_cell_size, None);
    let slow = parse_g64_with_digest(&g64_image(0, 0, &data), &digest).unwrap();
    assert_eq!(slow[0].table_cell_size, 280);
    // an all zero track is dropped
    let zero = parse_g64_with_digest(&g64_image(0, 3, &[0u8; 10]), &digest).unwrap();
    assert!(zero.is_empty());
}

#[test]
fn g64_errors() {
    let digest = [0u8; 16];
    let data = vec![0x55u8; 10];
    assert_eq!(parse_g64_with_digest(&g64_image(1, 3, &data), &digest), Err(ImageError::Unsupported));
    assert_eq!(parse_g64_with_digest(&g64_image(0, 4, &data), &digest), Err(ImageError::Implausible));
    let mut bad = g64_image(0, 3, &data);
    bad[0] = b'X';
    assert_eq!(parse_g64_with_digest(&bad, &digest), Err(ImageError::BadSignature));
    assert_eq!(parse_g64_with_digest(&[0u8; 5], &digest), Err(ImageError::OutOfBounds));
}

#[test]
fn g64_known_image_patches() {
    let katakis: [u8; 16] = [
        0x53, 0xc4, 0x7c, 0x57, 0x5d, 0x05, 0x71, 0x81, 0xa1, 0x91, 0x1e, 0x66, 0x53, 0x22, 0x93,
        0x24,
    ];
    let source = vec![0x11u8; 1000];
    assert_eq!(patch_trackdata(&source, &katakis, 70).len(), 700);
    assert!(patch_trackdata(&source, &katakis, 72).is_empty());
    assert_eq!(patch_trackdata(&source, &katakis, 10), source);
    let other = [0u8; 16];
    assert_eq!(patch_trackdata(&source, &other, 70), source);
    let katakis_b: [u8; 16] = [
        0xd2, 0xaa, 0x92, 0xcc, 0xf3, 0x53, 0x1f, 0xc9, 0x95, 0xe7, 0x71, 0xbe, 0x91, 0xa4, 0x52,
        0x41,
    ];
    let patched = patch_trackdata(&source, &katakis_b, 70);
    assert_eq!(patched.len(), 700);
    assert_eq!(patched[0], 0x55);
    assert_eq!(patched[0x22b], 0x57);
    assert_eq!(patched[0x22c], 0xff);
    assert_eq!(patched[0x2ab], 0xff);
    assert_eq!(patched[0x2ac], 0x11);
}

#[test]
fn words_of_bytes() {
    assert_eq!(u8_buf_to_u32_buf(&[1, 0, 0, 0, 0x78, 0x56, 0x34, 0x12, 9]), vec![1, 0x1234_5678]);
}

#[test]
fn ipf_timing_runs() {
    let runs = sparse_timebuf(&[1000, 1000, 1000, 1100, 1100, 1000]);
    // a change of value is counted into the run before it
    assert_eq!(
        runs,
        vec![
            DensityMapEntry { number_of_cellbytes: 4, cell_size: PulseDuration(1000) },
            DensityMapEntry { number_of_cellbytes: 2, cell_size: PulseDuration(1100) },
        ]
    );
    let total: usize = runs.iter().map(|r| r.number_of_cellbytes).sum();
    assert_eq!(total, 6);
    assert_eq!(
        sparse_timebuf(&[5, 5, 5]),
        vec![DensityMapEntry { number_of_cellbytes: 3, cell_size: PulseDuration(5) }]
    );
}

#[test]
fn ipf_overlap_and_patches() {
    let data: Vec<u8> = (0..20).collect();
    assert_eq!(trim_overlap(&data, -1), data);
    assert_eq!(trim_overlap(&data, 2), data[3..].to_vec());
    assert_eq!(trim_overlap(&data, 15), data[..15].to_vec());
    let gods: [u8; 16] = [
        0x7b, 0x2a, 0x11, 0xed, 0xa4, 0x9f, 0xc6, 0x84, 0x18, 0x34, 0xe7, 0x92, 0xda, 0xb5, 0x39,
        0x97,
    ];
    let patched = patch_ipf_trackdata(&data, &gods, 0, 1);
    assert_eq!(patched[0], 0x55);
    assert_eq!(&patched[1..], &data[1..]);
    assert_eq!(patch_ipf_trackdata(&data, &gods, 0, 0), data);
}

#[test]
fn iso_sector_header_checksum() {
    let mut cells: Vec<Bit> = Vec::new();
    let mut encoder = MfmEncoder::new();
    generate_iso_gap(4, 0x4e, &mut encoder, &mut cells);
    generate_iso_sectorheader(4, 0, 0, 1, 2, &mut encoder, &mut cells);
    generate_iso_gap(4, 0x4e, &mut encoder, &mut cells);
    let mut words: Vec<MfmWord> = Vec::new();
    let mut decoder = MfmDecoder::new();
    cells.iter().for_each(|c| decoder.feed(*c, &mut words));
    let start = words.iter().position(|w| *w == MfmWord::Enc(0xfe)).unwrap();
    assert_eq!(
        &words[start..start + 7],
        &[
            MfmWord::Enc(0xfe),
            MfmWord::Enc(0),
            MfmWord::Enc(0),
            MfmWord::Enc(1),
            MfmWord::Enc(2),
            MfmWord::Enc(0xca),
            MfmWord::Enc(0x6f),
        ]
    );
    assert_eq!(words[start - 1], MfmWord::SyncWord);
}

#[test]
fn stx_header_checks() {
    assert!(matches!(parse_stx_image(b"RS"), Err(ImageError::OutOfBounds)));
    assert!(matches!(parse_stx_image(b"XXXX0000000000000000"), Err(ImageError::BadSignature)));
    let mut header = vec![0x52u8, 0x53, 0x59, 0x00, 2, 0, 0, 0, 0, 0, 0, 0, 0, 0, 0, 0];
    assert!(matches!(parse_stx_image(&header), Err(ImageError::Unsupported)));
    header[4] = 3;
    // a version 3 image without tracks
    assert!(matches!(parse_stx_image(&header), Ok(ref t) if t.is_empty()));
}

#[test]
fn d64_image_size() {
    assert!(matches!(parse_d64_image(&vec![0u8; 1000]), Err(ImageError::WrongImageSize)));
    let image = parse_d64_image(&vec![0u8; 174848]).unwrap();
    assert_eq!(image.tracks.len(), 35);
    assert_eq!(image.tracks[0].cylinder, 0);
    assert_eq!(image.tracks[34].cylinder, 68);
}

#[test]
fn track_parse_test() {
    let mut rng = SmallRng::seed_from_u64(0x42);
    let mut buffer = vec![0; BYTES_PER_SECTOR * SECTORS_PER_TRACK];
    rng.fill_bytes(&mut buffer);

    let sectors = buffer.chunks_exact(BYTES_PER_SECTOR);
    assert_eq!(sectors.len(), 11);

    let trackbuf = generate_track(30, 1, &buffer).unwrap();
    let pulse_data = reduced_pulses(&trackbuf, 168 >> 3);

    let mut parser = AmigaTrackParser::new(Density::SingleDouble);
    parser.expect_track(30, 1);
    let result = parser.parse_raw_track(&pulse_data).unwrap();

    // Check parsed track is equal to data which was used to generate the track
    assert_eq!(buffer, result.payload);
    // just to be sure that we used pseudo random values
    assert_eq!(result.payload[100], 152);
    assert_eq!(result.payload[200], 126);
    assert_eq!(result.payload[300], 83);
}
