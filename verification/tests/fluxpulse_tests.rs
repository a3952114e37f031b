use floppytracer::bitstream::{to_bit_stream, BitStreamCollector};
use floppytracer::fluxpulse::{FluxPulseGenerator, FluxPulseToCells};
use floppytracer::types::{Bit, PulseDuration};

fn pulses_of_bytes(bytes: &[u8], weak_bits: bool, non_flux_reversal: bool) -> Vec<PulseDuration> {
    let mut out: Vec<PulseDuration> = Vec::new();
    let mut pulse_generator = FluxPulseGenerator::new(100);
    pulse_generator.enable_weak_bit_generator = weak_bits;
    pulse_generator.enable_non_flux_reversal_generator = non_flux_reversal;
    for b in bytes {
        let mut cells: Vec<Bit> = Vec::new();
        to_bit_stream(*b, &mut cells);
        for c in cells {
            pulse_generator.feed(c, &mut out);
        }
    }
    pulse_generator.flush(&mut out);
    out
}

#[test]
fn weak_bits_area_test() {
    let expected_actual_data_on_disk: Vec<u8> = vec![
        0b01010100, //
        0b10000000, 0b00000000, 0b00000001, //
        0b01010001, //
    ];

    let normal_data: Vec<i32> = pulses_of_bytes(&expected_actual_data_on_disk, false, false)
        .iter()
        .map(|f| f.0)
        .collect();
    let normal_data_duration: i32 = normal_data.iter().sum();

    let weak_bit_data: Vec<i32> = pulses_of_bytes(&expected_actual_data_on_disk, true, false)
        .iter()
        .map(|f| f.0)
        .collect();
    let weak_bit_data_duration: i32 = weak_bit_data.iter().sum();

    println!("{} {:?}", normal_data_duration, normal_data);
    println!("{} {:?}", weak_bit_data_duration, weak_bit_data);

    assert_eq!(normal_data, vec![200, 200, 200, 300, 2300, 200, 200, 400]);
    assert_eq!(
        weak_bit_data,
        vec![200, 200, 200, 300, 250, 250, 250, 250, 250, 250, 250, 250, 300, 200, 200, 400]
    );
    assert_eq!(normal_data_duration, weak_bit_data_duration);
}

#[test]
fn non_flux_reversal_area_test() {
    let expected_write_data: Vec<u8> = vec![
        0b01010101, //
        0b01010101, //
        0b01010101, 0b01000100, 0b10001010, //
        0b11111111, 0b11111111, 0b11111111, //
        0b01010001, //
        0b00010101, //
    ];

    let expected_actual_data_on_disk: Vec<u8> = vec![
        0b01010101, //
        0b01010101, //
        0b01010101, 0b01000100, 0b10001010, //
        0b10000000, 0b00000000, 0b00000001, //
        0b01010001, //
        0b00010101, //
    ];

    let pulses = pulses_of_bytes(&expected_actual_data_on_disk, false, true);

    let mut pulseparser = FluxPulseToCells::new(100);
    let mut cells: Vec<Bit> = Vec::new();
    for p in pulses {
        pulseparser.feed(p, &mut cells);
    }
    let mut collector = BitStreamCollector::new();
    let mut write_data: Vec<u8> = Vec::new();
    for c in cells {
        collector.feed(c, &mut write_data);
    }

    write_data
        .iter()
        .zip(expected_write_data.iter())
        .for_each(|f| println!("{:08b} {:08b}", f.0, f.1));

    assert_eq!(write_data, expected_write_data);
}

fn pulses_of_cells(v1: &[u8], precompensation: u32) -> Vec<i32> {
    let mut out: Vec<PulseDuration> = Vec::new();
    let mut pulse_generator = FluxPulseGenerator::new(100);
    pulse_generator.precompensation = precompensation;
    for cell in v1 {
        pulse_generator.feed(Bit(*cell == 1), &mut out);
    }
    pulse_generator.flush(&mut out);
    out.iter().map(|f| f.0).collect()
}

#[test]
fn cell_to_pulses_wprecomp_test() {
    let v1: Vec<u8> = vec![
        1, 0, 0, 1, // 3
        0, 0, 1, // 3
        0, 0, 1, // 3
        0, 1, // 2
        0, 1, // 2
        0, 0, 1, // 3
        0, 1, // 2
        0, 1, // 2
        0, 1, // 2
        0, 0, 1, // 3
        0, 0, 1, // 3
        0, 0, 1, // 3
        0, 0, 1, // 3
        0, 1, // 2
        0, 0, 1, // 3
        0, 0, 1, // 3
    ];
    {
        let result = pulses_of_cells(&v1, 0);
        println!("{:?}", result);
        assert_eq!(
            result,
            vec![100, 300, 300, 300, 200, 200, 300, 200, 200, 200, 300, 300, 300, 300, 200, 300, 300]
        );
    }
    {
        let result = pulses_of_cells(&v1, 10);
        let cellsize = 100;
        let compensation = 10;
        println!("{:?}", result);
        assert_eq!(
            result,
            vec![
                100,
                cellsize * 3,
                cellsize * 3,
                cellsize * 3 + compensation,
                cellsize * 2 - compensation,
                cellsize * 2 - compensation,
                cellsize * 3 + compensation * 2,
                cellsize * 2 - compensation,
                cellsize * 2,
                cellsize * 2 - compensation,
                cellsize * 3 + compensation,
                cellsize * 3,
                cellsize * 3,
                cellsize * 3 + compensation,
                cellsize * 2 - compensation * 2,
                cellsize * 3 + compensation,
                cellsize * 3,
            ]
        );
    }
}

#[test]
fn cell_to_pulses_test() {
    let v1: Vec<u8> = vec![1, 0, 0, 1, 0, 1, 1, 0, 0, 0, 0, 1];
    let mut result: Vec<PulseDuration> = Vec::new();
    let mut pulse_generator = FluxPulseGenerator::new(100);
    pulse_generator.enable_non_flux_reversal_generator = false;
    for pulse_duration in v1 {
        pulse_generator.feed(Bit(pulse_duration == 1), &mut result);
    }
    pulse_generator.flush(&mut result);
    println!("{:?}", result);
    assert_eq!(
        result,
        vec![
            PulseDuration(100),
            PulseDuration(300),
            PulseDuration(200),
            PulseDuration(100),
            PulseDuration(500)
        ]
    );
}

#[test]
fn pulse_to_cell_test() {
    let range: Vec<i32> = vec![-49, -20, 0, 20, 49];

    for offset in range {
        let v1 = vec![
            PulseDuration(300 + offset),
            PulseDuration(200 + offset),
            PulseDuration(100 + offset),
            PulseDuration(500 + offset),
        ];

        let mut cells: Vec<Bit> = Vec::new();
        let mut pulseparser = FluxPulseToCells::new(100);
        for f in v1 {
            pulseparser.feed(f, &mut cells);
        }
        let result: Vec<u32> = cells.iter().map(|val| if val.0 { 1 } else { 0 }).collect();

        println!("{:?}", result);
        assert_eq!(result, vec![0, 0, 1, 0, 1, 1, 0, 0, 0, 0, 1]);
    }
}

#[test]
fn generator_keeps_total_duration() {
    // the pulses of a run of cells and the time still pending add up to the cells' time
    let mut out: Vec<PulseDuration> = Vec::new();
    let mut g = FluxPulseGenerator::new(168);
    let cells = [1u8, 0, 1, 0, 0, 1, 0, 0, 0, 1, 0, 1];
    for c in cells {
        g.feed(Bit(c == 1), &mut out);
    }
    g.flush(&mut out);
    let total: i32 = out.iter().map(|p| p.0).sum();
    // five cells of start delay, twelve cells fed and five flushed
    assert_eq!(total, 168 * (12 + 5 - 5));
}

#[test]
fn generator_reports_overflowing_cells() {
    let g = FluxPulseGenerator::new(168);
    assert!(g.can_feed(Bit(true)));
    let mut big = FluxPulseGenerator::new(0);
    big.set_cell_duration(u32::MAX);
    assert!(!big.can_feed(Bit(false)));
}
