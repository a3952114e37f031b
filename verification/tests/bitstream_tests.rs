use floppytracer::bitstream::{pack_cells, to_bit_stream, BitStreamCollector};
use floppytracer::types::Bit;

#[test]
fn to_bit_stream_test() {
    let mut cells: Vec<Bit> = Vec::new();

    let vin: Vec<u8> = vec![0xaa, 0x44, 0x89, 0x2a];
    for i in &vin {
        to_bit_stream(*i, &mut cells);
    }
    let vout: Vec<u8> = cells.iter().map(|d| u8::from(d.0)).collect();

    println!("{vout:?}");

    assert_eq!(
        vout,
        vec![
            1, 0, 1, 0, 1, 0, 1, 0, //aa
            0, 1, 0, 0, 0, 1, 0, 0, //44
            1, 0, 0, 0, 1, 0, 0, 1, //89
            0, 0, 1, 0, 1, 0, 1, 0, //2a
        ]
    );
}

#[test]
fn collector_packs_cells_into_bytes() {
    let mut cells: Vec<Bit> = Vec::new();
    for b in [0x12u8, 0xfe, 0x00, 0x81] {
        to_bit_stream(b, &mut cells);
    }
    let mut collector = BitStreamCollector::new();
    let mut out: Vec<u8> = Vec::new();
    for c in &cells {
        collector.feed(*c, &mut out);
    }
    assert_eq!(out, vec![0x12, 0xfe, 0x00, 0x81]);
    assert_eq!(pack_cells(&cells), vec![0x12, 0xfe, 0x00, 0x81]);
}

#[test]
fn collector_keeps_partial_byte_back() {
    let mut collector = BitStreamCollector::new();
    let mut out: Vec<u8> = Vec::new();
    for _ in 0..7 {
        collector.feed(Bit(true), &mut out);
    }
    assert!(out.is_empty());
    collector.feed(Bit(false), &mut out);
    assert_eq!(out, vec![0xfe]);
}
