use floppytracer::bitstream::to_bit_stream;
use floppytracer::gcr::{gcr_decode_code, gcr_encode_nibble, to_gcr_stream, GcrDecoder, GcrDecoderResult};
use floppytracer::types::Bit;

#[test]
fn gcr_decoder_table_generator() {
    // use the encode table to create the decode table
    let mut decoder_table = [0_u8; 32];

    for i in 0..16u8 {
        let code = gcr_encode_nibble(i);
        println!("{} {}", i, code);
        decoder_table[code as usize] = i;
    }

    println!("{:?}", decoder_table);
    let decode_table: Vec<u8> = (0..32u64).map(gcr_decode_code).collect();
    assert_eq!(decode_table, decoder_table.to_vec());
}

#[test]
fn gcr_decoder_table_invertibility() {
    // just to be sure. try every combination
    for i in 0..16 {
        assert_eq!(i as u8, gcr_decode_code(gcr_encode_nibble(i as u8) as u64));
    }
}

#[test]
fn gcr_decoder_test() {
    let mut cells: Vec<Bit> = Vec::new();

    to_bit_stream(0xff, &mut cells);
    to_bit_stream(0xff, &mut cells);
    to_bit_stream(0xff, &mut cells);

    // next GCR word must have a 0 at the beginning. A GCR encoded 0 fulfills this.
    to_gcr_stream(0x08, &mut cells);
    to_gcr_stream(0x42, &mut cells);

    // exactly 10 ones to be sure that it functions correctly
    to_bit_stream(0x03, &mut cells);
    to_bit_stream(0xff, &mut cells);

    to_gcr_stream(0x07, &mut cells);
    to_gcr_stream(0x12, &mut cells);
    to_gcr_stream(0x65, &mut cells);

    let mut result: Vec<GcrDecoderResult> = Vec::new();
    let mut decoder = GcrDecoder::new();

    cells.iter().for_each(|f| decoder.feed(*f, &mut result));
    println!("{:02x?}", result);
    assert_eq!(
        result,
        vec![
            GcrDecoderResult::Sync,
            GcrDecoderResult::Byte(0x08),
            GcrDecoderResult::Byte(0x42),
            GcrDecoderResult::Byte(0x05), // this is an allowed artifact.
            GcrDecoderResult::Sync,
            GcrDecoderResult::Byte(0x07),
            GcrDecoderResult::Byte(0x12),
            GcrDecoderResult::Byte(0x65)
        ]
    );
}

#[test]
fn gcr_stream_roundtrip_every_byte() {
    for b in 0..=255u8 {
        let mut cells: Vec<Bit> = Vec::new();
        to_bit_stream(0xff, &mut cells);
        to_bit_stream(0xff, &mut cells);
        to_gcr_stream(0x00, &mut cells);
        to_gcr_stream(b, &mut cells);
        let mut result: Vec<GcrDecoderResult> = Vec::new();
        let mut decoder = GcrDecoder::new();
        cells.iter().for_each(|f| decoder.feed(*f, &mut result));
        assert_eq!(
            result,
            vec![GcrDecoderResult::Sync, GcrDecoderResult::Byte(0x00), GcrDecoderResult::Byte(b)]
        );
    }
}
