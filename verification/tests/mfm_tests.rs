use floppytracer::bitstream::to_bit_stream;
use floppytracer::mfm::{MfmDataSeperator, MfmDecoder, MfmEncoder, MfmWord, RawMfmWord};
use floppytracer::types::Bit;

#[test]
fn mfm_encoder2_test() {
    let input = vec![
        MfmWord::SyncWord,
        MfmWord::SyncWord,
        MfmWord::Enc(0),
        MfmWord::Enc(0xfe),
        MfmWord::Enc(1),
        MfmWord::SyncWord,
        MfmWord::SyncWord,
        MfmWord::SyncWord,
        MfmWord::Enc(0),
        MfmWord::Enc(0xfe),
        MfmWord::Enc(1),
    ];
    let mut cells: Vec<Bit> = Vec::new();
    let mut encoder = MfmEncoder::new();

    input.into_iter().for_each(|word| encoder.feed(word, &mut cells));
    let result: Vec<u8> = cells.iter().map(|val| u8::from(val.0)).collect();

    println!("{result:?}");
    assert_eq!(
        result,
        vec![
            0, 1, 0, 0, 0, 1, 0, 0, 1, 0, 0, 0, 1, 0, 0, 1, // Sync Word 4489,
            0, 1, 0, 0, 0, 1, 0, 0, 1, 0, 0, 0, 1, 0, 0, 1, // Sync Word 4489,
            0, 0, 1, 0, 1, 0, 1, 0, 1, 0, 1, 0, 1, 0, 1, 0, // MFM 00
            0, 1, 0, 1, 0, 1, 0, 1, 0, 1, 0, 1, 0, 1, 0, 0, // MFM FE
            1, 0, 1, 0, 1, 0, 1, 0, 1, 0, 1, 0, 1, 0, 0, 1, // MFM 01
            0, 1, 0, 0, 0, 1, 0, 0, 1, 0, 0, 0, 1, 0, 0, 1, // Sync Word 4489,
            0, 1, 0, 0, 0, 1, 0, 0, 1, 0, 0, 0, 1, 0, 0, 1, // Sync Word 4489,
            0, 1, 0, 0, 0, 1, 0, 0, 1, 0, 0, 0, 1, 0, 0, 1, // Sync Word 4489,
            0, 0, 1, 0, 1, 0, 1, 0, 1, 0, 1, 0, 1, 0, 1, 0, // MFM 00
            0, 1, 0, 1, 0, 1, 0, 1, 0, 1, 0, 1, 0, 1, 0, 0, // MFM FE
            1, 0, 1, 0, 1, 0, 1, 0, 1, 0, 1, 0, 1, 0, 0, 1, // MFM 01
        ]
    );
}

#[test]
fn mfm_decoder_reads_back_encoded_words() {
    let input = vec![
        MfmWord::Enc(0x4e),
        MfmWord::SyncWord,
        MfmWord::SyncWord,
        MfmWord::SyncWord,
        MfmWord::Enc(0xfe),
        MfmWord::Enc(0x12),
        MfmWord::Enc(0x00),
    ];
    let mut cells: Vec<Bit> = Vec::new();
    let mut encoder = MfmEncoder::new();
    input.into_iter().for_each(|w| encoder.feed(w, &mut cells));

    let mut words: Vec<MfmWord> = Vec::new();
    let mut decoder = MfmDecoder::new();
    cells.iter().for_each(|c| decoder.feed(*c, &mut words));
    assert_eq!(
        words,
        vec![
            MfmWord::SyncWord,
            MfmWord::Enc(0xfe),
            MfmWord::Enc(0x12),
            MfmWord::Enc(0x00)
        ]
    );
}

#[test]
fn mfm_encoded8_of_ff_after_zero() {
    let mut cells: Vec<Bit> = Vec::new();
    let mut encoder = MfmEncoder::new();
    encoder.feed_encoded8(0xff, &mut cells);
    let bits: Vec<u8> = cells.iter().map(|c| u8::from(c.0)).collect();
    assert_eq!(bits, vec![0, 1, 0, 1, 0, 1, 0, 1, 0, 1, 0, 1, 0, 1, 0, 1]);
}

#[test]
fn data_separator_finds_double_sync() {
    let mut cells: Vec<Bit> = Vec::new();
    for b in [0x44u8, 0x89, 0x44, 0x89, 0xaa, 0xaa, 0x55, 0x55] {
        to_bit_stream(b, &mut cells);
    }
    let mut words: Vec<RawMfmWord> = Vec::new();
    let mut sep = MfmDataSeperator::new();
    cells.iter().for_each(|c| sep.feed(*c, &mut words));
    assert_eq!(words, vec![RawMfmWord::SyncWord, RawMfmWord::Raw(0xaaaa_5555)]);
}
