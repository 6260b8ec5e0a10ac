//! The encoder pipeline: bit packing, block structure, mode and
//! version resolution, and full encodes.

use qr_encoder::encoder::Encoder;
use qr_encoder::encoder::QrError;
use qr_encoder::final_structure::gen_indexes;
use qr_encoder::push_binary;

#[test]
fn test_push_binary() {
    let mut binary = vec![1, 0, 0, 1];
    push_binary(&mut binary, 8, 13);

    assert_eq!(binary, vec![1, 0, 0, 1, 0, 0, 0, 0, 1, 1, 0, 1]);
}

#[test]
fn final_structure_test() {
    let g1_blocks_num = 2;
    let g2_blocks_num = 2;
    let g1_cw_per_block = 15;
    let g2_cw_per_block = 16;

    let indexes = {
        let mut i = 0;
        let mut indexes = gen_indexes(&mut i, g1_cw_per_block, g1_blocks_num);

        indexes.extend_from_slice(gen_indexes(
            &mut i,
            g2_cw_per_block,
            g2_blocks_num,
        ).as_slice());

        indexes
    };

    assert_eq!(indexes, vec![0, 15, 30, 46]);
}

#[test]
fn lib_test() {
    let mut encoder = Encoder::new().ec_level("M");
    let matrix = encoder.encode("ハロー・ワールド").unwrap().as_matrix();

    println!("{:?}", matrix);
}

#[test]
fn decimal_reads_bits_back() {
    assert_eq!(qr_encoder::decimal(&[1, 0, 1]), 5);
    assert_eq!(qr_encoder::decimal(&[1, 1, 1, 1, 1, 1, 1, 1]), 255);
    assert_eq!(qr_encoder::decimal(&[]), 0);
}

#[test]
fn alphanumeric_table_values() {
    assert_eq!(qr_encoder::qrcode_info::alphanumeric_table(b'H'), 17);
    assert_eq!(qr_encoder::qrcode_info::alphanumeric_table(b'E'), 14);
    assert_eq!(qr_encoder::qrcode_info::alphanumeric_table(b'0'), 0);
    assert_eq!(qr_encoder::qrcode_info::alphanumeric_table(b' '), 36);
    assert_eq!(qr_encoder::qrcode_info::alphanumeric_table(b':'), 44);
}

#[test]
fn numeric_bitstream_version_one_level_h() {
    let mut enc = Encoder::new().version(1).ec_level("H");
    enc.numeric_encode(10, "01234567");
    let expected_bits: Vec<u8> = "00010000001000000000110001010110011000011"
        .bytes()
        .map(|b| b - b'0')
        .collect();
    assert_eq!(enc.data, expected_bits);

    enc.decimal_data();
    assert_eq!(enc.data, vec![16, 32, 12, 86, 97, 128, 236, 17, 236]);
    assert_eq!(enc.data.len(), 9);
}

#[test]
fn alphanumeric_bitstream_hello_world() {
    let mut enc = Encoder::new().version(1).ec_level("M");
    enc.alphanumeric_encode(9, "HELLO WORLD");
    let expected_prefix: Vec<u8> = "001000000101101100001011"
        .bytes()
        .map(|b| b - b'0')
        .collect();
    assert_eq!(&enc.data[..expected_prefix.len()], expected_prefix.as_slice());
}

#[test]
fn reed_solomon_known_block() {
    let data = vec![32, 91, 11, 120, 209, 114, 220, 77, 67, 64, 236, 17, 236, 17, 236, 17];
    let ec = qr_encoder::reed_solomon::error_correct(&data, 10);
    assert_eq!(ec, vec![196, 35, 39, 119, 235, 215, 231, 226, 93, 23]);
}

#[test]
fn version_resolution_picks_smallest() {
    let mut enc17 = Encoder::new().ec_level("H");
    enc17.encode("01234567890123456").unwrap();
    assert_eq!(enc17.version, 1);

    let mut enc18 = Encoder::new().ec_level("H");
    enc18.encode("012345678901234567").unwrap();
    assert_eq!(enc18.version, 2);
}

#[test]
fn mode_detection_narrowest_first() {
    let mut digits = Encoder::new();
    digits.mode_detect("0123");
    let mut upper = Encoder::new();
    upper.mode_detect("HELLO WORLD");
    let mut mixed = Encoder::new();
    mixed.mode_detect("hello");
    let mut kana = Encoder::new();
    kana.mode_detect("ハロー・ワールド");
    assert!(matches!(digits.mode, Some(qr_encoder::mode::Mode::Numeric)));
    assert!(matches!(upper.mode, Some(qr_encoder::mode::Mode::Alphanumeric)));
    assert!(matches!(mixed.mode, Some(qr_encoder::mode::Mode::Byte)));
    assert!(matches!(kana.mode, Some(qr_encoder::mode::Mode::Kanji)));
}

#[test]
fn groups_split_version_five_q() {
    let enc = Encoder::new().version(5).ec_level("Q");
    let (g1, s1, g2, s2) = enc.groups();
    assert_eq!((g1, s1, g2, s2), (2, 15, 2, 16));
    assert_eq!(g1 * s1 + g2 * s2, 62);
}

#[test]
fn encode_rejects_version_out_of_range() {
    let mut enc = Encoder::new().version(41).ec_level("L");
    assert_eq!(enc.encode("HELLO").unwrap_err(), QrError::InvalidParameter);
}

#[test]
fn encode_rejects_oversized_payload() {
    let mut enc = Encoder::new().version(1).ec_level("H");
    assert_eq!(enc.encode("01234567890123456789").unwrap_err(), QrError::CapacityExceeded);
}

#[test]
fn encode_rejects_character_outside_mode() {
    let mut enc = Encoder::new().mode("Numeric").ec_level("L");
    assert_eq!(enc.encode("AB").unwrap_err(), QrError::UnsupportedCharacter);
}

#[test]
fn encode_rejects_malformed_kanji_payload() {
    let mut enc = Encoder::new().mode("Kanji").ec_level("L");
    assert_eq!(enc.encode("abc").unwrap_err(), QrError::UnsupportedCharacter);
}

#[test]
fn encode_kanji_fixed_version() {
    let mut enc = Encoder::new().mode("Kanji").version(3).ec_level("M");
    let matrix = enc.encode("ハロー・ワールド").unwrap();
    let grid = matrix.as_matrix();
    assert_eq!(grid.len(), 29);
    for row in &grid {
        assert_eq!(row.len(), 29);
        for &cell in row {
            assert!(cell == 0 || cell == 1);
        }
    }
}

#[test]
fn encode_byte_mode_fallback() {
    let mut enc = Encoder::new().ec_level("L");
    let matrix = enc.encode("hello").unwrap();
    assert!(matches!(enc.mode, Some(qr_encoder::mode::Mode::Byte)));
    assert_eq!(enc.version, 1);
    assert_eq!(matrix.as_matrix().len(), 21);
}

#[test]
fn kanji_bitstream_through_shift_jis() {
    // The full Kanji pipeline at version 3, level M: the bit stream
    // depends on the real Shift-JIS bytes of the text, so a wrong
    // byte conversion changes it.
    let mut enc = Encoder::new().mode("Kanji").version(3).ec_level("M");
    enc.encode("\u{30cf}\u{30ed}\u{30fc}\u{30fb}\u{30ef}\u{30fc}\u{30eb}\u{30c9}").unwrap();
    let expected: Vec<u8> = "100000001000000011010111000001110011010000000011011000000000010100001110011110000000011011000011100101100001101010000000111011000001000111101100000100011110110000010001111011000001000111101100000100011110110000010001111011000001000111101100000100011110110000010001111011000001000111101100000100011110110000010001111011000001000111101100000100011110110001011001100101010010000100111101001011111011110000011110100001100100100111111000010011001100001000110000000011100011001001001100101010010100110000001100110011100110111100111000000111001000100010010000000000010000000".bytes().map(|b| b - b'0').collect();
    assert_eq!(enc.data, expected);
    assert!(enc.mask < 8);
}
