use kim_rs::encode::encode_scalar_value;
use kim_rs::{KimError, KimString};

#[test]
fn from_str_ascii() {
    let s = "c";
    let kim = KimString::from_text(s);
    assert_eq!(vec![0b_0110_0011u8], kim.as_bytes());
}

#[test]
fn from_str_two_byte_coderange() {
    let s = "ß";
    let kim = KimString::from_text(s);
    assert_eq!(vec![0b_10000001u8, 0b_01011111], kim.as_bytes());
}

#[test]
fn from_str_three_byte_coderange() {
    let s = "☃";
    let kim = KimString::from_text(s);
    assert_eq!(vec![0b_10000000u8, 0b_11001100, 0b_00000011], kim.as_bytes());

    let s = "♲";
    let kim = KimString::from_text(s);
    assert_eq!(vec![0b_10000000u8, 0b_11001100, 0b_01110010], kim.as_bytes());
}

#[test]
fn from_str_four_byte_coderange() {
    let s = "𓂀";
    let kim = KimString::from_text(s);
    assert_eq!(vec![0b_10000100u8, 0b_11100001, 0b_00000000], kim.as_bytes());

    let s = "𓃠";
    let kim = KimString::from_text(s);
    assert_eq!(vec![0b_10000100u8, 0b_11100001, 0b_01100000], kim.as_bytes());
}

#[test]
fn into_string() {
    let kim = KimString::from_bytes(vec![
        0b_10000100, 0b_11100001, 0b_00000000, 0b_10000001, 0b_01011111, 0b_01100001,
    ]);
    let result: String = kim.into_text().unwrap();
    assert_eq!("𓂀ßa", result);
}

#[test]
fn from_into() {
    let input = "𓂀𓃠𓅣𓂻𓂻𓂺𓁟𓂑𓃻𓇼𓊽𓂭𓎆𓍢𓏢𓐠";
    let kim = KimString::from_text(input);
    let output: String = kim.into_text().unwrap();
    assert_eq!(input, output);
}

#[test]
fn round_trip_mixed_classes() {
    let input = "aß☃♲𓂀 — every length class at once";
    let kim = KimString::from_text(input);
    assert_eq!(input, kim.into_text().unwrap());
}

#[test]
fn len_counts_kim_bytes() {
    assert_eq!(2, KimString::from_text("ß").len());
    assert_eq!(3, KimString::from_text("𓂀").len());
    assert_eq!(6, KimString::from_text("abcdef").len());
}

#[test]
fn empty_text_encodes_to_nothing() {
    assert_eq!(0, KimString::from_text("").len());
    assert_eq!("", KimString::from_text("").into_text().unwrap());
    assert_eq!("", KimString::from_bytes(Vec::new()).into_text().unwrap());
}

#[test]
fn encoding_concatenates() {
    let a = "aß";
    let b = "☃𓂀";
    let mut joined = KimString::from_text(a).as_bytes().to_vec();
    joined.extend_from_slice(KimString::from_text(b).as_bytes());
    let whole = format!("{}{}", a, b);
    assert_eq!(KimString::from_text(&whole).as_bytes(), joined.as_slice());
}

#[test]
fn never_longer_than_utf8() {
    for s in ["c", "ß", "☃", "𓂀"] {
        assert!(KimString::from_text(s).len() <= s.len());
    }
    // strictly shorter exactly for the 4-byte class
    assert_eq!(3, KimString::from_text("𓂀").len());
    assert_eq!(4, "𓂀".len());
}

#[test]
fn truncated_stream_rejected() {
    // a lone continuation byte: the run never terminates
    let kim = KimString::from_bytes(vec![0b_10000000]);
    assert_eq!(Err(KimError::Truncated), kim.into_text());

    // a well-formed character followed by an unterminated run
    let kim = KimString::from_bytes(vec![0b_01100001, 0b_10000001]);
    assert_eq!(Err(KimError::Truncated), kim.into_text());
}

#[test]
fn surrogate_value_rejected() {
    // three groups reassembling 0xD800, the lowest surrogate
    let kim = KimString::from_bytes(vec![0b_10000011, 0b_10110000, 0b_00000000]);
    assert_eq!(Err(KimError::InvalidScalarValue), kim.into_text());
}

#[test]
fn oversized_value_rejected() {
    // three full groups reassemble 0x1FFFFF, far above 0x10FFFF
    let kim = KimString::from_bytes(vec![0b_11111111, 0b_11111111, 0b_01111111]);
    assert_eq!(Err(KimError::InvalidScalarValue), kim.into_text());
}

#[test]
fn scalar_encoder_rejects_out_of_range() {
    assert_eq!(Err(KimError::OutOfRange), encode_scalar_value(0x200000));
    assert_eq!(Err(KimError::OutOfRange), encode_scalar_value(u32::MAX));
}

#[test]
fn scalar_encoder_emits_runs() {
    assert_eq!(Ok(vec![0b_01100011]), encode_scalar_value(0x63));
    assert_eq!(Ok(vec![0b_10000001, 0b_01011111]), encode_scalar_value(0xDF));
    assert_eq!(
        Ok(vec![0b_10000100, 0b_11100001, 0b_00000000]),
        encode_scalar_value(0x13080)
    );
    // the classifier's upper margin: 0x1FFFFF still has a class
    assert!(encode_scalar_value(0x1FFFFF).is_ok());
}
