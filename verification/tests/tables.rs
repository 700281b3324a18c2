use rusty_expressions::cjk::{
    cp_to_gb4, decoded_code_or_raw, gb18030_to_unicode, gb4_pointer, gb4_pointer_of_encoded,
    gb4_to_cp, big5_to_unicode, single_code, sjis_to_unicode, write_encoded_or_raw,
    write_euccn_or_raw, write_gb18030_encoded, write_gb4,
};
use rusty_expressions::Error;

#[test]
fn one_decoded_character_is_the_code() {
    assert_eq!(decoded_code_or_raw(&Some("あ".to_string()), 0x82a0), 0x3042);
    assert_eq!(decoded_code_or_raw(&Some("\u{1f600}".to_string()), 0x9532_8236), 0x1f600);
}

#[test]
fn otherwise_the_raw_bytes_are_the_code() {
    assert_eq!(decoded_code_or_raw(&None, 0x82a0), 0x82a0);
    assert_eq!(decoded_code_or_raw(&Some("ab".to_string()), 0x8862), 0x8862);
    assert_eq!(decoded_code_or_raw(&Some(String::new()), 0x8130_8130), 0x8130_8130);
}

#[test]
fn encoded_bytes_are_written() {
    let mut out = [0u8; 4];
    assert_eq!(write_encoded_or_raw(&Some(vec![0x82, 0xa0]), 0x3042, &mut out), Ok(2));
    assert_eq!(out, [0x82, 0xa0, 0, 0]);
    let mut out = [0u8; 4];
    assert_eq!(write_encoded_or_raw(&None, 0x3042, &mut out), Ok(2));
    assert_eq!(out, [0x30, 0x42, 0, 0]);
    let mut out = [7u8; 1];
    assert_eq!(write_encoded_or_raw(&Some(vec![0x82, 0xa0]), 0x3042, &mut out), Err(Error::ShortBuffer));
    assert_eq!(out, [7]);
}

#[test]
fn euc_cn_keeps_only_pairs_in_its_rows() {
    let mut out = [0u8; 4];
    assert_eq!(write_euccn_or_raw(&Some(vec![0xd6, 0xd0]), 0x4e2d, &mut out), Ok(2));
    assert_eq!(&out[..2], &[0xd6, 0xd0]);
    let mut out = [0u8; 4];
    assert_eq!(write_euccn_or_raw(&Some(vec![0x81, 0x40]), 0x4e02, &mut out), Ok(2));
    assert_eq!(&out[..2], &[0x4e, 0x02]);
    let mut out = [0u8; 4];
    assert_eq!(write_euccn_or_raw(&Some(vec![0x80]), 0x20ac, &mut out), Ok(2));
    assert_eq!(&out[..2], &[0x20, 0xac]);
    let mut out = [0u8; 4];
    assert_eq!(write_euccn_or_raw(&None, 0x1f600, &mut out), Ok(3));
    assert_eq!(&out[..3], &[0x01, 0xf6, 0x00]);
}

#[test]
fn encoded_bytes_beyond_four_fall_back_to_raw() {
    let mut out = [0u8; 8];
    assert_eq!(write_encoded_or_raw(&Some(vec![1, 2, 3, 4, 5]), 0x3042, &mut out), Ok(2));
    assert_eq!(&out[..2], &[0x30, 0x42]);
    let mut out = [0u8; 8];
    assert_eq!(write_encoded_or_raw(&Some(vec![]), 0x41, &mut out), Ok(1));
    assert_eq!(out[0], 0x41);
}

#[test]
fn gb18030_four_byte_pointers() {
    assert_eq!(gb4_pointer(&[0x81, 0x30, 0x81, 0x30]), 0);
    assert_eq!(gb4_pointer(&[0x84, 0x31, 0xa4, 0x39]), 39419);
    assert_eq!(gb4_pointer(&[0x90, 0x30, 0x81, 0x30]), 189000);
    assert_eq!(gb4_pointer(&[0xfe, 0x39, 0xfe, 0x39]), 1587599);
    let mut out = [0u8; 4];
    assert_eq!(write_gb4(39419, &mut out), Ok(4));
    assert_eq!(out, [0x84, 0x31, 0xa4, 0x39]);
    let mut out = [0u8; 4];
    assert_eq!(write_gb4(1587599, &mut out), Ok(4));
    assert_eq!(out, [0xfe, 0x39, 0xfe, 0x39]);
    let mut short = [0u8; 3];
    assert_eq!(write_gb4(0, &mut short), Err(Error::ShortBuffer));
    assert_eq!(gb4_to_cp(0), Some(0x80));
    assert_eq!(gb4_to_cp(189000), Some(0x10000));
    assert_eq!(cp_to_gb4(0x80), Some(0));
    assert_eq!(cp_to_gb4(0x10000), Some(189000));
    // A code the two-byte table holds has no four-byte pointer.
    assert_eq!(cp_to_gb4(0x4e2d), None);
}

#[test]
fn results_of_the_gb18030_table() {
    assert_eq!(single_code(&Some("中".to_string())), Some(0x4e2d));
    assert_eq!(single_code(&Some("ab".to_string())), None);
    assert_eq!(single_code(&None), None);
    assert_eq!(gb4_pointer_of_encoded(&Some(vec![0x81, 0x30, 0x81, 0x30])), Some(0));
    assert_eq!(gb4_pointer_of_encoded(&Some(vec![0xd6, 0xd0])), None);
    assert_eq!(gb4_pointer_of_encoded(&None), None);
    let mut out = [0u8; 4];
    assert_eq!(write_gb18030_encoded(&Some(vec![0xd6, 0xd0]), 0x4e2d, &mut out), Ok(2));
    assert_eq!(&out[..2], &[0xd6, 0xd0]);
    let mut out = [0u8; 4];
    assert_eq!(write_gb18030_encoded(&Some(vec![0x84, 0x31, 0xa4, 0x39]), 0xffff, &mut out), Ok(4));
    assert_eq!(out, [0x84, 0x31, 0xa4, 0x39]);
    let mut out = [0u8; 4];
    assert_eq!(write_gb18030_encoded(&None, 0xe5e5, &mut out), Ok(2));
    assert_eq!(&out[..2], &[0xe5, 0xe5]);
    let mut out = [9u8; 3];
    assert_eq!(write_gb18030_encoded(&Some(vec![0x81, 0x30, 0x81, 0x30]), 0x80, &mut out), Err(Error::ShortBuffer));
    assert_eq!(out, [9, 9, 9]);
}

#[test]
fn empty_input_reads_as_code_zero() {
    assert_eq!(sjis_to_unicode(&[]), 0);
    assert_eq!(big5_to_unicode(&[]), 0);
    assert_eq!(gb18030_to_unicode(&[]), 0);
}
