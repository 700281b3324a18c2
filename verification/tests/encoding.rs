use rusty_expressions::encoding::{fold_ascii, fold_unicode};
use rusty_expressions::lead::{table_len, utf8_len, LenTable};
use rusty_expressions::utf::utf8_to_code;
use rusty_expressions::{EncKind, Encoding, Error, ErrorKind};

fn enc(k: EncKind) -> Encoding {
    Encoding::new(k)
}

fn write(e: Encoding, code: u32, len: usize) -> Result<Vec<u8>, Error> {
    let mut out = vec![0xEEu8; len];
    let n = e.code_to_mbc(code, &mut out)?;
    out.truncate(n);
    Ok(out)
}

#[test]
fn names() {
    assert_eq!(enc(EncKind::Ascii).name(), "ASCII");
    assert_eq!(enc(EncKind::Utf8).name(), "UTF-8");
    assert_eq!(enc(EncKind::Utf16Be).name(), "UTF-16BE");
    assert_eq!(enc(EncKind::Utf16Le).name(), "UTF-16LE");
    assert_eq!(enc(EncKind::Utf32Be).name(), "UTF-32BE");
    assert_eq!(enc(EncKind::Utf32Le).name(), "UTF-32LE");
    assert_eq!(enc(EncKind::Iso8859(1)).name(), "ISO-8859-1");
    assert_eq!(enc(EncKind::Iso8859(11)).name(), "ISO-8859-11");
    assert_eq!(enc(EncKind::Iso8859(16)).name(), "ISO-8859-16");
    assert_eq!(enc(EncKind::Iso8859(12)).name(), "ISO-8859");
    assert_eq!(enc(EncKind::Koi8R).name(), "KOI8-R");
    assert_eq!(enc(EncKind::Cp1251).name(), "CP1251");
    assert_eq!(enc(EncKind::EucJp).name(), "EUC-JP");
    assert_eq!(enc(EncKind::EucTw).name(), "EUC-TW");
    assert_eq!(enc(EncKind::EucKr).name(), "EUC-KR");
    assert_eq!(enc(EncKind::EucCn).name(), "EUC-CN");
    assert_eq!(enc(EncKind::Sjis).name(), "Shift_JIS");
    assert_eq!(enc(EncKind::Big5).name(), "Big5");
    assert_eq!(enc(EncKind::Gb18030).name(), "GB18030");
}

#[test]
fn unicode_and_lengths() {
    assert!(enc(EncKind::Utf8).is_unicode());
    assert!(enc(EncKind::Utf32Le).is_unicode());
    assert!(!enc(EncKind::Sjis).is_unicode());
    assert!(!enc(EncKind::Ascii).is_unicode());
    assert_eq!(enc(EncKind::Utf16Be).min_len(), 2);
    assert_eq!(enc(EncKind::Utf32Le).min_len(), 4);
    assert_eq!(enc(EncKind::Big5).min_len(), 1);
    assert_eq!(enc(EncKind::Utf8).max_len(), 4);
    assert_eq!(enc(EncKind::EucJp).max_len(), 3);
    assert_eq!(enc(EncKind::EucTw).max_len(), 4);
    assert_eq!(enc(EncKind::Gb18030).max_len(), 4);
    assert_eq!(enc(EncKind::Sjis).max_len(), 2);
    assert_eq!(enc(EncKind::Koi8R).max_len(), 1);
}

#[test]
fn self_sync() {
    assert!(enc(EncKind::Ascii).self_sync());
    assert!(enc(EncKind::Iso8859(5)).self_sync());
    assert!(enc(EncKind::Utf8).self_sync());
    assert!(!enc(EncKind::Big5).self_sync());
    assert!(!enc(EncKind::Sjis).self_sync());
    assert!(!enc(EncKind::Utf16Le).self_sync());
}

#[test]
fn utf8_lengths_and_codes() {
    let e = enc(EncKind::Utf8);
    assert_eq!(e.mbc_len(b"A"), Ok(1));
    assert_eq!(e.mbc_len(&[0xe3, 0x81, 0x82, 0x41]), Ok(3));
    assert_eq!(e.mbc_to_code(&[0xe3, 0x81, 0x82, 0x41]), Ok(0x3042));
    assert_eq!(e.mbc_to_code(&[0xc3, 0xa9]), Ok(0xe9));
    assert_eq!(e.mbc_to_code(&[0xf0, 0x9f, 0x98, 0x80]), Ok(0x1f600));
    // A stray continuation byte is a one-byte character above every scalar.
    assert_eq!(e.mbc_len(&[0x82, 0x41]), Ok(1));
    assert_eq!(e.mbc_to_code(&[0x82, 0x41]), Ok(0x8000_0082));
    // An overlong form and an encoded surrogate are undecodable too.
    assert_eq!(e.mbc_to_code(&[0xc0, 0x80]), Ok(0x8000_00c0));
    assert_eq!(e.mbc_to_code(&[0xed, 0xa0, 0x80]), Ok(0x8000_00ed));
    // Bytes above 0xF7 start nothing.
    assert_eq!(e.mbc_len(&[0xf8, 0x80, 0x80, 0x80, 0x80]), Ok(1));
    assert_eq!(e.mbc_to_code(&[0xff]), Ok(0x8000_00ff));
}

#[test]
fn length_errors() {
    assert_eq!(enc(EncKind::Utf8).mbc_len(&[]), Err(Error::EmptyMbc));
    assert_eq!(enc(EncKind::Ascii).mbc_to_code(&[]), Err(Error::EmptyMbc));
    assert_eq!(enc(EncKind::Utf8).mbc_len(&[0xe3, 0x81]), Err(Error::TruncatedCharacter));
    assert_eq!(enc(EncKind::Utf32Be).mbc_len(&[0, 0, 0]), Err(Error::TruncatedUtf32));
    assert_eq!(enc(EncKind::Utf16Le).mbc_len(&[0x41]), Err(Error::TruncatedUtf16));
    assert_eq!(
        enc(EncKind::Utf16Le).mbc_len(&[0x3d, 0xd8, 0x00]),
        Err(Error::TruncatedSurrogatePair)
    );
    assert_eq!(enc(EncKind::Utf16Be).mbc_len(&[0xd8, 0x3d]), Err(Error::TruncatedSurrogatePair));
    assert_eq!(enc(EncKind::Gb18030).mbc_len(&[0x80]), Err(Error::InvalidGb18030));
    assert_eq!(enc(EncKind::Gb18030).mbc_len(&[0xff, 0x41]), Err(Error::InvalidGb18030));
    assert_eq!(enc(EncKind::Gb18030).mbc_len(&[0x81]), Err(Error::TruncatedGb18030));
    assert_eq!(enc(EncKind::Gb18030).mbc_len(&[0x81, 0x30, 0x81]), Err(Error::TruncatedGb18030));
}

#[test]
fn utf16_and_utf32_codes() {
    let le = enc(EncKind::Utf16Le);
    let be = enc(EncKind::Utf16Be);
    assert_eq!(le.mbc_len(&[0x41, 0x00]), Ok(2));
    assert_eq!(le.mbc_to_code(&[0x42, 0x30]), Ok(0x3042));
    assert_eq!(be.mbc_to_code(&[0x30, 0x42]), Ok(0x3042));
    assert_eq!(le.mbc_len(&[0x3d, 0xd8, 0x00, 0xde]), Ok(4));
    assert_eq!(le.mbc_to_code(&[0x3d, 0xd8, 0x00, 0xde]), Ok(0x1f600));
    assert_eq!(be.mbc_to_code(&[0xd8, 0x3d, 0xde, 0x00]), Ok(0x1f600));
    // A high surrogate without its low half reads as itself.
    assert_eq!(be.mbc_to_code(&[0xd8, 0x3d, 0x00, 0x41]), Ok(0xd83d));
    // A lone low surrogate is one unit.
    assert_eq!(be.mbc_len(&[0xdc, 0x00, 0x00, 0x41]), Ok(2));
    assert_eq!(be.mbc_to_code(&[0xdc, 0x00]), Ok(0xdc00));
    assert_eq!(enc(EncKind::Utf32Be).mbc_to_code(&[0x00, 0x01, 0xf6, 0x00]), Ok(0x1f600));
    assert_eq!(enc(EncKind::Utf32Le).mbc_to_code(&[0x00, 0xf6, 0x01, 0x00]), Ok(0x1f600));
    assert_eq!(enc(EncKind::Utf32Le).mbc_to_code(&[0xff, 0xff, 0xff, 0xff]), Ok(0xffff_ffff));
}

#[test]
fn single_byte_codes() {
    for k in [EncKind::Ascii, EncKind::Iso8859(1), EncKind::Koi8R, EncKind::Cp1251] {
        let e = enc(k);
        assert_eq!(e.mbc_len(&[0xc1, 0xc2]), Ok(1));
        assert_eq!(e.mbc_to_code(&[0xc1, 0xc2]), Ok(0xc1));
        assert_eq!(write(e, 0xfe, 2), Ok(vec![0xfe]));
        assert_eq!(write(e, 0x100, 2), Err(Error::CodeOutOfRange));
        assert_eq!(write(e, 0x41, 0), Err(Error::CodeOutOfRange));
    }
}

#[test]
fn unicode_writes() {
    let u8e = enc(EncKind::Utf8);
    assert_eq!(write(u8e, 0x41, 4), Ok(vec![0x41]));
    assert_eq!(write(u8e, 0xe9, 4), Ok(vec![0xc3, 0xa9]));
    assert_eq!(write(u8e, 0x3042, 4), Ok(vec![0xe3, 0x81, 0x82]));
    assert_eq!(write(u8e, 0x1f600, 4), Ok(vec![0xf0, 0x9f, 0x98, 0x80]));
    assert_eq!(write(u8e, 0xd800, 4), Err(Error::InvalidCodePoint));
    assert_eq!(write(u8e, 0x110000, 4), Err(Error::InvalidCodePoint));
    assert_eq!(write(u8e, 0x3042, 2), Err(Error::ShortBuffer));
    let le = enc(EncKind::Utf16Le);
    let be = enc(EncKind::Utf16Be);
    assert_eq!(write(le, 0x3042, 4), Ok(vec![0x42, 0x30]));
    assert_eq!(write(be, 0x3042, 4), Ok(vec![0x30, 0x42]));
    assert_eq!(write(le, 0x1f600, 4), Ok(vec![0x3d, 0xd8, 0x00, 0xde]));
    assert_eq!(write(be, 0x1f600, 4), Ok(vec![0xd8, 0x3d, 0xde, 0x00]));
    assert_eq!(write(be, 0x1f600, 3), Err(Error::ShortBuffer));
    assert_eq!(write(be, 0x41, 1), Err(Error::ShortBuffer));
    // Codes are not checked in UTF-16: a surrogate is written as itself.
    assert_eq!(write(be, 0xdc00, 2), Ok(vec![0xdc, 0x00]));
    assert_eq!(write(enc(EncKind::Utf32Be), 0x1f600, 4), Ok(vec![0x00, 0x01, 0xf6, 0x00]));
    assert_eq!(write(enc(EncKind::Utf32Le), 0x1f600, 4), Ok(vec![0x00, 0xf6, 0x01, 0x00]));
    assert_eq!(write(enc(EncKind::Utf32Le), 0x41, 3), Err(Error::ShortBuffer));
}

#[test]
fn write_leaves_the_rest_of_the_buffer() {
    let mut out = [9u8; 6];
    assert_eq!(enc(EncKind::Utf8).code_to_mbc(0x3042, &mut out), Ok(3));
    assert_eq!(out, [0xe3, 0x81, 0x82, 9, 9, 9]);
    let mut out = [9u8; 2];
    assert_eq!(enc(EncKind::Utf8).code_to_mbc(0x3042, &mut out), Err(Error::ShortBuffer));
    assert_eq!(out, [9, 9]);
}

#[test]
fn shift_jis() {
    let e = enc(EncKind::Sjis);
    assert_eq!(e.mbc_len(&[0x82, 0xa0]), Ok(2));
    assert_eq!(e.mbc_to_code(&[0x82, 0xa0]), Ok(0x3042));
    assert_eq!(write(e, 0x3042, 4), Ok(vec![0x82, 0xa0]));
    // Half-width katakana is one byte.
    assert_eq!(e.mbc_len(&[0xb1, 0x41]), Ok(1));
    assert_eq!(e.mbc_to_code(&[0xb1]), Ok(0xff71));
    assert_eq!(write(e, 0xff71, 4), Ok(vec![0xb1]));
    assert_eq!(write(e, 0xff71, 0), Err(Error::ShortBuffer));
    // A lead byte at the end of the buffer counts as one byte.
    assert_eq!(e.mbc_len(&[0x82]), Ok(1));
    assert_eq!(e.mbc_to_code(&[0x82]), Ok(0x82));
    // A pair the table does not map keeps its raw bytes.
    assert_eq!(e.mbc_to_code(&[0x81, 0x20]), Ok(0x8120));
    assert_eq!(e.mbc_to_code(&[0x41]), Ok(0x41));
    assert_eq!(write(e, 0x41, 4), Ok(vec![0x41]));
}

#[test]
fn euc_jp() {
    let e = enc(EncKind::EucJp);
    assert_eq!(e.mbc_len(&[0xa4, 0xa2]), Ok(2));
    assert_eq!(e.mbc_to_code(&[0xa4, 0xa2]), Ok(0x3042));
    assert_eq!(write(e, 0x3042, 4), Ok(vec![0xa4, 0xa2]));
    assert_eq!(e.mbc_len(&[0x8e, 0xb1]), Ok(2));
    assert_eq!(e.mbc_to_code(&[0x8e, 0xb1]), Ok(0xff71));
    assert_eq!(write(e, 0xff71, 4), Ok(vec![0x8e, 0xb1]));
    assert_eq!(write(e, 0xff71, 1), Err(Error::ShortBuffer));
    assert_eq!(e.mbc_len(&[0x8f, 0xa2, 0xaf]), Ok(3));
    assert_eq!(e.mbc_to_code(&[0x41]), Ok(0x41));
}

#[test]
fn big5() {
    let e = enc(EncKind::Big5);
    assert_eq!(e.mbc_len(&[0xa4, 0xa4]), Ok(2));
    assert_eq!(e.mbc_to_code(&[0xa4, 0xa4]), Ok(0x4e2d));
    assert_eq!(write(e, 0x4e2d, 4), Ok(vec![0xa4, 0xa4]));
    // The trail byte is not validated: `AD 61` is one character.
    assert_eq!(e.mbc_len(&[0xad, 0x61]), Ok(2));
    assert_eq!(e.mbc_len(&[0x80, 0x61]), Ok(1));
}

#[test]
fn gb18030_and_euc_cn() {
    let e = enc(EncKind::Gb18030);
    assert_eq!(e.mbc_len(&[0xd6, 0xd0]), Ok(2));
    assert_eq!(e.mbc_to_code(&[0xd6, 0xd0]), Ok(0x4e2d));
    assert_eq!(write(e, 0x4e2d, 4), Ok(vec![0xd6, 0xd0]));
    assert_eq!(e.mbc_len(&[0x81, 0x30, 0x81, 0x30]), Ok(4));
    assert_eq!(e.mbc_to_code(&[0x81, 0x30, 0x81, 0x30]), Ok(0x80));
    assert_eq!(write(e, 0x80, 4), Ok(vec![0x81, 0x30, 0x81, 0x30]));
    assert_eq!(write(e, 0x80, 3), Err(Error::ShortBuffer));
    // A four-byte sequence out of shape keeps its raw bytes.
    assert_eq!(e.mbc_to_code(&[0x81, 0x30, 0x30, 0x30]), Ok(0x8130_3030));
    let cn = enc(EncKind::EucCn);
    assert_eq!(cn.mbc_len(&[0xd6, 0xd0]), Ok(2));
    assert_eq!(cn.mbc_to_code(&[0xd6, 0xd0]), Ok(0x4e2d));
    assert_eq!(write(cn, 0x4e2d, 4), Ok(vec![0xd6, 0xd0]));
    // Outside the EUC-CN rows the raw code is written.
    assert_eq!(write(cn, 0x80, 4), Ok(vec![0x80]));
    // The euro sign is in the GB table's EUC-CN rows, and reads back.
    assert_eq!(write(cn, 0x20ac, 4), Ok(vec![0xa2, 0xe3]));
    assert_eq!(cn.mbc_to_code(&[0xa2, 0xe3]), Ok(0x20ac));
}

#[test]
fn euc_kr_and_euc_tw_raw_codes() {
    let kr = enc(EncKind::EucKr);
    assert_eq!(kr.mbc_len(&[0xb0, 0xa1]), Ok(2));
    assert_eq!(kr.mbc_to_code(&[0xb0, 0xa1]), Ok(0xb0a1));
    assert_eq!(write(kr, 0xb0a1, 4), Ok(vec![0xb0, 0xa1]));
    assert_eq!(write(kr, 0xb0a1, 1), Err(Error::ShortBuffer));
    let tw = enc(EncKind::EucTw);
    assert_eq!(tw.mbc_len(&[0x8e, 0xa1, 0xa1, 0xa1]), Ok(4));
    assert_eq!(tw.mbc_to_code(&[0x8e, 0xa1, 0xa1, 0xa1]), Ok(0x8ea1_a1a1));
    assert_eq!(write(tw, 0x8ea1_a1a1, 4), Ok(vec![0x8e, 0xa1, 0xa1, 0xa1]));
    assert_eq!(write(tw, 0x01_0203, 4), Ok(vec![0x01, 0x02, 0x03]));
}

#[test]
fn code_mbc_len() {
    assert_eq!(enc(EncKind::Utf8).code_mbc_len(0x41), 1);
    assert_eq!(enc(EncKind::Utf8).code_mbc_len(0x3042), 3);
    assert_eq!(enc(EncKind::Utf8).code_mbc_len(0xd800), 1);
    assert_eq!(enc(EncKind::Utf16Le).code_mbc_len(0x1f600), 4);
    assert_eq!(enc(EncKind::Sjis).code_mbc_len(0x3042), 2);
    assert_eq!(enc(EncKind::Sjis).code_mbc_len(0xff71), 1);
    assert_eq!(enc(EncKind::Gb18030).code_mbc_len(0x80), 4);
    assert_eq!(enc(EncKind::Ascii).code_mbc_len(0x100), 1);
}

#[test]
fn newlines() {
    assert!(enc(EncKind::Utf8).is_newline(b"\nx"));
    assert!(!enc(EncKind::Utf8).is_newline(b"x\n"));
    assert!(!enc(EncKind::Utf8).is_newline(b""));
    assert!(enc(EncKind::Utf16Be).is_newline(&[0, 0x0a]));
    assert!(!enc(EncKind::Utf16Be).is_newline(&[0x0a, 0]));
    assert!(enc(EncKind::Utf16Le).is_newline(&[0x0a, 0]));
    assert!(!enc(EncKind::Utf16Le).is_newline(&[0x0a]));
    assert!(enc(EncKind::Utf32Be).is_newline(&[0, 0, 0, 0x0a]));
    assert!(enc(EncKind::Utf32Le).is_newline(&[0x0a, 0, 0, 0]));
    assert!(!enc(EncKind::Utf32Le).is_newline(&[0x0a, 0, 0]));
    assert!(enc(EncKind::Sjis).is_newline(b"\n"));
}

#[test]
fn case_folding() {
    let mut out = [0u8; 4];
    let u = enc(EncKind::Utf8);
    assert_eq!(u.case_fold(false, b"A", &mut out), Ok(1));
    assert_eq!(out[0], b'a');
    assert_eq!(u.case_fold(false, &[0xc3, 0x84], &mut out), Ok(2));
    assert_eq!(&out[..2], &[0xc3, 0xa4]);
    // ASCII-only folding leaves non-ASCII alone.
    assert_eq!(u.case_fold(true, &[0xc3, 0x84], &mut out), Ok(2));
    assert_eq!(&out[..2], &[0xc3, 0x84]);
    assert_eq!(u.case_fold(true, b"Q", &mut out), Ok(1));
    assert_eq!(out[0], b'q');
    // Non-Unicode encodings fold ASCII only.
    let l1 = enc(EncKind::Iso8859(1));
    assert_eq!(l1.case_fold(false, &[0xc4], &mut out), Ok(1));
    assert_eq!(out[0], 0xc4);
    assert_eq!(l1.case_fold(false, b"Z", &mut out), Ok(1));
    assert_eq!(out[0], b'z');
    assert_eq!(u.case_fold(false, &[], &mut out), Err(Error::EmptyMbc));
    let mut tiny = [0u8; 1];
    assert_eq!(u.case_fold(false, &[0xc3, 0x84], &mut tiny), Err(Error::ShortBuffer));
    // An undecodable character has no case: its bytes are copied.
    assert_eq!(u.case_fold(false, &[0xff], &mut out), Ok(1));
    assert_eq!(out[0], 0xff);
    let mut to = [0u8; 4];
    assert_eq!(u.case_fold(false, &[0x82], &mut to), Ok(1));
    assert_eq!(to[0], 0x82);
    assert_eq!(u.case_fold(true, &[0xc0, 0x80, 0x41], &mut to), Ok(2));
    assert_eq!(&to[..2], &[0xc0, 0x80]);
    let mut tiny = [7u8; 1];
    assert_eq!(u.case_fold(false, &[0xc0, 0x80], &mut tiny), Err(Error::ShortBuffer));
    assert_eq!(tiny, [7]);
}

#[test]
fn left_adjust() {
    let u = enc(EncKind::Utf8);
    let hay = [0x41, 0xe3, 0x81, 0x82, 0x42];
    assert_eq!(u.left_adjust(&hay, 0, 3), 1);
    assert_eq!(u.left_adjust(&hay, 0, 1), 1);
    assert_eq!(u.left_adjust(&hay, 2, 3), 2);
    assert_eq!(u.left_adjust(&hay, 3, 3), 3);
    assert_eq!(u.left_adjust(&hay, 0, 9), 5);
    let le = enc(EncKind::Utf16Le);
    assert_eq!(le.left_adjust(&[0; 8], 1, 4), 3);
    assert_eq!(le.left_adjust(&[0; 8], 0, 3), 2);
    let w = enc(EncKind::Utf32Be);
    assert_eq!(w.left_adjust(&[0; 8], 0, 7), 4);
    let sj = enc(EncKind::Sjis);
    let hay2 = [0x82, 0xa0, 0x41, 0x82, 0xa0];
    assert_eq!(sj.left_adjust(&hay2, 0, 4), 3);
    assert_eq!(sj.left_adjust(&hay2, 0, 1), 0);
    assert_eq!(sj.left_adjust(&hay2, 0, 2), 2);
    assert_eq!(sj.left_adjust(&hay2, 0, 5), 5);
    let a = enc(EncKind::Ascii);
    assert_eq!(a.left_adjust(b"abc", 0, 2), 2);
    let gb = enc(EncKind::Gb18030);
    // The walk meets a byte GB18030 cannot measure and gives up at pos.
    assert_eq!(gb.left_adjust(&[0x80, 0xd6, 0xd0], 0, 2), 2);
}

#[test]
fn prev_char_start() {
    let u = enc(EncKind::Utf8);
    let hay = [0x41, 0xe3, 0x81, 0x82, 0x42];
    assert_eq!(u.prev_char_start(&hay, 0, 4), Some(1));
    assert_eq!(u.prev_char_start(&hay, 0, 1), Some(0));
    assert_eq!(u.prev_char_start(&hay, 0, 0), None);
    assert_eq!(u.prev_char_start(&hay, 2, 2), None);
    let sj = enc(EncKind::Sjis);
    assert_eq!(sj.prev_char_start(&[0x82, 0xa0, 0x41], 0, 2), Some(0));
}

#[test]
fn errors_carry_kind_and_message() {
    assert_eq!(Error::EmptyMbc.kind(), ErrorKind::InvalidEncoding);
    assert_eq!(Error::ShortBuffer.kind(), ErrorKind::InvalidEncoding);
    assert_eq!(Error::EmptyMbc.message(), "empty mbc");
    assert_eq!(Error::TruncatedUtf32.message(), "truncated UTF-32");
    assert_eq!(Error::TruncatedUtf16.message(), "truncated UTF-16");
    assert_eq!(Error::TruncatedSurrogatePair.message(), "truncated surrogate pair");
    assert_eq!(Error::TruncatedCharacter.message(), "truncated character");
    assert_eq!(Error::InvalidGb18030.message(), "invalid GB18030");
    assert_eq!(Error::TruncatedGb18030.message(), "truncated GB18030");
    assert_eq!(Error::CodeOutOfRange.message(), "code out of range");
    assert_eq!(Error::ShortBuffer.message(), "short buffer");
    assert_eq!(Error::InvalidCodePoint.message(), "invalid code point");
    assert_eq!(Error::EmptyUtf8.message(), "empty UTF-8");
}

#[test]
fn folding_functions() {
    assert_eq!(fold_ascii(0x41), 0x61);
    assert_eq!(fold_ascii(0x5a), 0x7a);
    assert_eq!(fold_ascii(0x40), 0x40);
    assert_eq!(fold_ascii(0x5b), 0x5b);
    assert_eq!(fold_ascii(0x61), 0x61);
    assert_eq!(fold_unicode(0xc4), 0xe4);
    assert_eq!(fold_unicode(0x391), 0x3b1);
    // U+0130 lowercases to "i\u{307}"; the first character is kept.
    assert_eq!(fold_unicode(0x130), 0x69);
    assert_eq!(fold_unicode(0xd800), 0xd800);
    assert_eq!(fold_unicode(0x8000_0041), 0x8000_0041);
}

#[test]
fn lead_byte_tables() {
    assert_eq!(utf8_len(0x41), 1);
    assert_eq!(utf8_len(0x80), 1);
    assert_eq!(utf8_len(0xbf), 1);
    assert_eq!(utf8_len(0xc0), 2);
    assert_eq!(utf8_len(0xe0), 3);
    assert_eq!(utf8_len(0xf7), 4);
    assert_eq!(utf8_len(0xf8), 1);
    assert_eq!(utf8_len(0xff), 1);
    assert_eq!(table_len(LenTable::Sjis, &[0x80, 0x40]), 1);
    assert_eq!(table_len(LenTable::Sjis, &[0x9f, 0x40]), 2);
    assert_eq!(table_len(LenTable::Sjis, &[0xa0, 0x40]), 1);
    assert_eq!(table_len(LenTable::Sjis, &[0xfc, 0x40]), 2);
    assert_eq!(table_len(LenTable::Sjis, &[0xfd, 0x40]), 1);
    assert_eq!(table_len(LenTable::Big5, &[0xfe, 0x40]), 2);
    assert_eq!(table_len(LenTable::Big5, &[0xff, 0x40]), 1);
    assert_eq!(table_len(LenTable::EucJp, &[0x8f, 0xa1, 0xa1]), 3);
    assert_eq!(table_len(LenTable::EucJp, &[0x8f, 0xa1]), 1);
    assert_eq!(table_len(LenTable::EucTw, &[0x8e, 0xa1, 0xa1, 0xa1]), 4);
    assert_eq!(table_len(LenTable::EucKr, &[0xa1, 0xa1]), 2);
    assert_eq!(table_len(LenTable::EucCn, &[0xa0, 0xa1]), 1);
}

#[test]
fn utf8_to_code_on_any_slice() {
    assert_eq!(utf8_to_code(&[]), Err(Error::EmptyUtf8));
    assert_eq!(utf8_to_code(&[0x41]), Ok(0x41));
    assert_eq!(utf8_to_code(&[0xc3, 0xa9, 0x41]), Ok(0xe9));
    assert_eq!(utf8_to_code(&[0x41, 0x42]), Ok(0x41));
    assert_eq!(utf8_to_code(&[0xc3, 0x41]), Ok(0x8000_00c3));
    assert_eq!(utf8_to_code(&[0x41, 0xff]), Ok(0x8000_0041));
}

#[test]
fn left_adjust_utf16_surrogate_pairs() {
    let be = enc(EncKind::Utf16Be);
    let hay = [0xd8, 0x3d, 0xde, 0x00];
    assert_eq!(be.left_adjust(&hay, 0, 2), 0);
    assert_eq!(be.left_adjust(&hay, 0, 3), 0);
    assert_eq!(be.left_adjust(&hay, 0, 4), 4);
    assert_eq!(be.prev_char_start(&hay, 0, 4), Some(0));
    let le = enc(EncKind::Utf16Le);
    let hay = [0x41, 0x00, 0x3d, 0xd8, 0x00, 0xde, 0x42, 0x00];
    assert_eq!(le.left_adjust(&hay, 0, 4), 2);
    assert_eq!(le.left_adjust(&hay, 0, 5), 2);
    assert_eq!(le.left_adjust(&hay, 0, 6), 6);
    assert_eq!(le.prev_char_start(&hay, 0, 6), Some(2));
    // The high half before `start` is not looked at.
    assert_eq!(le.left_adjust(&hay, 4, 5), 4);
    // A low surrogate with no high half before it stays a boundary.
    assert_eq!(be.left_adjust(&[0x00, 0x41, 0xde, 0x00], 0, 2), 2);
}

#[test]
fn left_adjust_at_the_end() {
    let u = enc(EncKind::Utf8);
    assert_eq!(u.left_adjust(b"ab", 0, 2), 2);
    assert_eq!(u.left_adjust(&[0x61, 0xc3, 0xa9], 0, 3), 3);
    assert_eq!(u.prev_char_start(&[0x61, 0xc3, 0xa9], 0, 3), Some(1));
    assert_eq!(u.prev_char_start(&[0x61, 0xc3, 0xa9], 0, 4), Some(3));
}

#[test]
fn named_constructors() {
    assert_eq!(Encoding::utf8(), Encoding::new(EncKind::Utf8));
    assert_eq!(Encoding::iso_8859_13().name(), "ISO-8859-13");
    assert_eq!(Encoding::gb18030().name(), "GB18030");
    assert_eq!(Encoding::utf16_le().min_len(), 2);
    assert_eq!(Encoding::euc_tw().max_len(), 4);
    assert_eq!(Encoding::sjis().name(), "Shift_JIS");
}
