//! The mathematical model of each encoding operation: what a character's
//! length is, what code it reads as, what bytes a code is written as, how a
//! code folds and where a position adjusts to.

use vstd::prelude::*;

use vstd::utf8::{encode_scalar, is_scalar};

use crate::cjk::{
    lowercase_first, spec_big5_bytes, spec_big5_to_unicode, spec_eucjp_bytes,
    spec_eucjp_to_unicode, spec_euccn_bytes, spec_gb18030_bytes, spec_gb18030_to_unicode,
    spec_sjis_bytes, spec_sjis_to_unicode,
};
use crate::encoding::EncKind;
use crate::error::Error;
use crate::lead::{spec_table_len, utf8_lead_len, LenTable};
use crate::mbc::{spec_gb18030_len, spec_pack, spec_unpack};
use crate::utf::{
    spec_utf16_bytes, spec_utf16_code, spec_utf16_len, spec_utf32_bytes, spec_utf32_code,
    spec_utf8_code, unit16, is_high_surrogate, is_low_surrogate, INVALID_CODE_BASE,
};

verus! {

/// The encoding's name as Oniguruma spells it.
pub open spec fn spec_name(k: EncKind) -> Seq<char> {
    match k {
        EncKind::Ascii => "ASCII"@,
        EncKind::Utf8 => "UTF-8"@,
        EncKind::Utf16Be => "UTF-16BE"@,
        EncKind::Utf16Le => "UTF-16LE"@,
        EncKind::Utf32Be => "UTF-32BE"@,
        EncKind::Utf32Le => "UTF-32LE"@,
        EncKind::Iso8859(n) => if n == 1 {
            "ISO-8859-1"@
        } else if n == 2 {
            "ISO-8859-2"@
        } else if n == 3 {
            "ISO-8859-3"@
        } else if n == 4 {
            "ISO-8859-4"@
        } else if n == 5 {
            "ISO-8859-5"@
        } else if n == 6 {
            "ISO-8859-6"@
        } else if n == 7 {
            "ISO-8859-7"@
        } else if n == 8 {
            "ISO-8859-8"@
        } else if n == 9 {
            "ISO-8859-9"@
        } else if n == 10 {
            "ISO-8859-10"@
        } else if n == 11 {
            "ISO-8859-11"@
        } else if n == 13 {
            "ISO-8859-13"@
        } else if n == 14 {
            "ISO-8859-14"@
        } else if n == 15 {
            "ISO-8859-15"@
        } else if n == 16 {
            "ISO-8859-16"@
        } else {
            "ISO-8859"@
        },
        EncKind::Koi8R => "KOI8-R"@,
        EncKind::Cp1251 => "CP1251"@,
        EncKind::EucJp => "EUC-JP"@,
        EncKind::EucTw => "EUC-TW"@,
        EncKind::EucKr => "EUC-KR"@,
        EncKind::EucCn => "EUC-CN"@,
        EncKind::Sjis => "Shift_JIS"@,
        EncKind::Big5 => "Big5"@,
        EncKind::Gb18030 => "GB18030"@,
    }
}

/// The Unicode transformation formats.
pub open spec fn spec_is_unicode(k: EncKind) -> bool {
    k is Utf8 || k is Utf16Be || k is Utf16Le || k is Utf32Be || k is Utf32Le
}

/// The single-byte encodings: every byte is one character.
pub open spec fn is_single_byte(k: EncKind) -> bool {
    k is Ascii || k is Iso8859 || k is Koi8R || k is Cp1251
}

pub open spec fn spec_min_len(k: EncKind) -> usize {
    match k {
        EncKind::Utf16Be | EncKind::Utf16Le => 2,
        EncKind::Utf32Be | EncKind::Utf32Le => 4,
        _ => 1,
    }
}

pub open spec fn spec_max_len(k: EncKind) -> usize {
    match k {
        EncKind::Utf8 => 4,
        EncKind::Utf16Be | EncKind::Utf16Le => 4,
        EncKind::Utf32Be | EncKind::Utf32Le => 4,
        EncKind::EucJp => 3,
        EncKind::EucTw => 4,
        EncKind::Gb18030 => 4,
        EncKind::Sjis | EncKind::Big5 | EncKind::EucKr | EncKind::EucCn => 2,
        _ => 1,
    }
}

/// A byte scan can land anywhere and still know where characters begin.
pub open spec fn spec_self_sync(k: EncKind) -> bool {
    spec_max_len(k) == 1 || k is Utf8
}

/// `p` starts with the encoding's newline character.
pub open spec fn spec_is_newline(k: EncKind, p: Seq<u8>) -> bool {
    if p.len() == 0 {
        false
    } else {
        match k {
            EncKind::Utf16Be => p.len() >= 2 && p[0] == 0 && p[1] == 0x0a,
            EncKind::Utf16Le => p.len() >= 2 && p[0] == 0x0a && p[1] == 0,
            EncKind::Utf32Be => p.len() >= 4 && p[0] == 0 && p[1] == 0 && p[2] == 0 && p[3]
                == 0x0a,
            EncKind::Utf32Le => p.len() >= 4 && p[0] == 0x0a && p[1] == 0 && p[2] == 0 && p[3]
                == 0,
            _ => p[0] == 0x0a,
        }
    }
}

/// The length of the character at the front of `p`, before it is checked
/// against the bytes given.
pub open spec fn raw_mbc_len(k: EncKind, p: Seq<u8>) -> Result<usize, Error>
    recommends
        p.len() > 0,
{
    match k {
        EncKind::Ascii | EncKind::Iso8859(_) | EncKind::Koi8R | EncKind::Cp1251 => Ok(1),
        EncKind::Utf8 => Ok(utf8_lead_len(p[0]) as usize),
        EncKind::Utf16Be => spec_utf16_len(true, p),
        EncKind::Utf16Le => spec_utf16_len(false, p),
        EncKind::Utf32Be | EncKind::Utf32Le => if p.len() < 4 {
            Err(Error::TruncatedUtf32)
        } else {
            Ok(4)
        },
        EncKind::Sjis => Ok(spec_table_len(LenTable::Sjis, p) as usize),
        EncKind::Big5 => Ok(spec_table_len(LenTable::Big5, p) as usize),
        EncKind::Gb18030 => spec_gb18030_len(p),
        EncKind::EucJp => Ok(spec_table_len(LenTable::EucJp, p) as usize),
        EncKind::EucTw => Ok(spec_table_len(LenTable::EucTw, p) as usize),
        EncKind::EucKr => Ok(spec_table_len(LenTable::EucKr, p) as usize),
        EncKind::EucCn => Ok(spec_table_len(LenTable::EucCn, p) as usize),
    }
}

/// Byte length of the character starting at `p[0]`.
pub open spec fn spec_mbc_len(k: EncKind, p: Seq<u8>) -> Result<usize, Error> {
    if p.len() == 0 {
        Err(Error::EmptyMbc)
    } else {
        match raw_mbc_len(k, p) {
            Err(e) => Err(e),
            Ok(n) => if n > p.len() {
                Err(Error::TruncatedCharacter)
            } else {
                Ok(n)
            },
        }
    }
}

/// The code of the character whose bytes are exactly `b`.
pub open spec fn spec_decode(k: EncKind, b: Seq<u8>) -> u32 {
    match k {
        EncKind::Ascii | EncKind::Iso8859(_) | EncKind::Koi8R | EncKind::Cp1251 => b[0] as u32,
        EncKind::Utf8 => spec_utf8_code(b),
        EncKind::Utf16Be => spec_utf16_code(b, true),
        EncKind::Utf16Le => spec_utf16_code(b, false),
        EncKind::Utf32Be => spec_utf32_code(b, true),
        EncKind::Utf32Le => spec_utf32_code(b, false),
        EncKind::Sjis => spec_sjis_to_unicode(b),
        EncKind::Big5 => spec_big5_to_unicode(b),
        EncKind::Gb18030 => spec_gb18030_to_unicode(b),
        EncKind::EucJp => spec_eucjp_to_unicode(b),
        EncKind::EucCn => spec_gb18030_to_unicode(b),
        EncKind::EucTw | EncKind::EucKr => spec_pack(b),
    }
}

/// The code of the character at the front of `p`.
pub open spec fn spec_mbc_to_code(k: EncKind, p: Seq<u8>) -> Result<u32, Error> {
    match spec_mbc_len(k, p) {
        Err(e) => Err(e),
        Ok(n) => Ok(spec_decode(k, p.take(n as int))),
    }
}

/// A successful length is at least one byte, at most the bytes given and at
/// most four; UTF-32 lengths are four, UTF-16 lengths at least two, and a
/// UTF-8 length is the one its lead byte announces.
pub proof fn lemma_mbc_len_bounds(k: EncKind, p: Seq<u8>)
    ensures
        spec_mbc_len(k, p) matches Ok(n) ==> {
            &&& 1 <= n <= p.len()
            &&& n <= 4
            &&& (k is Utf32Be || k is Utf32Le ==> n == 4)
            &&& (k is Utf16Be || k is Utf16Le ==> n >= 2)
            &&& (k is Utf8 ==> n == utf8_lead_len(p[0]))
        },
{
}

/// The bytes `code` is written as, or the error that no buffer avoids.
pub open spec fn spec_encode(k: EncKind, code: u32) -> Result<Seq<u8>, Error> {
    match k {
        EncKind::Utf8 => if is_scalar(code) {
            Ok(encode_scalar(code))
        } else {
            Err(Error::InvalidCodePoint)
        },
        EncKind::Ascii | EncKind::Iso8859(_) | EncKind::Koi8R | EncKind::Cp1251 => if code
            > 0xff {
            Err(Error::CodeOutOfRange)
        } else {
            Ok(seq![code as u8])
        },
        EncKind::Utf32Be => Ok(spec_utf32_bytes(code, true)),
        EncKind::Utf32Le => Ok(spec_utf32_bytes(code, false)),
        EncKind::Utf16Be => Ok(spec_utf16_bytes(code, true)),
        EncKind::Utf16Le => Ok(spec_utf16_bytes(code, false)),
        EncKind::Sjis => Ok(spec_sjis_bytes(code)),
        EncKind::Big5 => Ok(spec_big5_bytes(code)),
        EncKind::Gb18030 => Ok(spec_gb18030_bytes(code)),
        EncKind::EucJp => Ok(spec_eucjp_bytes(code)),
        EncKind::EucCn => Ok(spec_euccn_bytes(code)),
        EncKind::EucTw | EncKind::EucKr => Ok(spec_unpack(code)),
    }
}

/// A code is written as one to four bytes in every encoding.
pub proof fn lemma_encode_len(k: EncKind, code: u32)
    ensures
        spec_encode(k, code) matches Ok(b) ==> 1 <= b.len() <= 4,
{
}

/// What writing `code` into a buffer of `out_len` bytes gives: the bytes, or
/// an error. A buffer too small is `ShortBuffer`, except in the single-byte
/// encodings, which report every failure as `CodeOutOfRange`.
pub open spec fn spec_code_to_mbc(k: EncKind, code: u32, out_len: nat) -> Result<Seq<u8>, Error> {
    match spec_encode(k, code) {
        Err(e) => Err(e),
        Ok(b) => if out_len < b.len() {
            if is_single_byte(k) {
                Err(Error::CodeOutOfRange)
            } else {
                Err(Error::ShortBuffer)
            }
        } else {
            Ok(b)
        },
    }
}

/// Oniguruma's `ONIGENC_CODE_TO_MBCLEN`: the bytes `code` takes when written
/// into an eight-byte buffer, one when it cannot be written.
pub open spec fn spec_code_mbc_len(k: EncKind, code: u32) -> usize {
    match spec_code_to_mbc(k, code, 8) {
        Ok(b) => b.len() as usize,
        Err(_) => 1,
    }
}

/// ASCII case folding: `A..=Z` to `a..=z`.
pub open spec fn spec_fold_ascii(code: u32) -> u32 {
    if 0x41 <= code <= 0x5a {
        (code + 32) as u32
    } else {
        code
    }
}

/// Unicode case folding: the first character of the standard library's
/// lowercase mapping; a code that is no character stays as it is.
pub open spec fn spec_fold_unicode(code: u32) -> u32 {
    if is_scalar(code) {
        match lowercase_first(code as char) {
            Some(c) => c as u32,
            None => code,
        }
    } else {
        code
    }
}

/// The folded code: ASCII-only folding when asked for, or when the encoding
/// is not Unicode; full Unicode folding otherwise.
pub open spec fn spec_fold(k: EncKind, ascii_only: bool, code: u32) -> u32 {
    if ascii_only || !spec_is_unicode(k) {
        if code < 0x80 {
            spec_fold_ascii(code)
        } else {
            code
        }
    } else {
        spec_fold_unicode(code)
    }
}

/// An undecodable UTF-8 character: its code sits above every scalar.
pub open spec fn is_undecodable(k: EncKind, c: u32) -> bool {
    k is Utf8 && c >= INVALID_CODE_BASE
}

/// What case-folding the character at the front of `p` into a buffer of
/// `out_len` bytes gives: the folded code written back; an undecodable UTF-8
/// character has no case and is copied as its measured bytes.
pub open spec fn spec_case_fold(k: EncKind, ascii_only: bool, p: Seq<u8>, out_len: nat) -> Result<
    Seq<u8>,
    Error,
> {
    match spec_mbc_to_code(k, p) {
        Err(e) => Err(e),
        Ok(c) => if is_undecodable(k, c) {
            let b = p.take(spec_mbc_len(k, p)->Ok_0 as int);
            if out_len < b.len() {
                Err(Error::ShortBuffer)
            } else {
                Ok(b)
            }
        } else {
            spec_code_to_mbc(k, spec_fold(k, ascii_only, c), out_len)
        },
    }
}

/// Walking characters forward from the head `i`, the head of the character
/// that covers `pos`: `pos` itself when a character starts there, or when
/// the walk meets bytes it cannot measure.
pub open spec fn walk_to_head(k: EncKind, hay: Seq<u8>, pos: int, i: int) -> int
    decreases pos - i,
{
    if i >= pos {
        pos
    } else {
        match spec_mbc_len(k, hay.skip(i)) {
            Ok(n) => if n == 0 {
                pos
            } else if i + n > pos {
                i
            } else {
                walk_to_head(k, hay, pos, i + n)
            },
            Err(_) => pos,
        }
    }
}

/// UTF-8: step back from `i` over continuation bytes, not past `start`.
pub open spec fn utf8_back_to_head(hay: Seq<u8>, start: int, i: int) -> int
    decreases i - start,
{
    if i > start && 0x80 <= hay[i] <= 0xbf {
        utf8_back_to_head(hay, start, i - 1)
    } else {
        i
    }
}

/// UTF-16: round down to a unit boundary, then step back over a low
/// surrogate whose high half stands before it.
pub open spec fn utf16_back_to_head(hay: Seq<u8>, start: int, pos: int, be: bool) -> int {
    let r = start + (pos - start) - (pos - start) % 2;
    if r >= start + 2 && r + 1 < hay.len() && is_low_surrogate(unit16(hay, r, be))
        && is_high_surrogate(unit16(hay, r - 2, be)) {
        r - 2
    } else {
        r
    }
}

/// Walking characters forward from `i` by their measured lengths lands
/// exactly on `b`: `b` is a character boundary as seen from `i`.
pub open spec fn reaches(k: EncKind, hay: Seq<u8>, i: int, b: int) -> bool
    decreases b - i,
{
    if i >= b {
        i == b
    } else {
        match spec_mbc_len(k, hay.skip(i)) {
            Ok(n) => if n > 0 && i + n <= b {
                reaches(k, hay, i + n, b)
            } else {
                false
            },
            Err(_) => false,
        }
    }
}

/// `pos` moved left to a character boundary in `hay[start..]`.
pub open spec fn spec_left_adjust(k: EncKind, hay: Seq<u8>, start: int, pos: int) -> int {
    if pos <= start || pos > hay.len() {
        if pos < hay.len() {
            pos
        } else {
            hay.len() as int
        }
    } else {
        match k {
            EncKind::Utf8 => if pos == hay.len() {
                pos
            } else {
                utf8_back_to_head(hay, start, pos)
            },
            EncKind::Utf16Be => utf16_back_to_head(hay, start, pos, true),
            EncKind::Utf16Le => utf16_back_to_head(hay, start, pos, false),
            EncKind::Utf32Be | EncKind::Utf32Le => start + (pos - start) - (pos - start) % 4,
            _ => walk_to_head(k, hay, pos, start),
        }
    }
}

/// The head of the character before `pos`, if it lies at or after `start`.
pub open spec fn spec_prev_char_start(k: EncKind, hay: Seq<u8>, start: int, pos: int) -> Option<
    usize,
> {
    if pos <= start {
        None
    } else {
        let adj = spec_left_adjust(k, hay, start, pos - 1);
        if adj < pos {
            Some(adj as usize)
        } else {
            None
        }
    }
}

} // verus!
