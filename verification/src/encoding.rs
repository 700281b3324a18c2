//! Per-regex character encoding: a value with Oniguruma's encoding method set
//! (character length, code in and out, case folding, newline, boundary
//! adjustment).

use vstd::prelude::*;

use crate::cjk::{
    big5_to_unicode, char_from_u32, put_bytes, eucjp_to_unicode, gb18030_to_unicode, sjis_to_unicode,
    to_lowercase_first, unicode_to_big5, unicode_to_eucjp, unicode_to_euccn, unicode_to_gb18030,
    unicode_to_sjis,
};
use crate::error::Error;
use crate::lead::{table_len, utf8_len, LenTable};
use crate::mbc::{gb18030_len, pack_mbc, unpack_mbc};
use crate::model::{
    lemma_encode_len, lemma_mbc_len_bounds, spec_case_fold, spec_code_mbc_len,
    spec_code_to_mbc, spec_decode, spec_fold_ascii, spec_fold_unicode, spec_is_newline,
    spec_is_unicode, spec_left_adjust, spec_max_len, spec_mbc_len, spec_mbc_to_code,
    spec_min_len, spec_name, spec_prev_char_start, spec_self_sync, utf8_back_to_head,
    walk_to_head,
};
use crate::utf::{
    code_to_utf16, code_to_utf32, code_to_utf8, overwrite, read_unit, utf16_len, utf16_to_code,
    utf32_to_code, utf8_to_code, INVALID_CODE_BASE,
};

verus! {

/// Which encoding an `Encoding` value is.
#[derive(Clone, Copy, Debug, PartialEq, Eq, Structural)]
pub enum EncKind {
    Ascii,
    Utf8,
    Utf16Be,
    Utf16Le,
    Utf32Be,
    Utf32Le,
    /// ISO-8859 with its part number.
    Iso8859(u8),
    Koi8R,
    Cp1251,
    EucJp,
    EucTw,
    EucKr,
    EucCn,
    Sjis,
    Big5,
    Gb18030,
}

/// A built-in character encoding (Oniguruma's `OnigEncodingType`).
#[derive(Clone, Copy, Debug, PartialEq, Eq, Structural)]
pub struct Encoding {
    kind: EncKind,
}

impl View for Encoding {
    type V = EncKind;

    closed spec fn view(&self) -> EncKind {
        self.kind
    }
}

impl Encoding {
    /// The encoding of the given kind (`Encoding::new(EncKind::Utf8)` is
    /// UTF-8, `Encoding::new(EncKind::Iso8859(5))` is ISO-8859-5).
    pub fn new(kind: EncKind) -> (e: Self)
        ensures
            e@ == kind,
    {
        Encoding { kind }
    }

    /// ASCII.
    pub fn ascii() -> (e: Self)
        ensures
            e@ == EncKind::Ascii,
    {
        Encoding { kind: EncKind::Ascii }
    }

    /// UTF-8.
    pub fn utf8() -> (e: Self)
        ensures
            e@ == EncKind::Utf8,
    {
        Encoding { kind: EncKind::Utf8 }
    }

    /// UTF-16BE.
    pub fn utf16_be() -> (e: Self)
        ensures
            e@ == EncKind::Utf16Be,
    {
        Encoding { kind: EncKind::Utf16Be }
    }

    /// UTF-16LE.
    pub fn utf16_le() -> (e: Self)
        ensures
            e@ == EncKind::Utf16Le,
    {
        Encoding { kind: EncKind::Utf16Le }
    }

    /// UTF-32BE.
    pub fn utf32_be() -> (e: Self)
        ensures
            e@ == EncKind::Utf32Be,
    {
        Encoding { kind: EncKind::Utf32Be }
    }

    /// UTF-32LE.
    pub fn utf32_le() -> (e: Self)
        ensures
            e@ == EncKind::Utf32Le,
    {
        Encoding { kind: EncKind::Utf32Le }
    }

    /// ISO-8859-1.
    pub fn iso_8859_1() -> (e: Self)
        ensures
            e@ == EncKind::Iso8859(1),
    {
        Encoding { kind: EncKind::Iso8859(1) }
    }

    /// ISO-8859-2.
    pub fn iso_8859_2() -> (e: Self)
        ensures
            e@ == EncKind::Iso8859(2),
    {
        Encoding { kind: EncKind::Iso8859(2) }
    }

    /// ISO-8859-3.
    pub fn iso_8859_3() -> (e: Self)
        ensures
            e@ == EncKind::Iso8859(3),
    {
        Encoding { kind: EncKind::Iso8859(3) }
    }

    /// ISO-8859-4.
    pub fn iso_8859_4() -> (e: Self)
        ensures
            e@ == EncKind::Iso8859(4),
    {
        Encoding { kind: EncKind::Iso8859(4) }
    }

    /// ISO-8859-5.
    pub fn iso_8859_5() -> (e: Self)
        ensures
            e@ == EncKind::Iso8859(5),
    {
        Encoding { kind: EncKind::Iso8859(5) }
    }

    /// ISO-8859-6.
    pub fn iso_8859_6() -> (e: Self)
        ensures
            e@ == EncKind::Iso8859(6),
    {
        Encoding { kind: EncKind::Iso8859(6) }
    }

    /// ISO-8859-7.
    pub fn iso_8859_7() -> (e: Self)
        ensures
            e@ == EncKind::Iso8859(7),
    {
        Encoding { kind: EncKind::Iso8859(7) }
    }

    /// ISO-8859-8.
    pub fn iso_8859_8() -> (e: Self)
        ensures
            e@ == EncKind::Iso8859(8),
    {
        Encoding { kind: EncKind::Iso8859(8) }
    }

    /// ISO-8859-9.
    pub fn iso_8859_9() -> (e: Self)
        ensures
            e@ == EncKind::Iso8859(9),
    {
        Encoding { kind: EncKind::Iso8859(9) }
    }

    /// ISO-8859-10.
    pub fn iso_8859_10() -> (e: Self)
        ensures
            e@ == EncKind::Iso8859(10),
    {
        Encoding { kind: EncKind::Iso8859(10) }
    }

    /// ISO-8859-11.
    pub fn iso_8859_11() -> (e: Self)
        ensures
            e@ == EncKind::Iso8859(11),
    {
        Encoding { kind: EncKind::Iso8859(11) }
    }

    /// ISO-8859-13.
    pub fn iso_8859_13() -> (e: Self)
        ensures
            e@ == EncKind::Iso8859(13),
    {
        Encoding { kind: EncKind::Iso8859(13) }
    }

    /// ISO-8859-14.
    pub fn iso_8859_14() -> (e: Self)
        ensures
            e@ == EncKind::Iso8859(14),
    {
        Encoding { kind: EncKind::Iso8859(14) }
    }

    /// ISO-8859-15.
    pub fn iso_8859_15() -> (e: Self)
        ensures
            e@ == EncKind::Iso8859(15),
    {
        Encoding { kind: EncKind::Iso8859(15) }
    }

    /// ISO-8859-16.
    pub fn iso_8859_16() -> (e: Self)
        ensures
            e@ == EncKind::Iso8859(16),
    {
        Encoding { kind: EncKind::Iso8859(16) }
    }

    /// KOI8-R.
    pub fn koi8_r() -> (e: Self)
        ensures
            e@ == EncKind::Koi8R,
    {
        Encoding { kind: EncKind::Koi8R }
    }

    /// CP1251.
    pub fn cp1251() -> (e: Self)
        ensures
            e@ == EncKind::Cp1251,
    {
        Encoding { kind: EncKind::Cp1251 }
    }

    /// EUC-JP.
    pub fn euc_jp() -> (e: Self)
        ensures
            e@ == EncKind::EucJp,
    {
        Encoding { kind: EncKind::EucJp }
    }

    /// EUC-TW.
    pub fn euc_tw() -> (e: Self)
        ensures
            e@ == EncKind::EucTw,
    {
        Encoding { kind: EncKind::EucTw }
    }

    /// EUC-KR.
    pub fn euc_kr() -> (e: Self)
        ensures
            e@ == EncKind::EucKr,
    {
        Encoding { kind: EncKind::EucKr }
    }

    /// EUC-CN.
    pub fn euc_cn() -> (e: Self)
        ensures
            e@ == EncKind::EucCn,
    {
        Encoding { kind: EncKind::EucCn }
    }

    /// Shift_JIS.
    pub fn sjis() -> (e: Self)
        ensures
            e@ == EncKind::Sjis,
    {
        Encoding { kind: EncKind::Sjis }
    }

    /// Big5.
    pub fn big5() -> (e: Self)
        ensures
            e@ == EncKind::Big5,
    {
        Encoding { kind: EncKind::Big5 }
    }

    /// GB18030.
    pub fn gb18030() -> (e: Self)
        ensures
            e@ == EncKind::Gb18030,
    {
        Encoding { kind: EncKind::Gb18030 }
    }

    /// The encoding's name as Oniguruma spells it.
    pub fn name(self) -> (r: &'static str)
        ensures
            r@ == spec_name(self@),
    {
        match self.kind {
            EncKind::Ascii => "ASCII",
            EncKind::Utf8 => "UTF-8",
            EncKind::Utf16Be => "UTF-16BE",
            EncKind::Utf16Le => "UTF-16LE",
            EncKind::Utf32Be => "UTF-32BE",
            EncKind::Utf32Le => "UTF-32LE",
            EncKind::Iso8859(n) => match n {
                1 => "ISO-8859-1",
                2 => "ISO-8859-2",
                3 => "ISO-8859-3",
                4 => "ISO-8859-4",
                5 => "ISO-8859-5",
                6 => "ISO-8859-6",
                7 => "ISO-8859-7",
                8 => "ISO-8859-8",
                9 => "ISO-8859-9",
                10 => "ISO-8859-10",
                11 => "ISO-8859-11",
                13 => "ISO-8859-13",
                14 => "ISO-8859-14",
                15 => "ISO-8859-15",
                16 => "ISO-8859-16",
                _ => "ISO-8859",
            },
            EncKind::Koi8R => "KOI8-R",
            EncKind::Cp1251 => "CP1251",
            EncKind::EucJp => "EUC-JP",
            EncKind::EucTw => "EUC-TW",
            EncKind::EucKr => "EUC-KR",
            EncKind::EucCn => "EUC-CN",
            EncKind::Sjis => "Shift_JIS",
            EncKind::Big5 => "Big5",
            EncKind::Gb18030 => "GB18030",
        }
    }

    /// Is this one of the Unicode transformation formats?
    pub fn is_unicode(self) -> (r: bool)
        ensures
            r == spec_is_unicode(self@),
    {
        match self.kind {
            EncKind::Utf8 | EncKind::Utf16Be | EncKind::Utf16Le | EncKind::Utf32Be
            | EncKind::Utf32Le => true,
            _ => false,
        }
    }

    /// True when a byte below 0x80 is always a whole character equal to its
    /// own codepoint, so a decode can be skipped entirely.
    pub(crate) fn ascii_transparent(self) -> (r: bool)
        ensures
            r == (self@ is Ascii || self@ is Utf8),
    {
        match self.kind {
            EncKind::Ascii | EncKind::Utf8 => true,
            _ => false,
        }
    }

    /// The fewest bytes a character takes.
    pub fn min_len(self) -> (r: usize)
        ensures
            r == spec_min_len(self@),
    {
        match self.kind {
            EncKind::Utf16Be | EncKind::Utf16Le => 2,
            EncKind::Utf32Be | EncKind::Utf32Le => 4,
            _ => 1,
        }
    }

    /// Can a byte scan land anywhere and still know where characters begin?
    ///
    /// True for the single-byte encodings (every offset is a boundary) and for
    /// UTF-8, whose continuation bytes are all >= 0x80 and so can never be
    /// mistaken for an ASCII byte a prefilter is hunting.
    ///
    /// False for the CJK encodings, where trail bytes overlap ASCII: in Big5
    /// the two bytes `AD 61` are one character, so a scan for `a` finds the
    /// 0x61 and would report a match inside a character. Prefilters must stay
    /// off unless this holds.
    pub fn self_sync(self) -> (r: bool)
        ensures
            r == spec_self_sync(self@),
    {
        self.max_len() == 1 || match self.kind {
            EncKind::Utf8 => true,
            _ => false,
        }
    }

    /// The most bytes a character takes, as Oniguruma declares it.
    pub fn max_len(self) -> (r: usize)
        ensures
            r == spec_max_len(self@),
    {
        match self.kind {
            EncKind::Utf8 => 4,
            EncKind::Utf16Be | EncKind::Utf16Le => 4,
            EncKind::Utf32Be | EncKind::Utf32Le => 4,
            EncKind::EucJp => 3,
            EncKind::EucTw => 4,
            EncKind::Gb18030 => 4,
            EncKind::Sjis | EncKind::Big5 | EncKind::EucKr | EncKind::EucCn => 2,
            _ => 1,
        }
    }

    /// Byte length of the character starting at `p[0]`.
    pub fn mbc_len(self, p: &[u8]) -> (r: Result<usize, Error>)
        ensures
            r == spec_mbc_len(self@, p@),
    {
        if p.len() == 0 {
            return Err(Error::EmptyMbc);
        }
        let n = match self.kind {
            EncKind::Ascii | EncKind::Iso8859(_) | EncKind::Koi8R | EncKind::Cp1251 => 1,
            EncKind::Utf8 => utf8_len(p[0]),
            EncKind::Utf16Be => match utf16_len(true, p) {
                Ok(n) => n,
                Err(e) => return Err(e),
            },
            EncKind::Utf16Le => match utf16_len(false, p) {
                Ok(n) => n,
                Err(e) => return Err(e),
            },
            EncKind::Utf32Be | EncKind::Utf32Le => {
                if p.len() < 4 {
                    return Err(Error::TruncatedUtf32);
                }
                4
            },
            EncKind::Sjis => table_len(LenTable::Sjis, p),
            EncKind::Big5 => table_len(LenTable::Big5, p),
            EncKind::Gb18030 => match gb18030_len(p) {
                Ok(n) => n,
                Err(e) => return Err(e),
            },
            EncKind::EucJp => table_len(LenTable::EucJp, p),
            EncKind::EucTw => table_len(LenTable::EucTw, p),
            EncKind::EucKr => table_len(LenTable::EucKr, p),
            EncKind::EucCn => table_len(LenTable::EucCn, p),
        };
        if n > p.len() {
            return Err(Error::TruncatedCharacter);
        }
        Ok(n)
    }

    /// The code of the character at the front of `p`.
    pub fn mbc_to_code(self, p: &[u8]) -> (r: Result<u32, Error>)
        ensures
            r == spec_mbc_to_code(self@, p@),
    {
        let n = match self.mbc_len(p) {
            Ok(n) => n,
            Err(e) => return Err(e),
        };
        proof {
            lemma_mbc_len_bounds(self@, p@);
        }
        Ok(self.decode_len(p, n))
    }

    /// The code of the `n`-byte character at the front of `p`; only `p[..n]`
    /// is read.
    pub(crate) fn decode_len(self, p: &[u8], n: usize) -> (c: u32)
        requires
            1 <= n <= p@.len(),
            n >= spec_min_len(self@),
        ensures
            c == spec_decode(self@, p@.take(n as int)),
    {
        let b = &p[0..n];
        assert(b@ =~= p@.take(n as int));
        match self.kind {
            EncKind::Ascii => b[0] as u32,
            EncKind::Utf8 => match utf8_to_code(b) {
                Ok(c) => c,
                Err(_) => INVALID_CODE_BASE,
            },
            EncKind::Utf16Be => utf16_to_code(b, true),
            EncKind::Utf16Le => utf16_to_code(b, false),
            EncKind::Utf32Be => utf32_to_code(b, true),
            EncKind::Utf32Le => utf32_to_code(b, false),
            EncKind::Iso8859(_) | EncKind::Koi8R | EncKind::Cp1251 => b[0] as u32,
            EncKind::Sjis => sjis_to_unicode(b),
            EncKind::Big5 => big5_to_unicode(b),
            EncKind::Gb18030 => gb18030_to_unicode(b),
            EncKind::EucJp => eucjp_to_unicode(b),
            EncKind::EucCn => gb18030_to_unicode(b),
            EncKind::EucTw | EncKind::EucKr => pack_mbc(b),
        }
    }

    /// How many bytes this code occupies in this encoding.
    ///
    /// Oniguruma's `ONIGENC_CODE_TO_MBCLEN`, which its ctype rules for the
    /// multi-byte encodings are written in terms of. Codes here are
    /// transcoded to Unicode, so the faithful way to ask is to encode one
    /// back. Undecodable codes count as one byte, matching the length tables.
    pub fn code_mbc_len(self, code: u32) -> (n: usize)
        ensures
            n == spec_code_mbc_len(self@, code),
            1 <= n <= 4,
    {
        let mut buf = [0u8; 8];
        match self.code_to_mbc(code, &mut buf) {
            Ok(n) => n,
            Err(_) => 1,
        }
    }

    /// Write `code` at the front of `out`; the number of bytes written.
    pub fn code_to_mbc(self, code: u32, out: &mut [u8]) -> (r: Result<usize, Error>)
        ensures
            r == (match spec_code_to_mbc(self@, code, old(out)@.len()) {
                Ok(b) => Ok(b.len() as usize),
                Err(e) => Err(e),
            }),
            match spec_code_to_mbc(self@, code, old(out)@.len()) {
                Ok(b) => final(out)@ == overwrite(old(out)@, b),
                Err(_) => final(out)@ == old(out)@,
            },
            r matches Ok(n) ==> 1 <= n <= 4 && n <= old(out)@.len(),
    {
        proof {
            lemma_encode_len(self@, code);
        }
        match self.kind {
            EncKind::Utf8 => code_to_utf8(code, out),
            EncKind::Ascii | EncKind::Iso8859(_) | EncKind::Koi8R | EncKind::Cp1251 => {
                if code > 0xff || out.len() == 0 {
                    return Err(Error::CodeOutOfRange);
                }
                out[0] = code as u8;
                assert(final(out)@ =~= overwrite(old(out)@, seq![code as u8]));
                Ok(1)
            },
            EncKind::Utf32Be => code_to_utf32(code, out, true),
            EncKind::Utf32Le => code_to_utf32(code, out, false),
            EncKind::Utf16Be => code_to_utf16(code, out, true),
            EncKind::Utf16Le => code_to_utf16(code, out, false),
            EncKind::Sjis => unicode_to_sjis(code, out),
            EncKind::Big5 => unicode_to_big5(code, out),
            EncKind::Gb18030 => unicode_to_gb18030(code, out),
            EncKind::EucJp => unicode_to_eucjp(code, out),
            EncKind::EucCn => unicode_to_euccn(code, out),
            EncKind::EucTw | EncKind::EucKr => unpack_mbc(code, out),
        }
    }

    /// Does `p` start with this encoding's newline?
    pub fn is_newline(self, p: &[u8]) -> (r: bool)
        ensures
            r == spec_is_newline(self@, p@),
    {
        if p.len() == 0 {
            return false;
        }
        match self.kind {
            EncKind::Utf16Be => p.len() >= 2 && p[0] == 0 && p[1] == 0x0a,
            EncKind::Utf16Le => p.len() >= 2 && p[0] == 0x0a && p[1] == 0,
            EncKind::Utf32Be => p.len() >= 4 && p[0] == 0 && p[1] == 0 && p[2] == 0 && p[3]
                == 0x0a,
            EncKind::Utf32Le => p.len() >= 4 && p[0] == 0x0a && p[1] == 0 && p[2] == 0 && p[3]
                == 0,
            _ => p[0] == 0x0a,
        }
    }

    /// Case-fold one character; writes the folded bytes, returns their length.
    pub fn case_fold(self, ascii_only: bool, p: &[u8], to: &mut [u8]) -> (r: Result<usize, Error>)
        ensures
            r == (match spec_case_fold(self@, ascii_only, p@, old(to)@.len()) {
                Ok(b) => Ok(b.len() as usize),
                Err(e) => Err(e),
            }),
            match spec_case_fold(self@, ascii_only, p@, old(to)@.len()) {
                Ok(b) => final(to)@ == overwrite(old(to)@, b),
                Err(_) => final(to)@ == old(to)@,
            },
    {
        let n = match self.mbc_len(p) {
            Ok(n) => n,
            Err(e) => return Err(e),
        };
        proof {
            lemma_mbc_len_bounds(self@, p@);
        }
        let code = self.decode_len(p, n);
        if code >= INVALID_CODE_BASE && match self.kind {
            EncKind::Utf8 => true,
            _ => false,
        } {
            let ch = &p[0..n];
            assert(ch@ =~= p@.take(n as int));
            return put_bytes(ch, to);
        }
        let folded = if ascii_only || !self.is_unicode() {
            if code < 0x80 {
                fold_ascii(code)
            } else {
                code
            }
        } else {
            fold_unicode(code)
        };
        self.code_to_mbc(folded, to)
    }

    /// Left-adjust `pos` to a character boundary in `hay[start..]`.
    pub fn left_adjust(self, hay: &[u8], start: usize, pos: usize) -> (r: usize)
        ensures
            r == spec_left_adjust(self@, hay@, start as int, pos as int),
    {
        if pos <= start || pos > hay.len() {
            return if pos < hay.len() {
                pos
            } else {
                hay.len()
            };
        }
        match self.kind {
            EncKind::Utf8 => {
                if pos == hay.len() {
                    return pos;
                }
                let mut i = pos;
                while i > start && hay[i] & 0xc0 == 0x80
                    invariant
                        start <= i <= pos < hay@.len(),
                        utf8_back_to_head(hay@, start as int, i as int) == utf8_back_to_head(
                            hay@,
                            start as int,
                            pos as int,
                        ),
                    decreases i,
                {
                    let b = hay[i];
                    assert(b & 0xc0 == 0x80 <==> 0x80 <= b <= 0xbf) by (bit_vector);
                    i -= 1;
                }
                let b = hay[i];
                assert(b & 0xc0 == 0x80 <==> 0x80 <= b <= 0xbf) by (bit_vector);
                i
            },
            EncKind::Utf16Be | EncKind::Utf16Le => {
                let be = match self.kind {
                    EncKind::Utf16Be => true,
                    _ => false,
                };
                let d = pos - start;
                let r = start + (d - d % 2);
                if r - start >= 2 && r < hay.len() - 1 {
                    let w = read_unit(hay, r, be);
                    let w0 = read_unit(hay, r - 2, be);
                    if 0xdc00 <= w && w <= 0xdfff && 0xd800 <= w0 && w0 <= 0xdbff {
                        return r - 2;
                    }
                }
                r
            },
            EncKind::Utf32Be | EncKind::Utf32Le => {
                let d = pos - start;
                start + (d - d % 4)
            },
            _ => {
                let mut i = start;
                let mut last = start;
                while i < pos
                    invariant
                        start < pos <= hay@.len(),
                        i <= hay@.len(),
                        spec_left_adjust(self@, hay@, start as int, pos as int) == walk_to_head(
                            self@,
                            hay@,
                            pos as int,
                            start as int,
                        ),
                        start <= last <= i,
                        last <= pos,
                        i <= pos ==> walk_to_head(self@, hay@, pos as int, start as int)
                            == walk_to_head(self@, hay@, pos as int, i as int),
                        i > pos ==> walk_to_head(self@, hay@, pos as int, start as int)
                            == last,
                    decreases hay@.len() - i,
                {
                    last = i;
                    let rest = &hay[i..hay.len()];
                    assert(rest@ =~= hay@.skip(i as int));
                    proof {
                        lemma_mbc_len_bounds(self@, rest@);
                    }
                    match self.mbc_len(rest) {
                        Ok(n) if n > 0 => i += n,
                        _ => return pos,
                    }
                }
                if i == pos {
                    pos
                } else {
                    last
                }
            },
        }
    }

    /// The head of the character before `pos`, when it is at or after `start`.
    pub fn prev_char_start(self, hay: &[u8], start: usize, pos: usize) -> (r: Option<usize>)
        ensures
            r == spec_prev_char_start(self@, hay@, start as int, pos as int),
    {
        if pos <= start {
            return None;
        }
        let adj = self.left_adjust(hay, start, pos - 1);
        if adj < pos {
            Some(adj)
        } else {
            None
        }
    }
}

pub fn fold_ascii(code: u32) -> (r: u32)
    ensures
        r == spec_fold_ascii(code),
{
    if 0x41 <= code && code <= 0x5a {
        code + 32
    } else {
        code
    }
}

pub fn fold_unicode(code: u32) -> (r: u32)
    ensures
        r == spec_fold_unicode(code),
{
    match char_from_u32(code) {
        Some(c) => {
            proof {
                vstd::utf8::char_u32_cast(c, code);
            }
            match to_lowercase_first(c) {
                Some(x) => x as u32,
                None => code,
            }
        },
        None => code,
    }
}

} // verus!
