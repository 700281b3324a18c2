//! The Unicode transformation formats: UTF-8, UTF-16 and UTF-32 characters
//! read from bytes and written to bytes.

use vstd::prelude::*;
use vstd::utf8::*;

use crate::error::Error;
use crate::lead::utf8_lead_len;

verus! {

/// Undecodable UTF-8 reads as a code above every real codepoint (Oniguruma's
/// invalid-code scheme): the character still has a width and matches `.`, but
/// no character class can match it.
pub const INVALID_CODE_BASE: u32 = 0x8000_0000;

/// The code of the UTF-8 character `b`: when the bytes are well-formed UTF-8,
/// the scalar they begin with; else the lead byte lifted above the valid
/// range.
pub open spec fn spec_utf8_code(b: Seq<u8>) -> u32
    recommends
        b.len() > 0,
{
    if valid_utf8(b) {
        decode_first_scalar(b)
    } else {
        (INVALID_CODE_BASE + b[0]) as u32
    }
}

/// The length and scalar of the well-formed UTF-8 scalar at `b[i..]`, if one
/// starts there.
pub fn first_scalar(b: &[u8], i: usize) -> (r: Option<(usize, u32)>)
    requires
        i <= b@.len(),
    ensures
        r is Some <==> valid_first_scalar(b@.skip(i as int)),
        r matches Some((n, c)) ==> n == length_of_first_scalar(b@.skip(i as int)) && c
            == decode_first_scalar(b@.skip(i as int)),
{
    let ghost s = b@.skip(i as int);
    if i >= b.len() {
        return None;
    }
    let b0 = b[i];
    if b0 < 0x80 {
        assert(b0 < 0x80 ==> (b0 & 0x7F) == b0) by (bit_vector);
        return Some((1, b0 as u32));
    }
    if 0xc0 <= b0 && b0 <= 0xdf {
        if b.len() - i < 2 {
            return None;
        }
        let b1 = b[i + 1];
        if !(0x80 <= b1 && b1 <= 0xbf) {
            return None;
        }
        let cp: u32 = (((b0 & 0x1F) as u32) << 6) | ((b1 & 0x3f) as u32);
        assert((((b0 & 0x1F) as u32) << 6) | ((b1 & 0x3f) as u32) <= 0x7ff) by (bit_vector);
        assert(s[0] == b0 && s[1] == b1);
        if cp < 0x80 {
            None
        } else {
            Some((2, cp))
        }
    } else if 0xe0 <= b0 && b0 <= 0xef {
        if b.len() - i < 3 {
            return None;
        }
        let b1 = b[i + 1];
        let b2 = b[i + 2];
        if !(0x80 <= b1 && b1 <= 0xbf && 0x80 <= b2 && b2 <= 0xbf) {
            return None;
        }
        let cp: u32 = (((b0 & 0x0F) as u32) << 12) | (((b1 & 0x3f) as u32) << 6) | ((b2
            & 0x3f) as u32);
        assert((((b0 & 0x0F) as u32) << 12) | (((b1 & 0x3f) as u32) << 6) | ((b2 & 0x3f) as u32)
            <= 0xffff) by (bit_vector);
        assert(s[0] == b0 && s[1] == b1 && s[2] == b2);
        if cp < 0x800 || (0xD800 <= cp && cp <= 0xDFFF) {
            None
        } else {
            Some((3, cp))
        }
    } else if 0xf0 <= b0 && b0 <= 0xf7 {
        if b.len() - i < 4 {
            return None;
        }
        let b1 = b[i + 1];
        let b2 = b[i + 2];
        let b3 = b[i + 3];
        if !(0x80 <= b1 && b1 <= 0xbf && 0x80 <= b2 && b2 <= 0xbf && 0x80 <= b3 && b3 <= 0xbf) {
            return None;
        }
        let cp: u32 = (((b0 & 0x07) as u32) << 18) | (((b1 & 0x3f) as u32) << 12) | (((b2
            & 0x3f) as u32) << 6) | ((b3 & 0x3f) as u32);
        assert(s[0] == b0 && s[1] == b1 && s[2] == b2 && s[3] == b3);
        if cp < 0x10000 || cp > 0x10ffff || (0xD800 <= cp && cp <= 0xDFFF) {
            None
        } else {
            Some((4, cp))
        }
    } else {
        None
    }
}

/// Is the whole of `b` well-formed UTF-8?
pub fn is_valid_utf8(b: &[u8]) -> (r: bool)
    ensures
        r == valid_utf8(b@),
{
    let mut i: usize = 0;
    assert(b@.subrange(0, 0) =~= Seq::<u8>::empty());
    while i < b.len()
        invariant
            i <= b@.len(),
            partial_valid_utf8(b@, i as int),
        decreases b@.len() - i,
    {
        assert(b@.skip(i as int) =~= b@.subrange(i as int, b@.len() as int));
        match first_scalar(b, i) {
            Some((n, _)) => {
                proof {
                    partial_valid_utf8_extend(b@, i as int);
                }
                i = i + n;
            },
            None => {
                proof {
                    let rest = b@.subrange(i as int, b@.len() as int);
                    assert(!valid_utf8(rest));
                    partial_valid_partial_invalid_utf8(b@, i as int);
                }
                return false;
            },
        }
    }
    assert(b@.subrange(0, b@.len() as int) =~= b@);
    true
}

/// The code of the UTF-8 character `b`, Oniguruma's way: undecodable bytes
/// are not refused, they read as a code above every real codepoint.
pub fn utf8_to_code(b: &[u8]) -> (r: Result<u32, Error>)
    ensures
        b@.len() == 0 ==> r == Err::<u32, Error>(Error::EmptyUtf8),
        b@.len() > 0 ==> r == Ok::<u32, Error>(spec_utf8_code(b@)),
{
    if b.len() == 0 {
        return Err(Error::EmptyUtf8);
    }
    let b0 = b[0];
    if b.len() == 1 && b0 < 0x80 {
        proof {
            assert(b@.skip(0) =~= b@);
            assert(pop_first_scalar(b@) =~= Seq::<u8>::empty());
            reveal_with_fuel(valid_utf8, 2);
            assert(b0 < 0x80 ==> (b0 & 0x7F) == b0) by (bit_vector);
        }
        return Ok(b0 as u32);
    }
    if is_valid_utf8(b) {
        assert(b@.skip(0) =~= b@);
        match first_scalar(b, 0) {
            Some((_, c)) => Ok(c),
            None => Ok(INVALID_CODE_BASE + b0 as u32),
        }
    } else {
        Ok(INVALID_CODE_BASE + b0 as u32)
    }
}

/// `bytes` written at the front of a buffer that held `old`.
pub open spec fn overwrite(old: Seq<u8>, bytes: Seq<u8>) -> Seq<u8> {
    bytes + old.skip(bytes.len() as int)
}

/// Write the UTF-8 encoding of `code` at the front of `out`; the number of
/// bytes written.
pub fn code_to_utf8(code: u32, out: &mut [u8]) -> (r: Result<usize, Error>)
    ensures
        !is_scalar(code) ==> r == Err::<usize, Error>(Error::InvalidCodePoint),
        is_scalar(code) && old(out)@.len() < encode_scalar(code).len() ==> r == Err::<usize, Error>(
            Error::ShortBuffer,
        ),
        is_scalar(code) && old(out)@.len() >= encode_scalar(code).len() ==> r == Ok::<usize, Error>(
            encode_scalar(code).len() as usize,
        ),
        r is Ok ==> final(out)@ == overwrite(old(out)@, encode_scalar(code)),
        r is Err ==> final(out)@ == old(out)@,
{
    if code > 0x10ffff || (0xD800 <= code && code <= 0xDFFF) {
        return Err(Error::InvalidCodePoint);
    }
    let ghost enc = encode_scalar(code);
    if code <= 0x7f {
        if out.len() < 1 {
            return Err(Error::ShortBuffer);
        }
        out[0] = (code & 0x7F) as u8;
        assert(final(out)@ =~= overwrite(old(out)@, enc));
        Ok(1)
    } else if code <= 0x7ff {
        if out.len() < 2 {
            return Err(Error::ShortBuffer);
        }
        out[0] = 0xC0 | ((code >> 6) & 0x1F) as u8;
        out[1] = 0x80 | (code & 0x3F) as u8;
        assert(final(out)@ =~= overwrite(old(out)@, enc));
        Ok(2)
    } else if code <= 0xffff {
        if out.len() < 3 {
            return Err(Error::ShortBuffer);
        }
        out[0] = 0xE0 | ((code >> 12) & 0x0F) as u8;
        out[1] = 0x80 | ((code >> 6) & 0x3F) as u8;
        out[2] = 0x80 | (code & 0x3F) as u8;
        assert(final(out)@ =~= overwrite(old(out)@, enc));
        Ok(3)
    } else {
        if out.len() < 4 {
            return Err(Error::ShortBuffer);
        }
        out[0] = 0xF0 | ((code >> 18) & 0x7) as u8;
        out[1] = 0x80 | ((code >> 12) & 0x3F) as u8;
        out[2] = 0x80 | ((code >> 6) & 0x3F) as u8;
        out[3] = 0x80 | (code & 0x3F) as u8;
        assert(final(out)@ =~= overwrite(old(out)@, enc));
        Ok(4)
    }
}

proof fn lemma_utf8_width_2(c: u32)
    requires
        0x80 <= c <= 0x7ff,
    ensures
        ({
            let b1 = 0xC0 | ((c >> 6) & 0x1F) as u8;
            let b2 = 0x80 | (c & 0x3F) as u8;
            &&& 0xc0 <= b1 <= 0xdf
            &&& 0x80 <= b2 <= 0xbf
            &&& ((((b1 & 0x1F) as u32) << 6) | ((b2 & 0x3f) as u32)) == c
        }),
{
    assert({
        let b1 = 0xC0 | ((c >> 6) & 0x1F) as u8;
        let b2 = 0x80 | (c & 0x3F) as u8;
        &&& 0xc0 <= b1 <= 0xdf
        &&& 0x80 <= b2 <= 0xbf
        &&& ((((b1 & 0x1F) as u32) << 6) | ((b2 & 0x3f) as u32)) == c
    }) by (bit_vector)
        requires
            0x80 <= c <= 0x7ff,
    ;
}

proof fn lemma_utf8_width_3(c: u32)
    requires
        0x800 <= c <= 0xffff,
    ensures
        ({
            let b1 = 0xE0 | ((c >> 12) & 0x0F) as u8;
            let b2 = 0x80 | ((c >> 6) & 0x3F) as u8;
            let b3 = 0x80 | (c & 0x3F) as u8;
            &&& 0xe0 <= b1 <= 0xef
            &&& 0x80 <= b2 <= 0xbf
            &&& 0x80 <= b3 <= 0xbf
            &&& ((((b1 & 0x0F) as u32) << 12) | (((b2 & 0x3f) as u32) << 6) | ((b3
                & 0x3f) as u32)) == c
        }),
{
    assert({
        let b1 = 0xE0 | ((c >> 12) & 0x0F) as u8;
        let b2 = 0x80 | ((c >> 6) & 0x3F) as u8;
        let b3 = 0x80 | (c & 0x3F) as u8;
        &&& 0xe0 <= b1 <= 0xef
        &&& 0x80 <= b2 <= 0xbf
        &&& 0x80 <= b3 <= 0xbf
        &&& ((((b1 & 0x0F) as u32) << 12) | (((b2 & 0x3f) as u32) << 6) | ((b3 & 0x3f) as u32))
            == c
    }) by (bit_vector)
        requires
            0x800 <= c <= 0xffff,
    ;
}

proof fn lemma_utf8_width_4(c: u32)
    requires
        0x10000 <= c <= 0x10ffff,
    ensures
        ({
            let b1 = 0xF0 | ((c >> 18) & 0x7) as u8;
            let b2 = 0x80 | ((c >> 12) & 0x3F) as u8;
            let b3 = 0x80 | ((c >> 6) & 0x3F) as u8;
            let b4 = 0x80 | (c & 0x3F) as u8;
            &&& 0xf0 <= b1 <= 0xf4
            &&& 0x80 <= b2 <= 0xbf
            &&& 0x80 <= b3 <= 0xbf
            &&& 0x80 <= b4 <= 0xbf
            &&& ((((b1 & 0x07) as u32) << 18) | (((b2 & 0x3f) as u32) << 12) | (((b3
                & 0x3f) as u32) << 6) | ((b4 & 0x3f) as u32)) == c
        }),
{
    assert({
        let b1 = 0xF0 | ((c >> 18) & 0x7) as u8;
        let b2 = 0x80 | ((c >> 12) & 0x3F) as u8;
        let b3 = 0x80 | ((c >> 6) & 0x3F) as u8;
        let b4 = 0x80 | (c & 0x3F) as u8;
        &&& 0xf0 <= b1 <= 0xf4
        &&& 0x80 <= b2 <= 0xbf
        &&& 0x80 <= b3 <= 0xbf
        &&& 0x80 <= b4 <= 0xbf
        &&& ((((b1 & 0x07) as u32) << 18) | (((b2 & 0x3f) as u32) << 12) | (((b3 & 0x3f) as u32)
            << 6) | ((b4 & 0x3f) as u32)) == c
    }) by (bit_vector)
        requires
            0x10000 <= c <= 0x10ffff,
    ;
}

/// The UTF-8 encoding of a scalar is one character by the lead-byte table,
/// and reads back as that scalar.
pub proof fn lemma_utf8_encode_decode(c: u32)
    requires
        is_scalar(c),
    ensures
        encode_scalar(c).len() > 0,
        utf8_lead_len(encode_scalar(c)[0]) == encode_scalar(c).len(),
        spec_utf8_code(encode_scalar(c)) == c,
        valid_utf8(encode_scalar(c)),
        valid_first_scalar(encode_scalar(c)),
        length_of_first_scalar(encode_scalar(c)) == encode_scalar(c).len(),
{
    let e = encode_scalar(c);
    reveal_with_fuel(valid_utf8, 2);
    if c <= 0x7f {
        assert(c <= 0x7f ==> ((c & 0x7F) as u8) <= 0x7f && ((((c & 0x7F) as u8) & 0x7F) as u32)
            == c) by (bit_vector);
    } else if c <= 0x7ff {
        lemma_utf8_width_2(c);
    } else if c <= 0xffff {
        lemma_utf8_width_3(c);
    } else {
        lemma_utf8_width_4(c);
    }
    assert(pop_first_scalar(e) =~= Seq::<u8>::empty());
}

/// The 16-bit unit at byte offset `i`, big- or little-endian.
pub open spec fn unit16(b: Seq<u8>, i: int, be: bool) -> int {
    if be {
        b[i] * 256 + b[i + 1]
    } else {
        b[i + 1] * 256 + b[i]
    }
}

pub open spec fn is_high_surrogate(w: int) -> bool {
    0xd800 <= w <= 0xdbff
}

pub open spec fn is_low_surrogate(w: int) -> bool {
    0xdc00 <= w <= 0xdfff
}

/// Length of the UTF-16 character at the front of `p`: two bytes, or four
/// after a high surrogate.
pub open spec fn spec_utf16_len(be: bool, p: Seq<u8>) -> Result<usize, Error> {
    if p.len() < 2 {
        Err(Error::TruncatedUtf16)
    } else if is_high_surrogate(unit16(p, 0, be)) {
        if p.len() < 4 {
            Err(Error::TruncatedSurrogatePair)
        } else {
            Ok(4)
        }
    } else {
        Ok(2)
    }
}

/// The code of a UTF-16 character: a surrogate pair combines, any other unit
/// (a lone surrogate included) stands for itself.
pub open spec fn spec_utf16_code(b: Seq<u8>, be: bool) -> u32
    recommends
        b.len() >= 2,
{
    let w = unit16(b, 0, be);
    if is_high_surrogate(w) && b.len() >= 4 && is_low_surrogate(unit16(b, 2, be)) {
        (0x10000 + (w - 0xd800) * 1024 + (unit16(b, 2, be) - 0xdc00)) as u32
    } else {
        w as u32
    }
}

pub(crate) fn read_unit(b: &[u8], i: usize, be: bool) -> (w: u32)
    requires
        i + 1 < b.len(),
    ensures
        w == unit16(b@, i as int, be),
{
    if be {
        (b[i] as u32) * 256 + (b[i + 1] as u32)
    } else {
        (b[i + 1] as u32) * 256 + (b[i] as u32)
    }
}

/// Length of the UTF-16 character at the front of `p`.
pub fn utf16_len(be: bool, p: &[u8]) -> (r: Result<usize, Error>)
    ensures
        r == spec_utf16_len(be, p@),
{
    if p.len() < 2 {
        return Err(Error::TruncatedUtf16);
    }
    let w = read_unit(p, 0, be);
    if 0xd800 <= w && w <= 0xdbff {
        if p.len() < 4 {
            return Err(Error::TruncatedSurrogatePair);
        }
        Ok(4)
    } else {
        Ok(2)
    }
}

/// Decode one UTF-16 character.
pub fn utf16_to_code(b: &[u8], be: bool) -> (c: u32)
    requires
        b@.len() >= 2,
    ensures
        c == spec_utf16_code(b@, be),
{
    let w = read_unit(b, 0, be);
    if 0xd800 <= w && w <= 0xdbff && b.len() >= 4 {
        let w2 = read_unit(b, 2, be);
        if 0xdc00 <= w2 && w2 <= 0xdfff {
            let hi = w - 0xd800;
            let lo = w2 - 0xdc00;
            return 0x10000 + hi * 1024 + lo;
        }
    }
    w
}

/// The two bytes of a 16-bit unit.
pub open spec fn unit_bytes(w: u16, be: bool) -> Seq<u8> {
    if be {
        seq![(w / 256) as u8, (w % 256) as u8]
    } else {
        seq![(w % 256) as u8, (w / 256) as u8]
    }
}

/// The leading surrogate for a code at or above `0x10000`, truncated to 16
/// bits as the unit is stored.
pub open spec fn high_unit(code: u32) -> u16 {
    (0xd800 + (code - 0x10000) / 1024) as u16
}

pub open spec fn low_unit(code: u32) -> u16 {
    (0xdc00 + (code - 0x10000) % 1024) as u16
}

/// What `code_to_utf16` writes: one unit below `0x10000`, else a surrogate
/// pair. Codes are not checked: a surrogate code is written as itself.
pub open spec fn spec_utf16_bytes(code: u32, be: bool) -> Seq<u8> {
    if code < 0x10000 {
        unit_bytes(code as u16, be)
    } else {
        unit_bytes(high_unit(code), be) + unit_bytes(low_unit(code), be)
    }
}

fn put_unit(out: &mut [u8], i: usize, w: u16, be: bool)
    requires
        i + 1 < old(out).len(),
    ensures
        final(out)@ == old(out)@.update(i as int, unit_bytes(w, be)[0]).update(
            i + 1,
            unit_bytes(w, be)[1],
        ),
{
    if be {
        out[i] = (w / 256) as u8;
        out[i + 1] = (w % 256) as u8;
    } else {
        out[i] = (w % 256) as u8;
        out[i + 1] = (w / 256) as u8;
    }
}

/// Write `code` in UTF-16 at the front of `out`; the number of bytes written.
pub fn code_to_utf16(code: u32, out: &mut [u8], be: bool) -> (r: Result<usize, Error>)
    ensures
        old(out)@.len() < spec_utf16_bytes(code, be).len() ==> r == Err::<usize, Error>(
            Error::ShortBuffer,
        ),
        old(out)@.len() >= spec_utf16_bytes(code, be).len() ==> r == Ok::<usize, Error>(
            spec_utf16_bytes(code, be).len() as usize,
        ),
        r is Ok ==> final(out)@ == overwrite(old(out)@, spec_utf16_bytes(code, be)),
        r is Err ==> final(out)@ == old(out)@,
{
    if code < 0x10000 {
        if out.len() < 2 {
            return Err(Error::ShortBuffer);
        }
        put_unit(out, 0, code as u16, be);
        assert(final(out)@ =~= overwrite(old(out)@, spec_utf16_bytes(code, be)));
        Ok(2)
    } else {
        if out.len() < 4 {
            return Err(Error::ShortBuffer);
        }
        let v = code - 0x10000;
        put_unit(out, 0, (0xd800 + v / 1024) as u16, be);
        put_unit(out, 2, (0xdc00 + v % 1024) as u16, be);
        assert(final(out)@ =~= overwrite(old(out)@, spec_utf16_bytes(code, be)));
        Ok(4)
    }
}

/// The UTF-16 encoding of a scalar reads back as one character of the same
/// code.
pub proof fn lemma_utf16_encode_decode(c: u32, be: bool)
    requires
        is_scalar(c),
    ensures
        spec_utf16_len(be, spec_utf16_bytes(c, be)) == Ok::<usize, Error>(
            spec_utf16_bytes(c, be).len() as usize,
        ),
        spec_utf16_code(spec_utf16_bytes(c, be), be) == c,
{
    let e = spec_utf16_bytes(c, be);
    if c < 0x10000 {
        let w = c as u16;
        assert(unit16(e, 0, be) == w);
    } else {
        let v = c - 0x10000;
        assert(0 <= v / 1024 <= 0x3ff);
        assert(high_unit(c) == 0xd800 + v / 1024);
        assert(low_unit(c) == 0xdc00 + v % 1024);
        assert(unit16(e, 0, be) == high_unit(c));
        assert(unit16(e, 2, be) == low_unit(c));
        assert(v == (v / 1024) * 1024 + v % 1024);
    }
}

/// The code of a four-byte UTF-32 character; any 32-bit value is accepted.
pub open spec fn spec_utf32_code(b: Seq<u8>, be: bool) -> u32
    recommends
        b.len() >= 4,
{
    if be {
        ((b[0] as u32) << 24) | ((b[1] as u32) << 16) | ((b[2] as u32) << 8) | (b[3] as u32)
    } else {
        ((b[3] as u32) << 24) | ((b[2] as u32) << 16) | ((b[1] as u32) << 8) | (b[0] as u32)
    }
}

/// The four bytes of `code` in UTF-32.
pub open spec fn spec_utf32_bytes(code: u32, be: bool) -> Seq<u8> {
    if be {
        seq![(code >> 24) as u8, (code >> 16) as u8, (code >> 8) as u8, code as u8]
    } else {
        seq![code as u8, (code >> 8) as u8, (code >> 16) as u8, (code >> 24) as u8]
    }
}

/// Decode one UTF-32 character.
pub fn utf32_to_code(b: &[u8], be: bool) -> (c: u32)
    requires
        b@.len() >= 4,
    ensures
        c == spec_utf32_code(b@, be),
{
    if be {
        ((b[0] as u32) << 24) | ((b[1] as u32) << 16) | ((b[2] as u32) << 8) | (b[3] as u32)
    } else {
        ((b[3] as u32) << 24) | ((b[2] as u32) << 16) | ((b[1] as u32) << 8) | (b[0] as u32)
    }
}

/// Write `code` in UTF-32 at the front of `out`; always four bytes.
pub fn code_to_utf32(code: u32, out: &mut [u8], be: bool) -> (r: Result<usize, Error>)
    ensures
        old(out)@.len() < 4 ==> r == Err::<usize, Error>(Error::ShortBuffer),
        old(out)@.len() >= 4 ==> r == Ok::<usize, Error>(4),
        r is Ok ==> final(out)@ == overwrite(old(out)@, spec_utf32_bytes(code, be)),
        r is Err ==> final(out)@ == old(out)@,
{
    if out.len() < 4 {
        return Err(Error::ShortBuffer);
    }
    if be {
        out[0] = (code >> 24) as u8;
        out[1] = (code >> 16) as u8;
        out[2] = (code >> 8) as u8;
        out[3] = code as u8;
    } else {
        out[0] = code as u8;
        out[1] = (code >> 8) as u8;
        out[2] = (code >> 16) as u8;
        out[3] = (code >> 24) as u8;
    }
    assert(final(out)@ =~= overwrite(old(out)@, spec_utf32_bytes(code, be)));
    Ok(4)
}

/// Every 32-bit code survives a UTF-32 write and read.
pub proof fn lemma_utf32_encode_decode(c: u32, be: bool)
    ensures
        spec_utf32_bytes(c, be).len() == 4,
        spec_utf32_code(spec_utf32_bytes(c, be), be) == c,
{
    assert(((((c >> 24) as u8) as u32) << 24) | ((((c >> 16) as u8) as u32) << 16) | ((((c
        >> 8) as u8) as u32) << 8) | ((c as u8) as u32) == c) by (bit_vector);
}

} // verus!
