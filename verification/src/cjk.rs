//! The East Asian multi-byte encodings, transcoded to and from Unicode.
//!
//! The mapping tables themselves are the Encoding Standard's indexes, which
//! the `encoding_rs` crate carries; this module asks it for one character at a
//! time and keeps the rules around the tables: the single-byte ranges, the
//! half-width katakana forms, the GB18030 four-byte shape, and the fallback
//! of an unmapped character to its raw packed bytes.

use vstd::prelude::*;
use vstd::utf8::*;

use crate::error::Error;
use crate::mbc::{pack_mbc, spec_pack, spec_unpack, unpack_mbc};
use crate::utf::{first_scalar, lemma_utf8_encode_decode, overwrite};

verus! {

/// The table-driven encodings whose mappings come from the Encoding
/// Standard's indexes.
#[derive(Clone, Copy, Debug, PartialEq, Eq, Structural)]
pub enum CjkTable {
    ShiftJis,
    Big5,
    EucJp,
    Gb18030,
}

/// What `encoding_rs` decodes `bytes` to in `table`'s encoding, with a
/// malformed sequence fatal (`None`).
pub uninterp spec fn legacy_decoded(table: CjkTable, bytes: Seq<u8>) -> Option<Seq<char>>;

/// What `encoding_rs` encodes the one character `c` to in `table`'s encoding,
/// `None` when the character is unmappable there.
pub uninterp spec fn legacy_encoded(table: CjkTable, c: char) -> Option<Seq<u8>>;

/// Calls `encoding_rs::Encoding::decode_without_bom_handling_and_without_replacement`
/// on the encoding that `table` names. The contract claims only that the
/// result is the named function of the table and the bytes (a borrowed or
/// owned string, taken as an owned one). The byte length is kept small so the
/// crate's buffer-size computation cannot overflow, its one panic.
#[verifier::external_body]
fn decode_legacy(table: CjkTable, bytes: &[u8]) -> (r: Option<String>)
    requires
        bytes@.len() <= 4,
    ensures
        match r {
            Some(s) => legacy_decoded(table, bytes@) == Some(s@),
            None => legacy_decoded(table, bytes@) is None,
        },
{
    let enc = match table {
        CjkTable::ShiftJis => encoding_rs::SHIFT_JIS,
        CjkTable::Big5 => encoding_rs::BIG5,
        CjkTable::EucJp => encoding_rs::EUC_JP,
        CjkTable::Gb18030 => encoding_rs::GB18030,
    };
    match enc.decode_without_bom_handling_and_without_replacement(bytes) {
        Some(s) => Some(s.into_owned()),
        None => None,
    }
}

/// Calls `encoding_rs::Encoding::encode` on the one-character string `c`, in
/// the encoding that `table` names (each is its own output encoding). An
/// unmappable character, which the crate replaces by a numeric character
/// reference and flags, comes back as `None`. The contract claims only that
/// the result is the named function of the table and the character.
#[verifier::external_body]
fn encode_legacy(table: CjkTable, c: char) -> (r: Option<Vec<u8>>)
    ensures
        match r {
            Some(v) => legacy_encoded(table, c) == Some(v@),
            None => legacy_encoded(table, c) is None,
        },
{
    let enc = match table {
        CjkTable::ShiftJis => encoding_rs::SHIFT_JIS,
        CjkTable::Big5 => encoding_rs::BIG5,
        CjkTable::EucJp => encoding_rs::EUC_JP,
        CjkTable::Gb18030 => encoding_rs::GB18030,
    };
    let mut buf = [0u8; 4];
    let (bytes, _, had_errors) = enc.encode(c.encode_utf8(&mut buf));
    if had_errors {
        None
    } else {
        Some(bytes.into_owned())
    }
}

/// Calls `char::from_u32`, which the standard library documents as
/// returning the character for a Unicode scalar value and `None` otherwise.
#[verifier::external_body]
pub(crate) fn char_from_u32(code: u32) -> (r: Option<char>)
    ensures
        r is Some <==> is_scalar(code),
        r matches Some(c) ==> c as u32 == code,
{
    char::from_u32(code)
}

/// The first character of what `char::to_lowercase` yields for `c`.
pub uninterp spec fn lowercase_first(c: char) -> Option<char>;

/// Calls `char::to_lowercase` and takes the first character of the mapping.
/// The standard library documents the mapping as one or more characters, so
/// the result is `Some`; which character it is the contract only names.
#[verifier::external_body]
pub(crate) fn to_lowercase_first(c: char) -> (r: Option<char>)
    ensures
        r == lowercase_first(c),
        r is Some,
{
    c.to_lowercase().next()
}

/// The strings and byte vectors the tables hand back, as values.
pub open spec fn opt_string_view(o: Option<String>) -> Option<Seq<char>> {
    match o {
        Some(s) => Some(s@),
        None => None,
    }
}

pub open spec fn opt_bytes_view(o: Option<Vec<u8>>) -> Option<Seq<u8>> {
    match o {
        Some(v) => Some(v@),
        None => None,
    }
}

/// The code a table gives the raw code `raw`, given what decoding its bytes
/// gave: the decoded character when there is exactly one, else `raw`.
pub open spec fn code_from_decoded(decoded: Option<Seq<char>>, raw: u32) -> u32 {
    match decoded {
        Some(cs) => if cs.len() == 1 {
            cs[0] as u32
        } else {
            raw
        },
        None => raw,
    }
}

/// The bytes an encoding gives `code`: the encoded bytes when they are one to
/// four, else the raw code written back out.
pub open spec fn bytes_from_encoded(encoded: Option<Seq<u8>>, code: u32) -> Seq<u8> {
    match encoded {
        Some(b) => if 1 <= b.len() <= 4 {
            b
        } else {
            spec_unpack(code)
        },
        None => spec_unpack(code),
    }
}

/// The bytes a table gives for `code`, when it is a character the table maps.
pub open spec fn table_bytes(t: CjkTable, code: u32) -> Option<Seq<u8>> {
    if is_scalar(code) {
        legacy_encoded(t, code as char)
    } else {
        None
    }
}

proof fn lemma_encode_utf8_len(chars: Seq<char>)
    ensures
        chars.len() == 0 <==> encode_utf8(chars).len() == 0,
        chars.len() > 0 ==> encode_utf8(chars) == encode_scalar(chars[0] as u32) + encode_utf8(
            chars.drop_first(),
        ),
{
    if chars.len() > 0 {
        char_is_scalar(chars[0]);
        lemma_utf8_encode_decode(chars[0] as u32);
    }
}

/// The code of the one character in `s`, or `None` when it holds a
/// different number of characters.
fn single_char_code(s: &String) -> (r: Option<u32>)
    ensures
        r == (if s@.len() == 1 {
            Some(s@[0] as u32)
        } else {
            None::<u32>
        }),
{
    let b = s.as_str().as_bytes();
    proof {
        lemma_encode_utf8_len(s@);
        assert(b@.skip(0) =~= b@);
    }
    if b.len() == 0 {
        return None;
    }
    let ghost c0 = s@[0] as u32;
    proof {
        char_is_scalar(s@[0]);
        lemma_utf8_encode_decode(c0);
        lemma_encode_utf8_len(s@.drop_first());
        assert(b@.take(encode_scalar(c0).len() as int) =~= encode_scalar(c0));
        assert(decode_first_scalar(b@) == decode_first_scalar(encode_scalar(c0)));
        assert(length_of_first_scalar(b@) == length_of_first_scalar(encode_scalar(c0)));
        assert(valid_first_scalar(b@));
    }
    match first_scalar(b, 0) {
        Some((n, c)) => {
            if n != b.len() {
                return None;
            }
            proof {
                assert(encode_utf8(s@.drop_first()).len() == 0);
            }
            Some(c)
        },
        None => None,
    }
}

/// Look `code` up in an encoding table.
fn lookup_enc(t: CjkTable, code: u32) -> (r: Option<Vec<u8>>)
    ensures
        match r {
            Some(v) => table_bytes(t, code) == Some(v@),
            None => table_bytes(t, code) is None,
        },
{
    match char_from_u32(code) {
        Some(c) => {
            proof {
                vstd::utf8::char_u32_cast(c, code);
            }
            encode_legacy(t, c)
        },
        None => None,
    }
}

/// Copy `bytes` to the front of `out`, or report a short buffer.
pub(crate) fn put_bytes(bytes: &[u8], out: &mut [u8]) -> (r: Result<usize, Error>)
    ensures
        old(out)@.len() < bytes@.len() ==> r == Err::<usize, Error>(Error::ShortBuffer),
        old(out)@.len() >= bytes@.len() ==> r == Ok::<usize, Error>(bytes@.len() as usize),
        r is Ok ==> final(out)@ == overwrite(old(out)@, bytes@),
        r is Err ==> final(out)@ == old(out)@,
{
    if out.len() < bytes.len() {
        return Err(Error::ShortBuffer);
    }
    let ghost old_out = out@;
    let mut i: usize = 0;
    while i < bytes.len()
        invariant
            bytes@.len() <= out@.len(),
            out@.len() == old_out.len(),
            i <= bytes@.len(),
            out@ =~= bytes@.take(i as int) + old_out.skip(i as int),
        decreases bytes@.len() - i,
    {
        out[i] = bytes[i];
        i += 1;
        assert(out@ =~= bytes@.take(i as int) + old_out.skip(i as int));
    }
    Ok(bytes.len())
}

/// The table's code for the character `b`: the table is keyed by the packed
/// code of a multi-byte character, looked up by its significant bytes; an
/// entry it lacks, or a code below `0x100`, is the packed code itself.
pub open spec fn table_code_or_raw(t: CjkTable, b: Seq<u8>) -> u32 {
    let v = spec_pack(b);
    if v <= 0xff {
        v
    } else {
        code_from_decoded(legacy_decoded(t, spec_unpack(v)), v)
    }
}

/// The table's bytes for `code`, or the raw code written back out when it
/// has none.
pub open spec fn table_bytes_or_raw(t: CjkTable, code: u32) -> Seq<u8> {
    bytes_from_encoded(table_bytes(t, code), code)
}

/// The code for the raw code `raw` given what its table decoded it to.
pub fn decoded_code_or_raw(decoded: &Option<String>, raw: u32) -> (c: u32)
    ensures
        c == code_from_decoded(opt_string_view(*decoded), raw),
{
    match decoded {
        Some(s) => match single_char_code(s) {
            Some(c) => c,
            None => raw,
        },
        None => raw,
    }
}

/// Write the bytes a table encoded `code` to, or the raw code when it had
/// none.
pub fn write_encoded_or_raw(encoded: &Option<Vec<u8>>, code: u32, out: &mut [u8]) -> (r: Result<
    usize,
    Error,
>)
    ensures
        old(out)@.len() < bytes_from_encoded(opt_bytes_view(*encoded), code).len() ==> r == Err::<
            usize,
            Error,
        >(Error::ShortBuffer),
        old(out)@.len() >= bytes_from_encoded(opt_bytes_view(*encoded), code).len() ==> r == Ok::<
            usize,
            Error,
        >(bytes_from_encoded(opt_bytes_view(*encoded), code).len() as usize),
        r is Ok ==> final(out)@ == overwrite(
            old(out)@,
            bytes_from_encoded(opt_bytes_view(*encoded), code),
        ),
        r is Err ==> final(out)@ == old(out)@,
{
    match encoded {
        Some(v) => if 1 <= v.len() && v.len() <= 4 {
            put_bytes(v.as_slice(), out)
        } else {
            unpack_mbc(code, out)
        },
        None => unpack_mbc(code, out),
    }
}

fn decode_or_raw(t: CjkTable, b: &[u8]) -> (c: u32)
    ensures
        c == table_code_or_raw(t, b@),
{
    let v = pack_mbc(b);
    if v <= 0xff {
        return v;
    }
    let mut key = [0u8; 4];
    let n = match unpack_mbc(v, &mut key) {
        Ok(n) => n,
        Err(_) => return v,
    };
    let k = &key[0..n];
    assert(k@ =~= spec_unpack(v));
    let decoded = decode_legacy(t, k);
    decoded_code_or_raw(&decoded, v)
}

fn encode_or_raw(t: CjkTable, code: u32, out: &mut [u8]) -> (r: Result<usize, Error>)
    ensures
        old(out)@.len() < table_bytes_or_raw(t, code).len() ==> r == Err::<usize, Error>(
            Error::ShortBuffer,
        ),
        old(out)@.len() >= table_bytes_or_raw(t, code).len() ==> r == Ok::<usize, Error>(
            table_bytes_or_raw(t, code).len() as usize,
        ),
        r is Ok ==> final(out)@ == overwrite(old(out)@, table_bytes_or_raw(t, code)),
        r is Err ==> final(out)@ == old(out)@,
{
    let encoded = lookup_enc(t, code);
    write_encoded_or_raw(&encoded, code, out)
}

/// Shift_JIS single bytes: ASCII, and `0xA1..=0xDF` half-width katakana at
/// `U+FF61..`; any other single byte stands for itself.
pub open spec fn spec_sjis_to_unicode(b: Seq<u8>) -> u32
    recommends
        b.len() > 0,
{
    if b.len() == 1 {
        let x = b[0];
        if x < 0x80 {
            x as u32
        } else if 0xa1 <= x <= 0xdf {
            (0xff61 + (x - 0xa1)) as u32
        } else {
            x as u32
        }
    } else {
        table_code_or_raw(CjkTable::ShiftJis, b)
    }
}

pub fn sjis_to_unicode(b: &[u8]) -> (c: u32)
    ensures
        c == spec_sjis_to_unicode(b@),
{
    if b.len() == 1 {
        let x = b[0];
        if x < 0x80 {
            return x as u32;
        }
        if 0xa1 <= x && x <= 0xdf {
            return 0xff61 + (x - 0xa1) as u32;
        }
        return x as u32;
    }
    decode_or_raw(CjkTable::ShiftJis, b)
}

/// What `unicode_to_sjis` writes.
pub open spec fn spec_sjis_bytes(code: u32) -> Seq<u8> {
    if code < 0x80 {
        spec_unpack(code)
    } else if 0xff61 <= code <= 0xff9f {
        seq![(0xa1 + (code - 0xff61)) as u8]
    } else {
        table_bytes_or_raw(CjkTable::ShiftJis, code)
    }
}

pub fn unicode_to_sjis(code: u32, out: &mut [u8]) -> (r: Result<usize, Error>)
    ensures
        old(out)@.len() < spec_sjis_bytes(code).len() ==> r == Err::<usize, Error>(
            Error::ShortBuffer,
        ),
        old(out)@.len() >= spec_sjis_bytes(code).len() ==> r == Ok::<usize, Error>(
            spec_sjis_bytes(code).len() as usize,
        ),
        r is Ok ==> final(out)@ == overwrite(old(out)@, spec_sjis_bytes(code)),
        r is Err ==> final(out)@ == old(out)@,
{
    if code < 0x80 {
        return unpack_mbc(code, out);
    }
    if 0xff61 <= code && code <= 0xff9f {
        if out.len() == 0 {
            return Err(Error::ShortBuffer);
        }
        out[0] = (0xa1 + (code - 0xff61)) as u8;
        assert(final(out)@ =~= overwrite(old(out)@, spec_sjis_bytes(code)));
        return Ok(1);
    }
    encode_or_raw(CjkTable::ShiftJis, code, out)
}

/// EUC-JP: single bytes stand for themselves, `0x8E` introduces a half-width
/// katakana, the rest goes through the table.
pub open spec fn spec_eucjp_to_unicode(b: Seq<u8>) -> u32
    recommends
        b.len() > 0,
{
    if b.len() == 1 {
        b[0] as u32
    } else if b[0] == 0x8e && b.len() >= 2 && 0xa1 <= b[1] <= 0xdf {
        (0xff61 + (b[1] - 0xa1)) as u32
    } else {
        table_code_or_raw(CjkTable::EucJp, b)
    }
}

pub fn eucjp_to_unicode(b: &[u8]) -> (c: u32)
    requires
        1 <= b@.len(),
    ensures
        c == spec_eucjp_to_unicode(b@),
{
    if b.len() == 1 {
        return b[0] as u32;
    }
    if b[0] == 0x8e && b.len() >= 2 && 0xa1 <= b[1] && b[1] <= 0xdf {
        return 0xff61 + (b[1] - 0xa1) as u32;
    }
    decode_or_raw(CjkTable::EucJp, b)
}

/// What `unicode_to_eucjp` writes.
pub open spec fn spec_eucjp_bytes(code: u32) -> Seq<u8> {
    if code < 0x80 {
        spec_unpack(code)
    } else if 0xff61 <= code <= 0xff9f {
        seq![0x8e, (0xa1 + (code - 0xff61)) as u8]
    } else {
        table_bytes_or_raw(CjkTable::EucJp, code)
    }
}

pub fn unicode_to_eucjp(code: u32, out: &mut [u8]) -> (r: Result<usize, Error>)
    ensures
        old(out)@.len() < spec_eucjp_bytes(code).len() ==> r == Err::<usize, Error>(
            Error::ShortBuffer,
        ),
        old(out)@.len() >= spec_eucjp_bytes(code).len() ==> r == Ok::<usize, Error>(
            spec_eucjp_bytes(code).len() as usize,
        ),
        r is Ok ==> final(out)@ == overwrite(old(out)@, spec_eucjp_bytes(code)),
        r is Err ==> final(out)@ == old(out)@,
{
    if code < 0x80 {
        return unpack_mbc(code, out);
    }
    if 0xff61 <= code && code <= 0xff9f {
        if out.len() < 2 {
            return Err(Error::ShortBuffer);
        }
        out[0] = 0x8e;
        out[1] = (0xa1 + (code - 0xff61)) as u8;
        assert(final(out)@ =~= overwrite(old(out)@, spec_eucjp_bytes(code)));
        return Ok(2);
    }
    encode_or_raw(CjkTable::EucJp, code, out)
}

/// Big5: single bytes stand for themselves, pairs go through the table.
pub open spec fn spec_big5_to_unicode(b: Seq<u8>) -> u32
    recommends
        b.len() > 0,
{
    if b.len() == 1 {
        b[0] as u32
    } else {
        table_code_or_raw(CjkTable::Big5, b)
    }
}

pub fn big5_to_unicode(b: &[u8]) -> (c: u32)
    ensures
        c == spec_big5_to_unicode(b@),
{
    if b.len() == 1 {
        return b[0] as u32;
    }
    decode_or_raw(CjkTable::Big5, b)
}

/// What `unicode_to_big5` writes.
pub open spec fn spec_big5_bytes(code: u32) -> Seq<u8> {
    if code < 0x80 {
        spec_unpack(code)
    } else {
        table_bytes_or_raw(CjkTable::Big5, code)
    }
}

pub fn unicode_to_big5(code: u32, out: &mut [u8]) -> (r: Result<usize, Error>)
    ensures
        old(out)@.len() < spec_big5_bytes(code).len() ==> r == Err::<usize, Error>(
            Error::ShortBuffer,
        ),
        old(out)@.len() >= spec_big5_bytes(code).len() ==> r == Ok::<usize, Error>(
            spec_big5_bytes(code).len() as usize,
        ),
        r is Ok ==> final(out)@ == overwrite(old(out)@, spec_big5_bytes(code)),
        r is Err ==> final(out)@ == old(out)@,
{
    if code < 0x80 {
        return unpack_mbc(code, out);
    }
    encode_or_raw(CjkTable::Big5, code, out)
}

/// The GB18030 four-byte shape: lead and third byte in `0x81..=0xFE`, second
/// and fourth in `0x30..=0x39`.
pub open spec fn is_gb_four_byte_form(b: Seq<u8>) -> bool {
    &&& b.len() == 4
    &&& 0x81 <= b[0] <= 0xfe
    &&& 0x30 <= b[1] <= 0x39
    &&& 0x81 <= b[2] <= 0xfe
    &&& 0x30 <= b[3] <= 0x39
}

/// The GB18030 four-byte pointer: the sequence's position in the four-byte
/// space, the bytes read as digits of radix 126, 10, 126 and 10.
pub open spec fn spec_gb4_pointer(b: Seq<u8>) -> int {
    (((b[0] - 0x81) * 10 + (b[1] - 0x30)) * 126 + (b[2] - 0x81)) * 10 + (b[3] - 0x30)
}

/// The four-byte sequence at a pointer.
pub open spec fn spec_gb4_bytes(p: int) -> Seq<u8> {
    seq![
        (p / 12600 + 0x81) as u8,
        (p % 12600 / 1260 + 0x30) as u8,
        (p % 12600 % 1260 / 10 + 0x81) as u8,
        (p % 12600 % 1260 % 10 + 0x30) as u8,
    ]
}

/// The number of four-byte pointers.
pub open spec fn gb4_pointer_count() -> int {
    1587600
}

/// The one character a decoding gave, as a code.
pub open spec fn single_code_of(decoded: Option<Seq<char>>) -> Option<u32> {
    match decoded {
        Some(cs) => if cs.len() == 1 {
            Some(cs[0] as u32)
        } else {
            None
        },
        None => None,
    }
}

/// The code the four-byte table gives a pointer, when it maps one.
pub open spec fn gb4_code(p: int) -> Option<u32> {
    single_code_of(legacy_decoded(CjkTable::Gb18030, spec_gb4_bytes(p)))
}

/// The pointer of a four-byte sequence in shape.
pub fn gb4_pointer(b: &[u8]) -> (p: u32)
    requires
        is_gb_four_byte_form(b@),
    ensures
        p == spec_gb4_pointer(b@),
        p < gb4_pointer_count(),
{
    let d0 = (b[0] - 0x81) as u32;
    let d1 = (b[1] - 0x30) as u32;
    let d2 = (b[2] - 0x81) as u32;
    let d3 = (b[3] - 0x30) as u32;
    (((d0 * 10 + d1) * 126 + d2) * 10) + d3
}

/// A pointer and its four bytes determine each other.
pub proof fn law_gb4_pointer_bytes(b: Seq<u8>, p: int)
    ensures
        is_gb_four_byte_form(b) ==> 0 <= spec_gb4_pointer(b) < gb4_pointer_count()
            && spec_gb4_bytes(spec_gb4_pointer(b)) == b,
        0 <= p < gb4_pointer_count() ==> is_gb_four_byte_form(spec_gb4_bytes(p))
            && spec_gb4_pointer(spec_gb4_bytes(p)) == p,
{
    if is_gb_four_byte_form(b) {
        let (d0, d1, d2, d3) = (b[0] - 0x81, b[1] - 0x30, b[2] - 0x81, b[3] - 0x30);
        let q = spec_gb4_pointer(b);
        assert(q == d0 * 12600 + d1 * 1260 + d2 * 10 + d3) by (nonlinear_arith)
            requires
                q == (((d0 * 10 + d1) * 126 + d2) * 10) + d3,
        ;
        lemma_digits(d0, d1, d2, d3);
        assert(spec_gb4_bytes(q) =~= b);
    }
    if 0 <= p < gb4_pointer_count() {
        let (d0, d1, d2, d3) = (
            p / 12600,
            p % 12600 / 1260,
            p % 12600 % 1260 / 10,
            p % 12600 % 1260 % 10,
        );
        assert(p == d0 * 12600 + d1 * 1260 + d2 * 10 + d3 && 0 <= d0 < 126 && 0 <= d1 < 10 && 0
            <= d2 < 126 && 0 <= d3 < 10) by (nonlinear_arith)
            requires
                0 <= p < 1587600,
                d0 == p / 12600,
                d1 == p % 12600 / 1260,
                d2 == p % 12600 % 1260 / 10,
                d3 == p % 12600 % 1260 % 10,
        ;
        let bs = spec_gb4_bytes(p);
        assert(bs[0] - 0x81 == d0 && bs[1] - 0x30 == d1 && bs[2] - 0x81 == d2 && bs[3] - 0x30
            == d3);
        assert(spec_gb4_pointer(bs) == (((d0 * 10 + d1) * 126 + d2) * 10) + d3);
        assert((((d0 * 10 + d1) * 126 + d2) * 10) + d3 == d0 * 12600 + d1 * 1260 + d2 * 10 + d3)
            by (nonlinear_arith);
    }
}

proof fn lemma_digits(d0: int, d1: int, d2: int, d3: int)
    requires
        0 <= d0 < 126,
        0 <= d1 < 10,
        0 <= d2 < 126,
        0 <= d3 < 10,
    ensures
        ({
            let q = d0 * 12600 + d1 * 1260 + d2 * 10 + d3;
            &&& 0 <= q < 1587600
            &&& q / 12600 == d0
            &&& q % 12600 / 1260 == d1
            &&& q % 12600 % 1260 / 10 == d2
            &&& q % 12600 % 1260 % 10 == d3
        }),
{
    let q = d0 * 12600 + d1 * 1260 + d2 * 10 + d3;
    let r1 = d1 * 1260 + d2 * 10 + d3;
    assert(0 <= r1 < 12600 && 0 <= q < 1587600) by (nonlinear_arith)
        requires
            0 <= d0 < 126,
            0 <= d1 < 10,
            0 <= d2 < 126,
            0 <= d3 < 10,
            r1 == d1 * 1260 + d2 * 10 + d3,
            q == d0 * 12600 + r1,
    ;
    vstd::arithmetic::div_mod::lemma_fundamental_div_mod_converse(q, 12600, d0, r1);
    let r2 = d2 * 10 + d3;
    vstd::arithmetic::div_mod::lemma_fundamental_div_mod_converse(r1, 1260, d1, r2);
    vstd::arithmetic::div_mod::lemma_fundamental_div_mod_converse(r2, 10, d2, d3);
}

/// The code of the one character a table decoded bytes to.
pub fn single_code(decoded: &Option<String>) -> (r: Option<u32>)
    ensures
        r == single_code_of(opt_string_view(*decoded)),
{
    match decoded {
        Some(s) => single_char_code(s),
        None => None,
    }
}

/// The code the four-byte table gives a pointer.
pub fn gb4_to_cp(pointer: u32) -> (r: Option<u32>)
    requires
        pointer < gb4_pointer_count(),
    ensures
        r == gb4_code(pointer as int),
{
    let mut bytes = [0u8; 4];
    match write_gb4(pointer, &mut bytes) {
        Ok(_) => {},
        Err(_) => return None,
    }
    assert(bytes@ =~= spec_gb4_bytes(pointer as int));
    let decoded = decode_legacy(CjkTable::Gb18030, &bytes);
    single_code(&decoded)
}

/// The four-byte pointer of what a table encoded to, when that is a
/// four-byte sequence.
pub open spec fn gb4_pointer_from_encoded(encoded: Option<Seq<u8>>) -> Option<int> {
    match encoded {
        Some(v) => if is_gb_four_byte_form(v) {
            Some(spec_gb4_pointer(v))
        } else {
            None
        },
        None => None,
    }
}

/// The four-byte pointer the table gives `code`, when it writes `code` as a
/// four-byte sequence.
pub open spec fn spec_cp_to_gb4(code: u32) -> Option<int> {
    gb4_pointer_from_encoded(table_bytes(CjkTable::Gb18030, code))
}

/// The four-byte pointer of what the GB18030 table encoded a code to.
pub fn gb4_pointer_of_encoded(encoded: &Option<Vec<u8>>) -> (r: Option<u32>)
    ensures
        match r {
            Some(p) => gb4_pointer_from_encoded(opt_bytes_view(*encoded)) == Some(p as int) && p
                < gb4_pointer_count(),
            None => gb4_pointer_from_encoded(opt_bytes_view(*encoded)) is None,
        },
{
    match encoded {
        Some(v) => {
            if v.len() == 4 && 0x81 <= v[0] && v[0] <= 0xfe && 0x30 <= v[1] && v[1] <= 0x39 && 0x81
                <= v[2] && v[2] <= 0xfe && 0x30 <= v[3] && v[3] <= 0x39 {
                Some(gb4_pointer(v.as_slice()))
            } else {
                None
            }
        },
        None => None,
    }
}

pub fn cp_to_gb4(code: u32) -> (r: Option<u32>)
    ensures
        match r {
            Some(p) => spec_cp_to_gb4(code) == Some(p as int) && p < gb4_pointer_count(),
            None => spec_cp_to_gb4(code) is None,
        },
{
    let encoded = lookup_enc(CjkTable::Gb18030, code);
    gb4_pointer_of_encoded(&encoded)
}

/// Write the four bytes at a pointer to the front of `out`.
pub fn write_gb4(pointer: u32, out: &mut [u8]) -> (r: Result<usize, Error>)
    requires
        pointer < gb4_pointer_count(),
    ensures
        old(out)@.len() < 4 ==> r == Err::<usize, Error>(Error::ShortBuffer),
        old(out)@.len() >= 4 ==> r == Ok::<usize, Error>(4),
        r is Ok ==> final(out)@ == overwrite(old(out)@, spec_gb4_bytes(pointer as int)),
        r is Err ==> final(out)@ == old(out)@,
{
    if out.len() < 4 {
        return Err(Error::ShortBuffer);
    }
    out[0] = ((pointer / (10 * 126 * 10)) + 0x81) as u8;
    let rest = pointer % (10 * 126 * 10);
    out[1] = ((rest / (10 * 126)) + 0x30) as u8;
    let rest = rest % (10 * 126);
    out[2] = ((rest / 10) + 0x81) as u8;
    out[3] = ((rest % 10) + 0x30) as u8;
    assert(final(out)@ =~= overwrite(old(out)@, spec_gb4_bytes(pointer as int)));
    Ok(4)
}

/// GB18030: single bytes stand for themselves; a four-byte sequence out of
/// shape keeps its raw bytes, one in shape goes through the four-byte table
/// by its pointer; the rest goes through the two-byte table.
pub open spec fn spec_gb18030_to_unicode(b: Seq<u8>) -> u32
    recommends
        b.len() > 0,
{
    if b.len() == 1 {
        b[0] as u32
    } else if b.len() == 4 {
        if !is_gb_four_byte_form(b) {
            spec_pack(b)
        } else {
            match gb4_code(spec_gb4_pointer(b)) {
                Some(c) => c,
                None => spec_pack(b),
            }
        }
    } else {
        table_code_or_raw(CjkTable::Gb18030, b)
    }
}

pub fn gb18030_to_unicode(b: &[u8]) -> (c: u32)
    ensures
        c == spec_gb18030_to_unicode(b@),
{
    if b.len() == 1 {
        return b[0] as u32;
    }
    if b.len() == 4 {
        let b0 = b[0];
        let b1 = b[1];
        let b2 = b[2];
        let b3 = b[3];
        if !(0x81 <= b0 && b0 <= 0xfe) || !(0x30 <= b1 && b1 <= 0x39) || !(0x81 <= b2 && b2
            <= 0xfe) || !(0x30 <= b3 && b3 <= 0x39) {
            return pack_mbc(b);
        }
        let pointer = gb4_pointer(b);
        return match gb4_to_cp(pointer) {
            Some(c) => c,
            None => pack_mbc(b),
        };
    }
    decode_or_raw(CjkTable::Gb18030, b)
}

/// The bytes GB18030 writes for `code` given what its table encoded it to:
/// a two-byte pair as it is, a four-byte sequence by way of its pointer,
/// else the raw code.
pub open spec fn gb18030_bytes_from_encoded(encoded: Option<Seq<u8>>, code: u32) -> Seq<u8> {
    match encoded {
        Some(v) => if v.len() == 2 {
            v
        } else {
            match gb4_pointer_from_encoded(encoded) {
                Some(p) => spec_gb4_bytes(p),
                None => spec_unpack(code),
            }
        },
        None => spec_unpack(code),
    }
}

/// What `unicode_to_gb18030` writes.
pub open spec fn spec_gb18030_bytes(code: u32) -> Seq<u8> {
    if code < 0x80 {
        spec_unpack(code)
    } else {
        gb18030_bytes_from_encoded(table_bytes(CjkTable::Gb18030, code), code)
    }
}

/// Write the GB18030 bytes for `code` given what its table encoded it to.
pub fn write_gb18030_encoded(encoded: &Option<Vec<u8>>, code: u32, out: &mut [u8]) -> (r: Result<
    usize,
    Error,
>)
    ensures
        old(out)@.len() < gb18030_bytes_from_encoded(opt_bytes_view(*encoded), code).len() ==> r
            == Err::<usize, Error>(Error::ShortBuffer),
        old(out)@.len() >= gb18030_bytes_from_encoded(opt_bytes_view(*encoded), code).len() ==> r
            == Ok::<usize, Error>(
            gb18030_bytes_from_encoded(opt_bytes_view(*encoded), code).len() as usize,
        ),
        r is Ok ==> final(out)@ == overwrite(
            old(out)@,
            gb18030_bytes_from_encoded(opt_bytes_view(*encoded), code),
        ),
        r is Err ==> final(out)@ == old(out)@,
{
    if let Some(v) = encoded {
        if v.len() == 2 {
            return put_bytes(v.as_slice(), out);
        }
    }
    match gb4_pointer_of_encoded(encoded) {
        Some(pointer) => write_gb4(pointer, out),
        None => unpack_mbc(code, out),
    }
}

pub fn unicode_to_gb18030(code: u32, out: &mut [u8]) -> (r: Result<usize, Error>)
    ensures
        old(out)@.len() < spec_gb18030_bytes(code).len() ==> r == Err::<usize, Error>(
            Error::ShortBuffer,
        ),
        old(out)@.len() >= spec_gb18030_bytes(code).len() ==> r == Ok::<usize, Error>(
            spec_gb18030_bytes(code).len() as usize,
        ),
        r is Ok ==> final(out)@ == overwrite(old(out)@, spec_gb18030_bytes(code)),
        r is Err ==> final(out)@ == old(out)@,
{
    if code < 0x80 {
        return unpack_mbc(code, out);
    }
    let encoded = lookup_enc(CjkTable::Gb18030, code);
    write_gb18030_encoded(&encoded, code, out)
}

/// A two-byte GB code within the EUC-CN rows: both bytes in `0xA1..=0xFE`.
pub open spec fn is_euccn_pair(b: Seq<u8>) -> bool {
    b.len() == 2 && 0xa1 <= b[0] <= 0xfe && 0xa1 <= b[1] <= 0xfe
}

/// The bytes EUC-CN writes given what the GB table encoded `code` to: the
/// table's pair when it lies in the EUC-CN rows, else the raw code.
pub open spec fn euccn_bytes_from_encoded(encoded: Option<Seq<u8>>, code: u32) -> Seq<u8> {
    match encoded {
        Some(b) => if is_euccn_pair(b) {
            b
        } else {
            spec_unpack(code)
        },
        None => spec_unpack(code),
    }
}

/// What `unicode_to_euccn` writes.
pub open spec fn spec_euccn_bytes(code: u32) -> Seq<u8> {
    if code < 0x80 {
        spec_unpack(code)
    } else {
        euccn_bytes_from_encoded(table_bytes(CjkTable::Gb18030, code), code)
    }
}

/// Write the EUC-CN bytes for `code` given what the GB table encoded it to.
pub fn write_euccn_or_raw(encoded: &Option<Vec<u8>>, code: u32, out: &mut [u8]) -> (r: Result<
    usize,
    Error,
>)
    ensures
        old(out)@.len() < euccn_bytes_from_encoded(opt_bytes_view(*encoded), code).len() ==> r
            == Err::<usize, Error>(Error::ShortBuffer),
        old(out)@.len() >= euccn_bytes_from_encoded(opt_bytes_view(*encoded), code).len() ==> r
            == Ok::<usize, Error>(
            euccn_bytes_from_encoded(opt_bytes_view(*encoded), code).len() as usize,
        ),
        r is Ok ==> final(out)@ == overwrite(
            old(out)@,
            euccn_bytes_from_encoded(opt_bytes_view(*encoded), code),
        ),
        r is Err ==> final(out)@ == old(out)@,
{
    if let Some(v) = encoded {
        if v.len() == 2 {
            let lead = v[0];
            let trail = v[1];
            if 0xa1 <= lead && lead <= 0xfe && 0xa1 <= trail && trail <= 0xfe {
                return put_bytes(v.as_slice(), out);
            }
        }
    }
    unpack_mbc(code, out)
}

pub fn unicode_to_euccn(code: u32, out: &mut [u8]) -> (r: Result<usize, Error>)
    ensures
        old(out)@.len() < spec_euccn_bytes(code).len() ==> r == Err::<usize, Error>(
            Error::ShortBuffer,
        ),
        old(out)@.len() >= spec_euccn_bytes(code).len() ==> r == Ok::<usize, Error>(
            spec_euccn_bytes(code).len() as usize,
        ),
        r is Ok ==> final(out)@ == overwrite(old(out)@, spec_euccn_bytes(code)),
        r is Err ==> final(out)@ == old(out)@,
{
    if code < 0x80 {
        return unpack_mbc(code, out);
    }
    let encoded = lookup_enc(CjkTable::Gb18030, code);
    write_euccn_or_raw(&encoded, code, out)
}

} // verus!
