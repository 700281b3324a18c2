//! What holds of the encodings across their operations.

use vstd::prelude::*;
use vstd::utf8::is_scalar;

use crate::cjk::lowercase_first;
use crate::encoding::EncKind;
use crate::error::Error;
use crate::mbc::{lemma_unpack_pack, spec_unpack};
use crate::model::{
    is_single_byte, spec_case_fold, spec_code_to_mbc, spec_encode,
    spec_is_newline, spec_is_unicode, spec_left_adjust, spec_max_len, spec_mbc_len,
    spec_mbc_to_code, spec_min_len, spec_prev_char_start, utf8_back_to_head, walk_to_head,
    lemma_mbc_len_bounds, reaches, spec_name, is_undecodable, spec_fold, lemma_encode_len,
};
use crate::utf::{
    lemma_utf16_encode_decode, lemma_utf32_encode_decode, lemma_utf8_encode_decode, overwrite,
    unit16, is_high_surrogate, is_low_surrogate,
};

verus! {

/// The codes an encoding writes and reads back unchanged: every code in
/// UTF-32, every Unicode scalar in UTF-8 and UTF-16, every byte value in the
/// single-byte encodings.
pub open spec fn round_trips(k: EncKind, code: u32) -> bool {
    match k {
        EncKind::Utf32Be | EncKind::Utf32Le => true,
        EncKind::Utf8 | EncKind::Utf16Be | EncKind::Utf16Le => is_scalar(code),
        EncKind::Ascii | EncKind::Iso8859(_) | EncKind::Koi8R | EncKind::Cp1251 => code <= 0xff,
        _ => false,
    }
}

/// Writing a code and reading the buffer back gives the code again, and the
/// character read is exactly the bytes written, whatever follows them in the
/// buffer.
pub proof fn law_write_then_read(k: EncKind, code: u32, buf: Seq<u8>)
    requires
        round_trips(k, code),
        spec_code_to_mbc(k, code, buf.len()) is Ok,
    ensures
        ({
            let b = spec_code_to_mbc(k, code, buf.len())->Ok_0;
            let written = overwrite(buf, b);
            &&& spec_mbc_len(k, written) == Ok::<usize, Error>(b.len() as usize)
            &&& spec_mbc_to_code(k, written) == Ok::<u32, Error>(code)
        }),
{
    let b = spec_code_to_mbc(k, code, buf.len())->Ok_0;
    let written = overwrite(buf, b);
    assert(written.take(b.len() as int) =~= b);
    match k {
        EncKind::Utf8 => {
            lemma_utf8_encode_decode(code);
            assert(written[0] == b[0]);
        },
        EncKind::Utf16Be | EncKind::Utf16Le => {
            let be = k is Utf16Be;
            lemma_utf16_encode_decode(code, be);
            assert(unit16(written, 0, be) == unit16(b, 0, be));
        },
        EncKind::Utf32Be | EncKind::Utf32Le => {
            lemma_utf32_encode_decode(code, k is Utf32Be);
        },
        _ => {
            assert(written[0] == b[0]);
        },
    }
}

/// In EUC-TW and EUC-KR a code is its raw bytes: when the bytes written for a
/// code measure as one character, reading them gives the code back.
pub proof fn law_raw_code_write_then_read(k: EncKind, code: u32, buf: Seq<u8>)
    requires
        k is EucTw || k is EucKr,
        spec_code_to_mbc(k, code, buf.len()) is Ok,
        spec_mbc_len(k, overwrite(buf, spec_unpack(code))) == Ok::<usize, Error>(
            spec_unpack(code).len() as usize,
        ),
    ensures
        spec_mbc_to_code(k, overwrite(buf, spec_unpack(code))) == Ok::<u32, Error>(code),
{
    let b = spec_unpack(code);
    assert(overwrite(buf, b).take(b.len() as int) =~= b);
    lemma_unpack_pack(code);
}

/// An ASCII code is one byte of itself in every encoding but UTF-16 and
/// UTF-32.
pub open spec fn ascii_compatible(k: EncKind) -> bool {
    !(k is Utf16Be || k is Utf16Le || k is Utf32Be || k is Utf32Le)
}

proof fn lemma_unpack_small(code: u32)
    requires
        code <= 0xff,
    ensures
        spec_unpack(code) == seq![code as u8],
        crate::mbc::spec_pack(seq![code as u8]) == code,
{
    assert(spec_unpack(code) =~= seq![code as u8]) by {
        assert(code <= 0xff ==> (code >> 0u32) as u8 == code as u8) by (bit_vector);
    }
    let s = seq![code as u8];
    reveal_with_fuel(crate::mbc::spec_pack, 2);
    assert(s.drop_last() =~= Seq::<u8>::empty());
    assert(s.last() == code as u8);
    assert(code <= 0xff ==> ((0u32 << 8) | ((code as u8) as u32)) == code) by (bit_vector);
}

/// Every ASCII character survives a write and a read in every encoding, and
/// in the ASCII-compatible ones it is written as its own single byte.
pub proof fn law_ascii_write_then_read(k: EncKind, code: u32, buf: Seq<u8>)
    requires
        code < 0x80,
        buf.len() >= 4,
    ensures
        spec_code_to_mbc(k, code, buf.len()) is Ok,
        ascii_compatible(k) ==> spec_code_to_mbc(k, code, buf.len()) == Ok::<Seq<u8>, Error>(
            seq![code as u8],
        ),
        ({
            let b = spec_code_to_mbc(k, code, buf.len())->Ok_0;
            spec_mbc_to_code(k, overwrite(buf, b)) == Ok::<u32, Error>(code)
        }),
{
    lemma_unpack_small(code);
    if round_trips(k, code) {
        if k is Utf8 {
            assert(code <= 0x7f ==> ((code & 0x7F) as u8) == code as u8) by (bit_vector);
        }
        law_write_then_read(k, code, buf);
    } else {
        let b = seq![code as u8];
        assert(spec_encode(k, code) == Ok::<Seq<u8>, Error>(b));
        let written = overwrite(buf, b);
        assert(written.take(1) =~= b);
        assert(written[0] == code as u8);
    }
}

/// A byte below `0x80` at the front of the input is one whole character
/// equal to its own code, in every ASCII-compatible encoding (ASCII and
/// UTF-8, where a decode can therefore be skipped, among them).
pub proof fn law_ascii_byte_reads_as_itself(k: EncKind, p: Seq<u8>)
    requires
        ascii_compatible(k),
        p.len() > 0,
        p[0] < 0x80,
    ensures
        spec_mbc_len(k, p) == Ok::<usize, Error>(1),
        spec_mbc_to_code(k, p) == Ok::<u32, Error>(p[0] as u32),
{
    let b0 = p[0];
    assert(p.take(1) =~= seq![b0]);
    assert(b0 < 0x80 ==> (b0 & 0x7F) == b0) by (bit_vector);
    lemma_unpack_small(b0 as u32);
    lemma_utf8_encode_decode(b0 as u32);
    assert(vstd::utf8::encode_scalar(b0 as u32) =~= seq![b0]);
    assert((b0 as u32) as u8 == b0);
}

/// With ASCII-only folding (asked for, or forced by a non-Unicode encoding),
/// an upper-case ASCII letter folds to its lower-case letter, written as one
/// byte, in every ASCII-compatible encoding.
pub proof fn law_case_fold_ascii_letter(k: EncKind, ascii_only: bool, p: Seq<u8>, out_len: nat)
    requires
        ascii_compatible(k),
        ascii_only || !spec_is_unicode(k),
        p.len() > 0,
        0x41 <= p[0] <= 0x5a,
        out_len >= 1,
    ensures
        spec_case_fold(k, ascii_only, p, out_len) == Ok::<Seq<u8>, Error>(
            seq![(p[0] + 32) as u8],
        ),
{
    law_ascii_byte_reads_as_itself(k, p);
    let c = (p[0] + 32) as u32;
    lemma_unpack_small(c);
    if k is Utf8 {
        assert(c <= 0x7f ==> ((c & 0x7F) as u8) == c as u8) by (bit_vector);
    }
}

/// In a single-byte encoding every offset is a character boundary: any
/// non-empty input starts with a one-byte character.
pub proof fn law_single_byte_every_offset(k: EncKind, p: Seq<u8>)
    requires
        is_single_byte(k),
        p.len() > 0,
    ensures
        spec_mbc_len(k, p) == Ok::<usize, Error>(1),
        spec_mbc_to_code(k, p) == Ok::<u32, Error>(p[0] as u32),
{
}

/// A character is never shorter than the encoding's minimum nor longer than
/// its maximum.
pub proof fn law_len_within_min_max(k: EncKind, p: Seq<u8>)
    requires
        spec_mbc_len(k, p) is Ok,
    ensures
        spec_min_len(k) <= spec_mbc_len(k, p)->Ok_0 <= spec_max_len(k),
{
}

/// Writing a newline and asking whether the result starts with one says yes,
/// in every encoding.
pub proof fn law_newline_written_is_newline(k: EncKind, buf: Seq<u8>)
    requires
        buf.len() >= 4,
    ensures
        spec_code_to_mbc(k, 0x0a, buf.len()) is Ok,
        spec_is_newline(k, overwrite(buf, spec_code_to_mbc(k, 0x0a, buf.len())->Ok_0)),
{
    law_ascii_write_then_read(k, 0x0a, buf);
    let b = spec_code_to_mbc(k, 0x0a, buf.len())->Ok_0;
    let w = overwrite(buf, b);
    assert(w.take(b.len() as int) =~= b);
    if k is Utf32Be || k is Utf32Le {
        assert(((0x0au32 >> 24) as u8) == 0 && ((0x0au32 >> 16) as u8) == 0 && ((0x0au32
            >> 8) as u8) == 0 && (0x0au32 as u8) == 0x0a) by (bit_vector);
        assert(w[0] == b[0] && w[1] == b[1] && w[2] == b[2] && w[3] == b[3]);
    }
    if k is Utf16Be || k is Utf16Le {
        assert(w[0] == b[0] && w[1] == b[1]);
    }
    if ascii_compatible(k) {
        assert(w[0] == b[0]);
    }
}

proof fn lemma_walk_to_head_within(k: EncKind, hay: Seq<u8>, pos: int, i: int)
    requires
        i <= pos,
    ensures
        i <= walk_to_head(k, hay, pos, i) <= pos,
    decreases pos - i,
{
    if i < pos {
        if let Ok(n) = spec_mbc_len(k, hay.skip(i)) {
            if n != 0 && i + n <= pos {
                lemma_walk_to_head_within(k, hay, pos, i + n);
            }
        }
    }
}

proof fn lemma_utf8_back_to_head(hay: Seq<u8>, start: int, i: int)
    requires
        start <= i < hay.len(),
    ensures
        start <= utf8_back_to_head(hay, start, i) <= i,
        utf8_back_to_head(hay, start, i) == start || !(0x80 <= hay[utf8_back_to_head(
            hay,
            start,
            i,
        )] <= 0xbf),
    decreases i - start,
{
    if i > start && 0x80 <= hay[i] <= 0xbf {
        lemma_utf8_back_to_head(hay, start, i - 1);
    }
}

/// Adjusting a position inside `hay[start..]` never moves it before `start`
/// nor past itself; in UTF-8 it lands on `start`, on the end of the
/// haystack, or on a byte that is not a continuation byte. The character
/// before a position starts at or after `start` and before the position.
pub proof fn law_left_adjust_within(k: EncKind, hay: Seq<u8>, start: int, pos: int)
    requires
        0 <= start < pos <= hay.len() <= usize::MAX,
    ensures
        start <= spec_left_adjust(k, hay, start, pos) <= pos,
        k is Utf8 ==> (spec_left_adjust(k, hay, start, pos) == start || spec_left_adjust(
            k,
            hay,
            start,
            pos,
        ) == hay.len() || !(0x80 <= hay[spec_left_adjust(k, hay, start, pos)] <= 0xbf)),
        spec_prev_char_start(k, hay, start, pos) matches Some(r) ==> start <= r < pos,
{
    lemma_left_adjust_range(k, hay, start, pos);
    if pos - 1 > start {
        lemma_left_adjust_range(k, hay, start, pos - 1);
    }
}

proof fn lemma_left_adjust_range(k: EncKind, hay: Seq<u8>, start: int, pos: int)
    requires
        0 <= start < pos <= hay.len(),
    ensures
        start <= spec_left_adjust(k, hay, start, pos) <= pos,
        k is Utf8 ==> (spec_left_adjust(k, hay, start, pos) == start || spec_left_adjust(
            k,
            hay,
            start,
            pos,
        ) == hay.len() || !(0x80 <= hay[spec_left_adjust(k, hay, start, pos)] <= 0xbf)),
{
    match k {
        EncKind::Utf8 => if pos < hay.len() {
            lemma_utf8_back_to_head(hay, start, pos)
        },
        EncKind::Utf16Be | EncKind::Utf16Le | EncKind::Utf32Be | EncKind::Utf32Le => {},
        _ => lemma_walk_to_head_within(k, hay, pos, start),
    }
}

proof fn lemma_walk_idempotent(k: EncKind, hay: Seq<u8>, pos: int, i: int)
    requires
        i <= pos,
    ensures
        walk_to_head(k, hay, walk_to_head(k, hay, pos, i), i) == walk_to_head(k, hay, pos, i),
    decreases pos - i,
{
    if i < pos {
        if let Ok(n) = spec_mbc_len(k, hay.skip(i)) {
            if n != 0 && i + n <= pos {
                lemma_walk_idempotent(k, hay, pos, i + n);
                lemma_walk_to_head_within(k, hay, pos, i + n);
            }
        }
    }
}

/// Adjusting an adjusted position changes nothing.
pub proof fn law_left_adjust_idempotent(k: EncKind, hay: Seq<u8>, start: int, pos: int)
    requires
        0 <= start < pos <= hay.len(),
    ensures
        spec_left_adjust(k, hay, start, spec_left_adjust(k, hay, start, pos)) == spec_left_adjust(
            k,
            hay,
            start,
            pos,
        ),
{
    lemma_left_adjust_range(k, hay, start, pos);
    let r = spec_left_adjust(k, hay, start, pos);
    if r > start {
        match k {
            EncKind::Utf8 => {},
            EncKind::Utf16Be | EncKind::Utf16Le | EncKind::Utf32Be | EncKind::Utf32Le => {},
            _ => lemma_walk_idempotent(k, hay, pos, start),
        }
    }
}

proof fn lemma_reaches_step(k: EncKind, hay: Seq<u8>, a: int, m: int, n: usize)
    requires
        a <= m,
        reaches(k, hay, a, m),
        spec_mbc_len(k, hay.skip(m)) == Ok::<usize, Error>(n),
        n > 0,
    ensures
        reaches(k, hay, a, m + n),
    decreases m - a,
{
    if a < m {
        let n1 = spec_mbc_len(k, hay.skip(a))->Ok_0;
        lemma_reaches_step(k, hay, a + n1, m, n);
    } else {
        assert(reaches(k, hay, m + n, m + n));
    }
}

/// Walking characters forward from `i` towards `pos` measures every
/// character it meets: the walk never stops on bytes it cannot measure.
pub open spec fn walk_ok(k: EncKind, hay: Seq<u8>, i: int, pos: int) -> bool
    decreases pos - i,
{
    if i >= pos {
        true
    } else {
        match spec_mbc_len(k, hay.skip(i)) {
            Ok(n) => if n > 0 && i + n <= pos {
                walk_ok(k, hay, i + n, pos)
            } else {
                true
            },
            Err(_) => false,
        }
    }
}

proof fn lemma_reaches_walk_ok(k: EncKind, hay: Seq<u8>, i: int, t: int, pos: int)
    requires
        i <= t <= pos,
        reaches(k, hay, i, pos),
    ensures
        walk_ok(k, hay, i, t),
    decreases t - i,
{
    if i < t {
        let n = spec_mbc_len(k, hay.skip(i))->Ok_0;
        if i + n <= t {
            lemma_reaches_walk_ok(k, hay, i + n, t, pos);
        }
    }
}

/// Boundaries reached from the same start lie on one walk: from an earlier
/// one the walk goes on to a later one.
proof fn lemma_reaches_split(k: EncKind, hay: Seq<u8>, a: int, q: int, b: int)
    requires
        a <= q <= b,
        reaches(k, hay, a, q),
        reaches(k, hay, a, b),
    ensures
        reaches(k, hay, q, b),
    decreases q - a,
{
    if a < q {
        let n = spec_mbc_len(k, hay.skip(a))->Ok_0;
        lemma_reaches_split(k, hay, a + n, q, b);
    }
}

proof fn lemma_walk_boundary(k: EncKind, hay: Seq<u8>, pos: int, i: int)
    requires
        0 <= i <= pos <= hay.len(),
    ensures
        reaches(k, hay, i, pos) ==> walk_to_head(k, hay, pos, i) == pos,
        walk_ok(k, hay, i, pos) ==> reaches(k, hay, i, walk_to_head(k, hay, pos, i)),
        walk_to_head(k, hay, pos, i) < pos ==> {
            let r = walk_to_head(k, hay, pos, i);
            &&& reaches(k, hay, i, r)
            &&& spec_mbc_len(k, hay.skip(r)) is Ok
            &&& pos < r + spec_mbc_len(k, hay.skip(r))->Ok_0
        },
    decreases pos - i,
{
    if i < pos {
        lemma_mbc_len_bounds(k, hay.skip(i));
        if let Ok(n) = spec_mbc_len(k, hay.skip(i)) {
            if i + n <= pos {
                lemma_walk_boundary(k, hay, pos, i + n);
                lemma_walk_to_head_within(k, hay, pos, i + n);
            }
        }
    }
}

/// For the encodings measured by walking from `start` (all but the Unicode
/// formats), the adjusted position is the start of the character that
/// covers `pos`: `pos` itself when a character starts there, else a
/// character boundary whose character runs past `pos`. When the walk from
/// `start` measures every character, the result is a boundary even where it
/// did not move.
pub proof fn law_left_adjust_greatest_boundary(k: EncKind, hay: Seq<u8>, start: int, pos: int)
    requires
        !(k is Utf8 || k is Utf16Be || k is Utf16Le || k is Utf32Be || k is Utf32Le),
        0 <= start < pos <= hay.len(),
    ensures
        reaches(k, hay, start, pos) ==> spec_left_adjust(k, hay, start, pos) == pos,
        walk_ok(k, hay, start, pos) ==> reaches(k, hay, start, spec_left_adjust(k, hay, start, pos)),
        spec_left_adjust(k, hay, start, pos) < pos ==> {
            let r = spec_left_adjust(k, hay, start, pos);
            &&& reaches(k, hay, start, r)
            &&& spec_mbc_len(k, hay.skip(r)) is Ok
            &&& pos < r + spec_mbc_len(k, hay.skip(r))->Ok_0
        },
{
    lemma_walk_boundary(k, hay, pos, start);
}

/// UTF-16 that is well formed from `start`: whole units, and every surrogate
/// in a pair.
pub open spec fn utf16_paired(hay: Seq<u8>, start: int, be: bool) -> bool {
    &&& 0 <= start <= hay.len()
    &&& (hay.len() - start) % 2 == 0
    &&& forall|i: int|
        #![trigger unit16(hay, i, be)]
        start <= i && i + 1 < hay.len() && (i - start) % 2 == 0 ==> {
            &&& is_high_surrogate(unit16(hay, i, be)) ==> i + 3 < hay.len() && is_low_surrogate(
                unit16(hay, i + 2, be),
            )
            &&& is_low_surrogate(unit16(hay, i, be)) ==> i >= start + 2 && is_high_surrogate(
                unit16(hay, i - 2, be),
            )
        }
}

/// A UTF-16 character head: a unit boundary that is not a low surrogate.
pub open spec fn utf16_head(hay: Seq<u8>, start: int, b: int, be: bool) -> bool {
    &&& start <= b <= hay.len()
    &&& (b - start) % 2 == 0
    &&& b + 1 < hay.len() ==> !is_low_surrogate(unit16(hay, b, be))
}

pub open spec fn utf16_kind(be: bool) -> EncKind {
    if be {
        EncKind::Utf16Be
    } else {
        EncKind::Utf16Le
    }
}

proof fn lemma_utf16_step(hay: Seq<u8>, i: int, be: bool)
    requires
        0 <= i,
        i + 1 < hay.len(),
    ensures
        unit16(hay.skip(i), 0, be) == unit16(hay, i, be),
        is_high_surrogate(unit16(hay, i, be)) ==> spec_mbc_len(utf16_kind(be), hay.skip(i)) == (
        if i + 3 < hay.len() {
            Ok::<usize, Error>(4)
        } else {
            Err::<usize, Error>(Error::TruncatedSurrogatePair)
        }),
        !is_high_surrogate(unit16(hay, i, be)) ==> spec_mbc_len(utf16_kind(be), hay.skip(i))
            == Ok::<usize, Error>(2),
{
    assert(hay.skip(i)[0] == hay[i] && hay.skip(i)[1] == hay[i + 1]);
}

proof fn lemma_utf16_head_reaches(hay: Seq<u8>, start: int, b: int, be: bool)
    requires
        utf16_paired(hay, start, be),
        utf16_head(hay, start, b, be),
    ensures
        reaches(utf16_kind(be), hay, start, b),
    decreases b - start,
{
    let k = utf16_kind(be);
    if b > start {
        let w = unit16(hay, b - 2, be);
        if is_low_surrogate(w) {
            assert(is_high_surrogate(unit16(hay, b - 4, be)));
            lemma_utf16_head_reaches(hay, start, b - 4, be);
            lemma_utf16_step(hay, b - 4, be);
            lemma_reaches_step(k, hay, start, b - 4, 4);
        } else {
            lemma_utf16_head_reaches(hay, start, b - 2, be);
            lemma_utf16_step(hay, b - 2, be);
            if is_high_surrogate(w) {
                assert(b + 1 < hay.len());
                assert(is_low_surrogate(unit16(hay, b, be)));
            }
            lemma_reaches_step(k, hay, start, b - 2, 2);
        }
    }
}

proof fn lemma_utf16_reaches_head(hay: Seq<u8>, start: int, i: int, b: int, be: bool)
    requires
        utf16_paired(hay, start, be),
        utf16_head(hay, start, i, be),
        i <= b,
        reaches(utf16_kind(be), hay, i, b),
    ensures
        utf16_head(hay, start, b, be),
    decreases b - i,
{
    let k = utf16_kind(be);
    if i < b {
        lemma_utf16_step(hay, i, be);
        let n = spec_mbc_len(k, hay.skip(i))->Ok_0;
        let w = unit16(hay, i, be);
        if is_high_surrogate(w) {
            assert(is_low_surrogate(unit16(hay, i + 2, be)));
            if i + 5 < hay.len() && is_low_surrogate(unit16(hay, i + 4, be)) {
                assert(is_high_surrogate(unit16(hay, i + 2, be)));
            }
        } else {
            if i + 3 < hay.len() && is_low_surrogate(unit16(hay, i + 2, be)) {
                assert(is_high_surrogate(unit16(hay, i, be)));
            }
        }
        lemma_utf16_reaches_head(hay, start, i + n, b, be);
    }
}

/// In well-formed UTF-16 the adjusted position is the start of the
/// character that covers `pos`: `pos` itself when a character starts there,
/// else the character boundary whose character runs past `pos`; it never
/// lands between the halves of a surrogate pair.
pub proof fn law_left_adjust_utf16_greatest_boundary(
    hay: Seq<u8>,
    start: int,
    pos: int,
    be: bool,
)
    requires
        utf16_paired(hay, start, be),
        start < pos <= hay.len(),
    ensures
        ({
            let k = utf16_kind(be);
            let r = spec_left_adjust(k, hay, start, pos);
            &&& reaches(k, hay, start, r)
            &&& reaches(k, hay, start, pos) ==> r == pos
            &&& r < pos ==> spec_mbc_len(k, hay.skip(r)) is Ok && pos < r + spec_mbc_len(
                k,
                hay.skip(r),
            )->Ok_0
        }),
{
    let k = utf16_kind(be);
    let r = spec_left_adjust(k, hay, start, pos);
    let r0 = start + (pos - start) - (pos - start) % 2;
    if r0 + 1 < hay.len() {
        let w = unit16(hay, r0, be);
        if is_low_surrogate(w) {
            assert(is_high_surrogate(unit16(hay, r0 - 2, be)));
            assert(r == r0 - 2);
        } else {
            assert(r == r0);
        }
    } else {
        assert(r == r0);
    }
    assert(utf16_head(hay, start, r, be));
    lemma_utf16_head_reaches(hay, start, r, be);
    if reaches(k, hay, start, pos) {
        lemma_utf16_reaches_head(hay, start, start, pos, be);
    }
    if r < pos {
        if r + 1 < hay.len() {
            lemma_utf16_step(hay, r, be);
            if is_high_surrogate(unit16(hay, r, be)) {
                assert(is_low_surrogate(unit16(hay, r + 2, be)));
            }
        }
    }
}

pub open spec fn utf32_kind(be: bool) -> EncKind {
    if be {
        EncKind::Utf32Be
    } else {
        EncKind::Utf32Le
    }
}

proof fn lemma_utf32_reaches(hay: Seq<u8>, start: int, i: int, b: int, be: bool)
    requires
        0 <= start <= i <= b <= hay.len(),
        (i - start) % 4 == 0,
    ensures
        reaches(utf32_kind(be), hay, i, b) <==> (b - start) % 4 == 0,
    decreases b - i,
{
    if i < b {
        if hay.len() - i >= 4 {
            assert(spec_mbc_len(utf32_kind(be), hay.skip(i)) == Ok::<usize, Error>(4));
            if i + 4 <= b {
                lemma_utf32_reaches(hay, start, i + 4, b, be);
            }
        }
    }
}

/// In UTF-32 of whole characters from `start`, the adjusted position is the
/// start of the character that covers `pos`.
pub proof fn law_left_adjust_utf32_greatest_boundary(
    hay: Seq<u8>,
    start: int,
    pos: int,
    be: bool,
)
    requires
        0 <= start < pos <= hay.len(),
        (hay.len() - start) % 4 == 0,
    ensures
        ({
            let k = utf32_kind(be);
            let r = spec_left_adjust(k, hay, start, pos);
            &&& reaches(k, hay, start, r)
            &&& reaches(k, hay, start, pos) ==> r == pos
            &&& r < pos ==> spec_mbc_len(k, hay.skip(r)) is Ok && pos < r + spec_mbc_len(
                k,
                hay.skip(r),
            )->Ok_0
        }),
{
    let k = utf32_kind(be);
    let r = spec_left_adjust(k, hay, start, pos);
    lemma_utf32_reaches(hay, start, start, r, be);
    lemma_utf32_reaches(hay, start, start, pos, be);
    if r < pos {
        assert(spec_mbc_len(k, hay.skip(r)) == Ok::<usize, Error>(4));
    }
}

proof fn lemma_utf8_scalar_len(s: Seq<u8>)
    requires
        vstd::utf8::valid_first_scalar(s),
    ensures
        vstd::utf8::length_of_first_scalar(s) == crate::lead::utf8_lead_len(s[0]),
        forall|j: int|
            1 <= j < vstd::utf8::length_of_first_scalar(s) ==> 0x80 <= #[trigger] s[j] <= 0xbf,
        !(0x80 <= s[0] <= 0xbf),
{
}

proof fn lemma_utf8_boundaries(hay: Seq<u8>, i: int, b: int)
    requires
        0 <= i <= b <= hay.len(),
        vstd::utf8::valid_utf8(hay.subrange(i, hay.len() as int)),
    ensures
        reaches(EncKind::Utf8, hay, i, b) <==> (b == hay.len() || !(0x80 <= hay[b] <= 0xbf)),
        reaches(EncKind::Utf8, hay, i, b) ==> vstd::utf8::valid_utf8(
            hay.subrange(b, hay.len() as int),
        ),
    decreases b - i,
{
    if i < b {
        let s = hay.subrange(i, hay.len() as int);
        assert(hay.skip(i) =~= s);
        lemma_utf8_scalar_len(s);
        let n = vstd::utf8::length_of_first_scalar(s);
        assert(s[0] == hay[i]);
        assert(spec_mbc_len(EncKind::Utf8, hay.skip(i)) == Ok::<usize, Error>(n as usize));
        assert(vstd::utf8::pop_first_scalar(s) =~= hay.subrange(i + n, hay.len() as int));
        if i + n <= b {
            lemma_utf8_boundaries(hay, i + n, b);
        } else {
            assert(s[b - i] == hay[b]);
        }
    } else {
        assert(b == hay.len() || !(0x80 <= hay[b] <= 0xbf)) by {
            if b < hay.len() {
                let s = hay.subrange(i, hay.len() as int);
                lemma_utf8_scalar_len(s);
                assert(s[0] == hay[b]);
            }
        }
    }
}

proof fn lemma_utf8_back_continuations(hay: Seq<u8>, start: int, i: int)
    requires
        start <= i < hay.len(),
    ensures
        forall|j: int|
            utf8_back_to_head(hay, start, i) < j <= i ==> 0x80 <= #[trigger] hay[j] <= 0xbf,
    decreases i - start,
{
    if i > start && 0x80 <= hay[i] <= 0xbf {
        lemma_utf8_back_continuations(hay, start, i - 1);
    }
}

/// In well-formed UTF-8 from `start`, the adjusted position is the start of
/// the character that covers `pos`: `pos` itself when a character starts
/// there (the end of the haystack included), else the character boundary
/// whose character runs past `pos`.
pub proof fn law_left_adjust_utf8_greatest_boundary(hay: Seq<u8>, start: int, pos: int)
    requires
        0 <= start < pos <= hay.len(),
        vstd::utf8::valid_utf8(hay.subrange(start, hay.len() as int)),
    ensures
        ({
            let k = EncKind::Utf8;
            let r = spec_left_adjust(k, hay, start, pos);
            &&& reaches(k, hay, start, r)
            &&& reaches(k, hay, start, pos) ==> r == pos
            &&& r < pos ==> spec_mbc_len(k, hay.skip(r)) is Ok && pos < r + spec_mbc_len(
                k,
                hay.skip(r),
            )->Ok_0
        }),
{
    let k = EncKind::Utf8;
    let r = spec_left_adjust(k, hay, start, pos);
    lemma_left_adjust_range(k, hay, start, pos);
    lemma_utf8_boundaries(hay, start, pos);
    lemma_utf8_boundaries(hay, start, r);
    if r < pos {
        lemma_utf8_back_continuations(hay, start, pos);
        let s = hay.subrange(r, hay.len() as int);
        assert(hay.skip(r) =~= s);
        lemma_utf8_scalar_len(s);
        let n = vstd::utf8::length_of_first_scalar(s);
        assert(s[0] == hay[r]);
        if r + n <= pos {
            lemma_utf8_boundaries(hay, start, r + n);
            assert(vstd::utf8::pop_first_scalar(s) =~= hay.subrange(r + n, hay.len() as int));
            lemma_reaches_step(k, hay, start, r, n as usize);
            assert(spec_mbc_len(k, hay.skip(r)) == Ok::<usize, Error>(n as usize));
        }
    }
}

/// A UTF-8 character reads as a Unicode scalar exactly when its bytes are
/// well-formed UTF-8; otherwise its code is its lead byte lifted above every
/// scalar, so no character class can match it.
pub proof fn law_utf8_undecodable_above_scalars(p: Seq<u8>)
    requires
        spec_mbc_to_code(EncKind::Utf8, p) is Ok,
    ensures
        ({
            let b = p.take(spec_mbc_len(EncKind::Utf8, p)->Ok_0 as int);
            let c = spec_mbc_to_code(EncKind::Utf8, p)->Ok_0;
            &&& vstd::utf8::valid_utf8(b) ==> is_scalar(c)
            &&& !vstd::utf8::valid_utf8(b) ==> c == 0x8000_0000 + p[0] && c > 0x10ffff
        }),
{
    let b = p.take(spec_mbc_len(EncKind::Utf8, p)->Ok_0 as int);
    assert(b[0] == p[0]);
    if vstd::utf8::valid_utf8(b) {
        assert(vstd::utf8::valid_first_scalar(b));
        let (b0, b1, b2) = (b[0], b.spec_index(1), b.spec_index(2));
        assert(((b0 & 0x7F) as u32) <= 0x7f) by (bit_vector);
        assert((((b0 & 0x1F) as u32) << 6) | ((b1 & 0x3f) as u32) <= 0x7ff) by (bit_vector);
        assert((((b0 & 0x0F) as u32) << 12) | (((b1 & 0x3f) as u32) << 6) | ((b2 & 0x3f) as u32)
            <= 0xffff) by (bit_vector);
    }
}


/// The kinds an encoding is built from: ISO-8859 in its parts 1 to 16 but
/// 12, which does not exist.
pub open spec fn is_named_kind(k: EncKind) -> bool {
    match k {
        EncKind::Iso8859(n) => 1 <= n <= 16 && n != 12,
        _ => true,
    }
}

/// Different encodings have different names, and none goes by the bare
/// fallback "ISO-8859".
pub proof fn law_names_distinct(a: EncKind, b: EncKind)
    requires
        is_named_kind(a),
        is_named_kind(b),
    ensures
        spec_name(a) == spec_name(b) ==> a == b,
        spec_name(a) != "ISO-8859"@,
{
    reveal_strlit("ASCII");
    reveal_strlit("UTF-8");
    reveal_strlit("UTF-16BE");
    reveal_strlit("UTF-16LE");
    reveal_strlit("UTF-32BE");
    reveal_strlit("UTF-32LE");
    reveal_strlit("ISO-8859-1");
    reveal_strlit("ISO-8859-2");
    reveal_strlit("ISO-8859-3");
    reveal_strlit("ISO-8859-4");
    reveal_strlit("ISO-8859-5");
    reveal_strlit("ISO-8859-6");
    reveal_strlit("ISO-8859-7");
    reveal_strlit("ISO-8859-8");
    reveal_strlit("ISO-8859-9");
    reveal_strlit("ISO-8859-10");
    reveal_strlit("ISO-8859-11");
    reveal_strlit("ISO-8859-13");
    reveal_strlit("ISO-8859-14");
    reveal_strlit("ISO-8859-15");
    reveal_strlit("ISO-8859-16");
    reveal_strlit("KOI8-R");
    reveal_strlit("CP1251");
    reveal_strlit("EUC-JP");
    reveal_strlit("EUC-TW");
    reveal_strlit("EUC-KR");
    reveal_strlit("EUC-CN");
    reveal_strlit("Shift_JIS");
    reveal_strlit("Big5");
    reveal_strlit("GB18030");
    reveal_strlit("ISO-8859");
    if spec_name(a) == spec_name(b) {
        assert(spec_name(a).len() == spec_name(b).len());
        assert(spec_name(a)[0] == spec_name(b)[0]);
        assert(spec_name(a).last() == spec_name(b).last());
        assert(spec_name(a)[spec_name(a).len() - 2] == spec_name(b)[spec_name(b).len() - 2]);
        assert(spec_name(a)[4] == spec_name(b)[4]);
    }
    if spec_name(a) == "ISO-8859"@ {
        assert(spec_name(a).len() == 8);
        assert(spec_name(a)[0] == 'I');
    }
}


/// Input well formed from `start` in the encoding: valid UTF-8, paired
/// UTF-16 surrogates, whole UTF-32 units; the other encodings measure any
/// bytes.
pub open spec fn well_formed_from(k: EncKind, hay: Seq<u8>, start: int) -> bool {
    &&& 0 <= start <= hay.len()
    &&& match k {
        EncKind::Utf8 => vstd::utf8::valid_utf8(hay.subrange(start, hay.len() as int)),
        EncKind::Utf16Be => utf16_paired(hay, start, true),
        EncKind::Utf16Le => utf16_paired(hay, start, false),
        EncKind::Utf32Be | EncKind::Utf32Le => (hay.len() - start) % 4 == 0,
        _ => true,
    }
}

/// At a character boundary of well-formed input, the character before it
/// starts at a boundary and ends exactly at it.
pub proof fn law_prev_char_start_ends_at_boundary(k: EncKind, hay: Seq<u8>, start: int, pos: int)
    requires
        0 <= start < pos <= hay.len() <= usize::MAX,
        well_formed_from(k, hay, start),
        reaches(k, hay, start, pos),
    ensures
        spec_prev_char_start(k, hay, start, pos) is Some,
        ({
            let q = spec_prev_char_start(k, hay, start, pos)->Some_0 as int;
            &&& reaches(k, hay, start, q)
            &&& spec_mbc_len(k, hay.skip(q)) is Ok
            &&& q + spec_mbc_len(k, hay.skip(q))->Ok_0 == pos
        }),
{
    let t = pos - 1;
    let q = spec_left_adjust(k, hay, start, t);
    if t > start {
        lemma_left_adjust_range(k, hay, start, t);
        match k {
            EncKind::Utf8 => law_left_adjust_utf8_greatest_boundary(hay, start, t),
            EncKind::Utf16Be => law_left_adjust_utf16_greatest_boundary(hay, start, t, true),
            EncKind::Utf16Le => law_left_adjust_utf16_greatest_boundary(hay, start, t, false),
            EncKind::Utf32Be => law_left_adjust_utf32_greatest_boundary(hay, start, t, true),
            EncKind::Utf32Le => law_left_adjust_utf32_greatest_boundary(hay, start, t, false),
            _ => {
                lemma_reaches_walk_ok(k, hay, start, t, pos);
                law_left_adjust_greatest_boundary(k, hay, start, t);
            },
        }
    } else {
        assert(q == start);
    }
    assert(reaches(k, hay, start, q));
    lemma_reaches_split(k, hay, start, q, pos);
    lemma_mbc_len_bounds(k, hay.skip(q));
}


/// ASCII-only folding (asked for, or forced by a non-Unicode encoding) is
/// idempotent: folding a folded character gives the same bytes back. This
/// holds for a character that reads back as itself (a scalar in UTF-8 and
/// UTF-16, any code in UTF-32, a byte in the single-byte encodings) and for an
/// undecodable UTF-8 character, which folding copies.
pub proof fn law_case_fold_ascii_idempotent(
    k: EncKind,
    ascii_only: bool,
    p: Seq<u8>,
    out_len: nat,
    out_len2: nat,
)
    requires
        ascii_only || !spec_is_unicode(k),
        spec_mbc_to_code(k, p) is Ok,
        round_trips(k, spec_mbc_to_code(k, p)->Ok_0) || is_undecodable(
            k,
            spec_mbc_to_code(k, p)->Ok_0,
        ),
        spec_case_fold(k, ascii_only, p, out_len) is Ok,
        out_len2 >= spec_case_fold(k, ascii_only, p, out_len)->Ok_0.len(),
    ensures
        spec_case_fold(k, ascii_only, spec_case_fold(k, ascii_only, p, out_len)->Ok_0, out_len2)
            == spec_case_fold(k, ascii_only, p, out_len),
{
    let c = spec_mbc_to_code(k, p)->Ok_0;
    let b = spec_case_fold(k, ascii_only, p, out_len)->Ok_0;
    lemma_mbc_len_bounds(k, p);
    if is_undecodable(k, c) {
        let n = spec_mbc_len(k, p)->Ok_0;
        assert(b =~= p.take(n as int));
        assert(b[0] == p[0]);
        assert(b.take(n as int) =~= b);
    } else {
        let f = spec_fold(k, ascii_only, c);
        assert(round_trips(k, f));
        assert(spec_code_to_mbc(k, f, b.len()) == Ok::<Seq<u8>, Error>(b));
        law_write_then_read(k, f, b);
        assert(overwrite(b, b) =~= b);
        assert(spec_fold(k, ascii_only, f) == f);
    }
}


/// In every Unicode encoding, full folding of a character that reads as the
/// scalar `c` writes a character that reads as the first character of `c`'s
/// lowercase mapping (`c` itself when the mapping gives none).
pub proof fn law_unicode_fold_reads_as_lowercase(k: EncKind, p: Seq<u8>, out_len: nat)
    requires
        k is Utf8 || k is Utf16Be || k is Utf16Le || k is Utf32Be || k is Utf32Le,
        spec_mbc_to_code(k, p) is Ok,
        is_scalar(spec_mbc_to_code(k, p)->Ok_0),
        out_len >= 4,
    ensures
        spec_case_fold(k, false, p, out_len) is Ok,
        ({
            let c = spec_mbc_to_code(k, p)->Ok_0;
            let lower = match lowercase_first(c as char) {
                Some(x) => x as u32,
                None => c,
            };
            spec_mbc_to_code(k, spec_case_fold(k, false, p, out_len)->Ok_0) == Ok::<u32, Error>(
                lower,
            )
        }),
{
    let c = spec_mbc_to_code(k, p)->Ok_0;
    let f = spec_fold(k, false, c);
    if let Some(x) = lowercase_first(c as char) {
        vstd::utf8::char_is_scalar(x);
    }
    assert(round_trips(k, f));
    lemma_encode_len(k, f);
    let b = spec_code_to_mbc(k, f, out_len)->Ok_0;
    assert(spec_code_to_mbc(k, f, b.len()) == Ok::<Seq<u8>, Error>(b));
    law_write_then_read(k, f, b);
    assert(overwrite(b, b) =~= b);
}

/// Shift_JIS half-width katakana: every single byte in `0xA1..=0xDF` is a
/// one-byte character reading as `U+FF61 + (byte - 0xA1)`, and every code in
/// `U+FF61..=U+FF9F` is written as one byte that reads back as the code.
pub proof fn law_sjis_halfwidth_katakana(p: Seq<u8>, code: u32, buf: Seq<u8>)
    ensures
        p.len() > 0 && 0xa1 <= p[0] <= 0xdf ==> spec_mbc_len(EncKind::Sjis, p) == Ok::<
            usize,
            Error,
        >(1) && spec_mbc_to_code(EncKind::Sjis, p) == Ok::<u32, Error>(
            (0xff61 + (p[0] - 0xa1)) as u32,
        ),
        0xff61 <= code <= 0xff9f && buf.len() >= 1 ==> spec_code_to_mbc(
            EncKind::Sjis,
            code,
            buf.len(),
        ) == Ok::<Seq<u8>, Error>(seq![(0xa1 + (code - 0xff61)) as u8]) && spec_mbc_to_code(
            EncKind::Sjis,
            overwrite(buf, seq![(0xa1 + (code - 0xff61)) as u8]),
        ) == Ok::<u32, Error>(code),
{
    if p.len() > 0 && 0xa1 <= p[0] <= 0xdf {
        assert(p.take(1) =~= seq![p[0]]);
    }
    if 0xff61 <= code <= 0xff9f && buf.len() >= 1 {
        let b = seq![(0xa1 + (code - 0xff61)) as u8];
        let w = overwrite(buf, b);
        assert(w.take(1) =~= b);
        assert(w[0] == b[0]);
    }
}

/// EUC-CN writes the GB table's pair for a code whenever both bytes lie in
/// the EUC-CN rows `0xA1..=0xFE`, and that pair measures as one two-byte
/// character.
pub proof fn law_euccn_writes_row_pairs(code: u32, out_len: nat)
    requires
        code >= 0x80,
        crate::cjk::table_bytes(crate::cjk::CjkTable::Gb18030, code) is Some,
        ({
            let v = crate::cjk::table_bytes(crate::cjk::CjkTable::Gb18030, code)->Some_0;
            &&& v.len() == 2
            &&& 0xa1 <= v[0] <= 0xfe
            &&& 0xa1 <= v[1] <= 0xfe
        }),
        out_len >= 2,
    ensures
        spec_code_to_mbc(EncKind::EucCn, code, out_len) == Ok::<Seq<u8>, Error>(
            crate::cjk::table_bytes(crate::cjk::CjkTable::Gb18030, code)->Some_0,
        ),
        spec_mbc_len(
            EncKind::EucCn,
            crate::cjk::table_bytes(crate::cjk::CjkTable::Gb18030, code)->Some_0,
        ) == Ok::<usize, Error>(2),
{
}

/// The character lengths the lead byte announces in each table encoding, as
/// Oniguruma's tables give them.
pub open spec fn announced_len(k: EncKind, b: u8) -> nat {
    match k {
        EncKind::EucJp => if b == 0x8e || (0xa1 <= b <= 0xfe) {
            2
        } else if b == 0x8f {
            3
        } else {
            1
        },
        EncKind::EucTw => if b == 0x8e {
            4
        } else if 0xa1 <= b <= 0xfe {
            2
        } else {
            1
        },
        EncKind::EucKr | EncKind::EucCn => if 0xa1 <= b <= 0xfe {
            2
        } else {
            1
        },
        EncKind::Big5 => if 0x81 <= b <= 0xfe {
            2
        } else {
            1
        },
        EncKind::Sjis => if (0x81 <= b <= 0x9f) || (0xe0 <= b <= 0xfc) {
            2
        } else {
            1
        },
        _ => 1,
    }
}

/// In the table encodings a character is as long as its lead byte
/// announces; one running off the end of the input counts as one byte.
pub proof fn law_table_lead_lengths(k: EncKind, p: Seq<u8>)
    requires
        k is EucJp || k is EucTw || k is EucKr || k is EucCn || k is Big5 || k is Sjis,
        p.len() > 0,
    ensures
        spec_mbc_len(k, p) == Ok::<usize, Error>(
            if announced_len(k, p[0]) <= p.len() {
                announced_len(k, p[0]) as usize
            } else {
                1
            },
        ),
{
}

/// GB18030 lengths: ASCII is one byte; a lead byte in `0x81..=0xFE` starts a
/// four-byte sequence when the next byte is a digit `0x30..=0x39`, else a
/// two-byte one; other bytes are refused.
pub proof fn law_gb18030_lengths(p: Seq<u8>)
    requires
        p.len() >= 4,
    ensures
        p[0] < 0x80 ==> spec_mbc_len(EncKind::Gb18030, p) == Ok::<usize, Error>(1),
        0x81 <= p[0] <= 0xfe && 0x30 <= p[1] <= 0x39 ==> spec_mbc_len(EncKind::Gb18030, p)
            == Ok::<usize, Error>(4),
        0x81 <= p[0] <= 0xfe && !(0x30 <= p[1] <= 0x39) ==> spec_mbc_len(EncKind::Gb18030, p)
            == Ok::<usize, Error>(2),
        (p[0] == 0x80 || p[0] == 0xff) ==> spec_mbc_len(EncKind::Gb18030, p) == Err::<
            usize,
            Error,
        >(Error::InvalidGb18030),
{
}

/// A well-formed UTF-8 scalar at the front of the input is measured as one
/// character of its length and reads as its scalar value.
pub proof fn law_utf8_reads_scalars(p: Seq<u8>)
    requires
        vstd::utf8::valid_first_scalar(p),
    ensures
        spec_mbc_len(EncKind::Utf8, p) == Ok::<usize, Error>(
            vstd::utf8::length_of_first_scalar(p) as usize,
        ),
        spec_mbc_to_code(EncKind::Utf8, p) == Ok::<u32, Error>(vstd::utf8::decode_first_scalar(p)),
{
    lemma_utf8_scalar_len(p);
    let n = vstd::utf8::length_of_first_scalar(p);
    let b = p.take(n);
    assert(b[0] == p[0]);
    assert(forall|j: int| 0 <= j < n ==> b[j] == p[j]);
    assert(vstd::utf8::valid_first_scalar(b));
    assert(vstd::utf8::decode_first_scalar(b) == vstd::utf8::decode_first_scalar(p));
    assert(vstd::utf8::pop_first_scalar(b) =~= Seq::<u8>::empty());
    reveal_with_fuel(vstd::utf8::valid_utf8, 2);
}


/// The encodings whose codes come from the bytes alone, with no table.
pub open spec fn tableless(k: EncKind) -> bool {
    !(k is Sjis || k is Big5 || k is EucJp || k is EucCn || k is Gb18030)
}

proof fn lemma_newline_code_utf8(p: Seq<u8>)
    requires
        spec_mbc_to_code(EncKind::Utf8, p) == Ok::<u32, Error>(0x0a),
    ensures
        p[0] == 0x0a,
{
    let n = spec_mbc_len(EncKind::Utf8, p)->Ok_0;
    let b = p.take(n as int);
    assert(b[0] == p[0]);
    if vstd::utf8::valid_utf8(b) {
        assert(vstd::utf8::valid_first_scalar(b));
        let b0 = b[0];
        assert(b0 <= 0x7f && (b0 & 0x7F) as u32 == 0x0a ==> b0 == 0x0a) by (bit_vector);
    }
}

proof fn lemma_newline_code_utf32(b0: u8, b1: u8, b2: u8, b3: u8)
    ensures
        ((b0 as u32) << 24) | ((b1 as u32) << 16) | ((b2 as u32) << 8) | (b3 as u32) == 0x0a
            ==> b0 == 0 && b1 == 0 && b2 == 0 && b3 == 0x0a,
{
    assert(((b0 as u32) << 24) | ((b1 as u32) << 16) | ((b2 as u32) << 8) | (b3 as u32) == 0x0a
        ==> b0 == 0 && b1 == 0 && b2 == 0 && b3 == 0x0a) by (bit_vector);
}

proof fn lemma_pack_newline(b: Seq<u8>)
    requires
        1 <= b.len() <= 4,
        crate::mbc::spec_pack(b) == 0x0a,
    ensures
        b.len() == 1 ==> b[0] == 0x0a,
        b.len() > 1 ==> b[0] == 0,
{
    reveal_with_fuel(crate::mbc::spec_pack, 5);
    let e = Seq::<u8>::empty();
    if b.len() == 1 {
        assert(b.drop_last() =~= e);
        let x = b[0];
        assert(((0u32 << 8) | (x as u32)) == 0x0a ==> x == 0x0a) by (bit_vector);
    } else if b.len() == 2 {
        assert(b.drop_last().drop_last() =~= e);
        let (x, y) = (b[0], b[1]);
        assert(((((0u32 << 8) | (x as u32)) << 8) | (y as u32)) == 0x0a ==> x == 0)
            by (bit_vector);
    } else if b.len() == 3 {
        assert(b.drop_last().drop_last().drop_last() =~= e);
        let (x, y, z) = (b[0], b[1], b[2]);
        assert(((((((0u32 << 8) | (x as u32)) << 8) | (y as u32)) << 8) | (z as u32)) == 0x0a
            ==> x == 0) by (bit_vector);
    } else {
        assert(b.drop_last().drop_last().drop_last().drop_last() =~= e);
        let (x, y, z, w) = (b[0], b[1], b[2], b[3]);
        assert(((((((((0u32 << 8) | (x as u32)) << 8) | (y as u32)) << 8) | (z as u32)) << 8) | (
        w as u32)) == 0x0a ==> x == 0) by (bit_vector);
    }
}

/// A newline is the character U+000A: whenever `is_newline` holds, the
/// character at the front reads as U+000A; in every encoding whose codes come
/// from the bytes alone, the converse holds too; and in every encoding a
/// one-byte character reading as U+000A is a newline.
pub proof fn law_is_newline_reads_newline(k: EncKind, p: Seq<u8>)
    ensures
        spec_is_newline(k, p) ==> spec_mbc_to_code(k, p) == Ok::<u32, Error>(0x0a),
        tableless(k) && spec_mbc_to_code(k, p) == Ok::<u32, Error>(0x0a) ==> spec_is_newline(k, p),
        spec_mbc_len(k, p) == Ok::<usize, Error>(1) && spec_mbc_to_code(k, p) == Ok::<u32, Error>(
            0x0a,
        ) ==> spec_is_newline(k, p),
{
    lemma_mbc_len_bounds(k, p);
    if p.len() > 0 {
        assert(p.take(1) =~= seq![p[0]]);
        lemma_unpack_small(p[0] as u32);
        assert((p[0] as u32) as u8 == p[0]);
        if p[0] == 0x0a {
            lemma_utf8_encode_decode(0x0a);
            assert(vstd::utf8::encode_scalar(0x0a) =~= seq![0x0au8]) by {
                assert((0x0au32 & 0x7F) as u8 == 0x0a) by (bit_vector);
            }
        }
    }
    if p.len() >= 4 {
        lemma_newline_code_utf32(p[0], p[1], p[2], p[3]);
        lemma_newline_code_utf32(p[3], p[2], p[1], p[0]);
        let t = p.take(4);
        assert(t[0] == p[0] && t[1] == p[1] && t[2] == p[2] && t[3] == p[3]);
    }
    if p.len() >= 2 {
        let t2 = p.take(2);
        assert(t2[0] == p[0] && t2[1] == p[1]);
    }
    if spec_is_newline(k, p) {
        match k {
            EncKind::Utf32Be | EncKind::Utf32Le => {
                assert(((0u8 as u32) << 24) | ((0u8 as u32) << 16) | ((0u8 as u32) << 8) | (
                0x0au8 as u32) == 0x0a) by (bit_vector);
            },
            EncKind::Utf16Be | EncKind::Utf16Le => {
                assert(unit16(p, 0, k is Utf16Be) == 0x0a);
                assert(unit16(p.skip(0), 0, k is Utf16Be) == 0x0a);
                assert(p.skip(0) =~= p);
                assert(unit16(p.take(2), 0, k is Utf16Be) == 0x0a);
            },
            _ => {},
        }
    }
    if spec_mbc_to_code(k, p) == Ok::<u32, Error>(0x0a) {
        let n = spec_mbc_len(k, p)->Ok_0;
        let b = p.take(n as int);
        assert(b[0] == p[0]);
        match k {
            EncKind::Utf8 => lemma_newline_code_utf8(p),
            EncKind::EucKr | EncKind::EucTw => lemma_pack_newline(b),
            _ => {},
        }
    }
}


/// EUC-JP half-width katakana: `0x8E` followed by a byte in `0xA1..=0xDF` is
/// a two-byte character reading as `U+FF61 + (byte - 0xA1)`, and every code
/// in `U+FF61..=U+FF9F` is written as such a pair that reads back as the code.
pub proof fn law_eucjp_halfwidth_katakana(p: Seq<u8>, code: u32, buf: Seq<u8>)
    ensures
        p.len() >= 2 && p[0] == 0x8e && 0xa1 <= p[1] <= 0xdf ==> spec_mbc_len(EncKind::EucJp, p)
            == Ok::<usize, Error>(2) && spec_mbc_to_code(EncKind::EucJp, p) == Ok::<u32, Error>(
            (0xff61 + (p[1] - 0xa1)) as u32,
        ),
        0xff61 <= code <= 0xff9f && buf.len() >= 2 ==> spec_code_to_mbc(
            EncKind::EucJp,
            code,
            buf.len(),
        ) == Ok::<Seq<u8>, Error>(seq![0x8eu8, (0xa1 + (code - 0xff61)) as u8])
            && spec_mbc_to_code(
            EncKind::EucJp,
            overwrite(buf, seq![0x8eu8, (0xa1 + (code - 0xff61)) as u8]),
        ) == Ok::<u32, Error>(code),
{
    if p.len() >= 2 && p[0] == 0x8e && 0xa1 <= p[1] <= 0xdf {
        let t = p.take(2);
        assert(t[0] == p[0] && t[1] == p[1]);
    }
    if 0xff61 <= code <= 0xff9f && buf.len() >= 2 {
        let b = seq![0x8eu8, (0xa1 + (code - 0xff61)) as u8];
        let w = overwrite(buf, b);
        assert(w.take(2) =~= b);
        assert(w[0] == b[0] && w[1] == b[1]);
    }
}

/// UTF-16 reads unit by unit: a unit that is not a high surrogate is a
/// two-byte character reading as itself; a high surrogate followed by a low
/// one is a four-byte character reading as the scalar the pair encodes; a
/// high surrogate followed by anything else is four bytes reading as the
/// high unit itself.
pub proof fn law_utf16_reads_units(p: Seq<u8>, be: bool)
    requires
        p.len() >= 2,
    ensures
        ({
            let k = utf16_kind(be);
            let w = unit16(p, 0, be);
            &&& !(0xd800 <= w <= 0xdbff) ==> spec_mbc_len(k, p) == Ok::<usize, Error>(2)
                && spec_mbc_to_code(k, p) == Ok::<u32, Error>(w as u32)
            &&& p.len() >= 4 && 0xd800 <= w <= 0xdbff && 0xdc00 <= unit16(p, 2, be) <= 0xdfff
                ==> spec_mbc_len(k, p) == Ok::<usize, Error>(4) && spec_mbc_to_code(k, p) == Ok::<
                u32,
                Error,
            >((0x10000 + (w - 0xd800) * 0x400 + (unit16(p, 2, be) - 0xdc00)) as u32)
            &&& p.len() >= 4 && 0xd800 <= w <= 0xdbff && !(0xdc00 <= unit16(p, 2, be) <= 0xdfff)
                ==> spec_mbc_to_code(k, p) == Ok::<u32, Error>(w as u32)
        }),
{
    let t2 = p.take(2);
    assert(t2[0] == p[0] && t2[1] == p[1]);
    if p.len() >= 4 {
        let t4 = p.take(4);
        assert(t4[0] == p[0] && t4[1] == p[1] && t4[2] == p[2] && t4[3] == p[3]);
    }
}

/// ASCII-only folding (asked for, or forced by a non-Unicode encoding) turns
/// `A..=Z` into `a..=z` and leaves every other code as it is: the folded
/// character reads as that code.
pub proof fn law_case_fold_ascii_only(k: EncKind, ascii_only: bool, p: Seq<u8>, out_len: nat)
    requires
        ascii_only || !spec_is_unicode(k),
        spec_mbc_to_code(k, p) is Ok,
        round_trips(k, spec_mbc_to_code(k, p)->Ok_0),
        out_len >= 4,
    ensures
        spec_case_fold(k, ascii_only, p, out_len) is Ok,
        ({
            let c = spec_mbc_to_code(k, p)->Ok_0;
            spec_mbc_to_code(k, spec_case_fold(k, ascii_only, p, out_len)->Ok_0) == Ok::<
                u32,
                Error,
            >(
                if 0x41 <= c <= 0x5a {
                    (c + 32) as u32
                } else {
                    c
                },
            )
        }),
{
    let c = spec_mbc_to_code(k, p)->Ok_0;
    let f = spec_fold(k, ascii_only, c);
    assert(round_trips(k, f));
    lemma_encode_len(k, f);
    let b = spec_code_to_mbc(k, f, out_len)->Ok_0;
    assert(spec_code_to_mbc(k, f, b.len()) == Ok::<Seq<u8>, Error>(b));
    law_write_then_read(k, f, b);
    assert(overwrite(b, b) =~= b);
}

/// In the table encodings a one-byte character reads as its byte, except
/// Shift_JIS half-width katakana (`0xA1..=0xDF`).
pub proof fn law_one_byte_chars_read_as_bytes(k: EncKind, p: Seq<u8>)
    requires
        k is EucJp || k is EucTw || k is EucKr || k is EucCn || k is Big5 || k is Sjis || k is Gb18030,
        spec_mbc_len(k, p) == Ok::<usize, Error>(1),
        !(k is Sjis && 0xa1 <= p[0] <= 0xdf),
    ensures
        spec_mbc_to_code(k, p) == Ok::<u32, Error>(p[0] as u32),
{
    assert(p.take(1) =~= seq![p[0]]);
    lemma_unpack_small(p[0] as u32);
    assert((p[0] as u32) as u8 == p[0]);
}

} // verus!
