//! Lead-byte length tables: how many bytes a character occupies, read from
//! its first byte, for each multi-byte encoding whose length is fixed by the
//! lead byte alone.
//!
//! The ranges are Oniguruma's own per-encoding tables. None of them looks at
//! a trail byte: Oniguruma's character walk does not either.

use vstd::prelude::*;

verus! {

/// UTF-8 length by lead byte, as Oniguruma's table gives it: a continuation
/// byte, or a byte above `0xF7` that starts no scalar, counts as a one-byte
/// character.
pub open spec fn utf8_lead_len(b: u8) -> nat {
    if b < 0xc0 {
        1
    } else if b < 0xe0 {
        2
    } else if b < 0xf0 {
        3
    } else if b < 0xf8 {
        4
    } else {
        1
    }
}

/// The encodings whose character length comes from a lead-byte table.
#[derive(Clone, Copy, Debug, PartialEq, Eq, Structural)]
pub enum LenTable {
    Sjis,
    Big5,
    EucJp,
    EucTw,
    EucKr,
    EucCn,
}

/// Character length by lead byte for each table encoding.
pub open spec fn table_lead_len(t: LenTable, b: u8) -> nat {
    match t {
        // 0x81..=0x9F and 0xE0..=0xFC lead a two-byte character.
        LenTable::Sjis => if (0x81 <= b <= 0x9f) || (0xe0 <= b <= 0xfc) { 2 } else { 1 },
        LenTable::Big5 => if 0x81 <= b <= 0xfe { 2 } else { 1 },
        // 0x8E: half-width katakana; 0x8F: JIS X 0212.
        LenTable::EucJp => if b == 0x8e {
            2
        } else if b == 0x8f {
            3
        } else if 0xa1 <= b <= 0xfe {
            2
        } else {
            1
        },
        // 0x8E opens a four-byte CNS 11643 plane sequence.
        LenTable::EucTw => if b == 0x8e {
            4
        } else if 0xa1 <= b <= 0xfe {
            2
        } else {
            1
        },
        LenTable::EucKr | LenTable::EucCn => if 0xa1 <= b <= 0xfe { 2 } else { 1 },
    }
}

/// The length of the UTF-8 character that `b0` begins, Oniguruma's way.
///
/// A byte that starts nothing valid is one character long, not an error:
/// Oniguruma scans undecodable input rather than refusing it.
pub fn utf8_len(b0: u8) -> (n: usize)
    ensures
        n == utf8_lead_len(b0),
{
    if b0 < 0xc0 {
        1
    } else if b0 < 0xe0 {
        2
    } else if b0 < 0xf0 {
        3
    } else if b0 < 0xf8 {
        4
    } else {
        1
    }
}

/// The lead-byte length for `b` in table `t`.
pub fn lead_len(t: LenTable, b: u8) -> (n: usize)
    ensures
        n == table_lead_len(t, b),
{
    match t {
        LenTable::Sjis => if (0x81 <= b && b <= 0x9f) || (0xe0 <= b && b <= 0xfc) { 2 } else { 1 },
        LenTable::Big5 => if 0x81 <= b && b <= 0xfe { 2 } else { 1 },
        LenTable::EucJp => if b == 0x8e {
            2
        } else if b == 0x8f {
            3
        } else if 0xa1 <= b && b <= 0xfe {
            2
        } else {
            1
        },
        LenTable::EucTw => if b == 0x8e {
            4
        } else if 0xa1 <= b && b <= 0xfe {
            2
        } else {
            1
        },
        LenTable::EucKr | LenTable::EucCn => if 0xa1 <= b && b <= 0xfe { 2 } else { 1 },
    }
}

/// Character length for a table encoding, as Oniguruma's `enclen` gives it:
/// a character that would run past the end of the buffer counts as one byte.
pub open spec fn spec_table_len(t: LenTable, p: Seq<u8>) -> nat
    recommends
        p.len() > 0,
{
    let n = table_lead_len(t, p[0]);
    if n > p.len() { 1 } else { n }
}

/// Character length from a lead-byte table, clipped to the buffer as
/// Oniguruma does with a `NEEDMORE` result.
pub fn table_len(t: LenTable, p: &[u8]) -> (n: usize)
    requires
        p@.len() > 0,
    ensures
        n == spec_table_len(t, p@),
        1 <= n <= p@.len(),
{
    let n = lead_len(t, p[0]);
    if n > p.len() {
        1
    } else {
        n
    }
}

} // verus!
