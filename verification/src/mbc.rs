//! Multi-byte characters as packed integers (the raw byte value of a
//! character, first byte most significant), and the GB18030 length rule.

use vstd::prelude::*;

use crate::error::Error;
use crate::utf::overwrite;

verus! {

/// The bytes of a character packed into one integer, first byte most
/// significant; bytes beyond the fourth push the earliest ones out.
pub open spec fn spec_pack(b: Seq<u8>) -> u32
    decreases b.len(),
{
    if b.len() == 0 {
        0
    } else {
        (spec_pack(b.drop_last()) << 8) | (b.last() as u32)
    }
}

/// Pack the bytes of a character into its raw code.
pub fn pack_mbc(b: &[u8]) -> (v: u32)
    ensures
        v == spec_pack(b@),
{
    let mut v: u32 = 0;
    let mut i: usize = 0;
    while i < b.len()
        invariant
            i <= b@.len(),
            v == spec_pack(b@.take(i as int)),
        decreases b@.len() - i,
    {
        assert(b@.take(i + 1).drop_last() =~= b@.take(i as int));
        v = (v << 8) | (b[i] as u32);
        i += 1;
    }
    assert(b@.take(i as int) =~= b@);
    v
}

/// How many bytes a raw code takes when written back out: its significant
/// bytes, at least one.
pub open spec fn packed_width(code: u32) -> nat {
    if code <= 0xff {
        1
    } else if code <= 0xffff {
        2
    } else if code <= 0xff_ffff {
        3
    } else {
        4
    }
}

/// The significant bytes of a raw code, most significant first.
pub open spec fn spec_unpack(code: u32) -> Seq<u8> {
    let n = packed_width(code);
    Seq::new(n, |j: int| (code >> ((8 * (n - 1 - j)) as u32)) as u8)
}

/// Write the raw code back out as bytes at the front of `out`.
pub fn unpack_mbc(code: u32, out: &mut [u8]) -> (r: Result<usize, Error>)
    ensures
        old(out)@.len() < packed_width(code) ==> r == Err::<usize, Error>(Error::ShortBuffer),
        old(out)@.len() >= packed_width(code) ==> r == Ok::<usize, Error>(
            packed_width(code) as usize,
        ),
        r is Ok ==> final(out)@ == overwrite(old(out)@, spec_unpack(code)),
        r is Err ==> final(out)@ == old(out)@,
{
    let n: usize = if code <= 0xff {
        1
    } else if code <= 0xffff {
        2
    } else if code <= 0xff_ffff {
        3
    } else {
        4
    };
    if out.len() < n {
        return Err(Error::ShortBuffer);
    }
    let ghost old_out = out@;
    let mut i: usize = 0;
    while i < n
        invariant
            n == packed_width(code),
            n <= out@.len(),
            out@.len() == old_out.len(),
            i <= n,
            forall|k: int|
                0 <= k < out@.len() ==> #[trigger] out@[k] == if n - i <= k < n {
                    spec_unpack(code)[k]
                } else {
                    old_out[k]
                },
        decreases n - i,
    {
        out[n - 1 - i] = (code >> ((8 * i) as u32)) as u8;
        i += 1;
    }
    assert(out@ =~= overwrite(old_out, spec_unpack(code)));
    Ok(n)
}

/// A written raw code packs back to itself.
pub proof fn lemma_unpack_pack(code: u32)
    ensures
        spec_pack(spec_unpack(code)) == code,
{
    let u = spec_unpack(code);
    reveal_with_fuel(spec_pack, 5);
    if code <= 0xff {
        assert(u.drop_last() =~= Seq::<u8>::empty());
        assert(code <= 0xff ==> ((0u32 << 8) | ((code >> 0u32) as u8) as u32) == code)
            by (bit_vector);
    } else if code <= 0xffff {
        assert(u.drop_last().drop_last() =~= Seq::<u8>::empty());
        assert(0xff < code <= 0xffff ==> ((((0u32 << 8) | ((code >> 8u32) as u8) as u32) << 8)
            | ((code >> 0u32) as u8) as u32) == code) by (bit_vector);
    } else if code <= 0xff_ffff {
        assert(u.drop_last().drop_last().drop_last() =~= Seq::<u8>::empty());
        assert(0xffff < code <= 0xff_ffff ==> ((((((0u32 << 8) | ((code >> 16u32) as u8) as u32)
            << 8) | ((code >> 8u32) as u8) as u32) << 8) | ((code >> 0u32) as u8) as u32) == code)
            by (bit_vector);
    } else {
        assert(u.drop_last().drop_last().drop_last().drop_last() =~= Seq::<u8>::empty());
        assert(((((((((0u32 << 8) | ((code >> 24u32) as u8) as u32) << 8) | ((code
            >> 16u32) as u8) as u32) << 8) | ((code >> 8u32) as u8) as u32) << 8) | ((code
            >> 0u32) as u8) as u32) == code) by (bit_vector);
    }
}

/// Length of the GB18030 character at the front of `p`: ASCII is one byte, a
/// second byte in `0x30..=0x39` makes a four-byte sequence, else two.
pub open spec fn spec_gb18030_len(p: Seq<u8>) -> Result<usize, Error>
    recommends
        p.len() > 0,
{
    if p[0] < 0x80 {
        Ok(1)
    } else if !(0x81 <= p[0] <= 0xfe) {
        Err(Error::InvalidGb18030)
    } else if p.len() < 2 {
        Err(Error::TruncatedGb18030)
    } else if 0x30 <= p[1] <= 0x39 {
        if p.len() < 4 {
            Err(Error::TruncatedGb18030)
        } else {
            Ok(4)
        }
    } else {
        Ok(2)
    }
}

pub fn gb18030_len(p: &[u8]) -> (r: Result<usize, Error>)
    requires
        p@.len() > 0,
    ensures
        r == spec_gb18030_len(p@),
{
    let b0 = p[0];
    if b0 < 0x80 {
        return Ok(1);
    }
    if !(0x81 <= b0 && b0 <= 0xfe) {
        return Err(Error::InvalidGb18030);
    }
    if p.len() < 2 {
        return Err(Error::TruncatedGb18030);
    }
    let b1 = p[1];
    if 0x30 <= b1 && b1 <= 0x39 {
        if p.len() < 4 {
            return Err(Error::TruncatedGb18030);
        }
        Ok(4)
    } else {
        Ok(2)
    }
}

} // verus!
