//! The snapshot length codec: tagged variable-width integers. The top two
//! bits of the first byte select the encoding class.

use vstd::prelude::*;
use crate::store::RedisData;

verus! {

/// The 32-bit big-endian integer formed by the four bytes of `c` at `p`.
pub open spec fn be32_at(c: Seq<u8>, p: int) -> int {
    c[p] * 0x1000000 + c[p + 1] * 0x10000 + c[p + 2] * 0x100 + c[p + 3]
}

/// One length decode from `c` at cursor `p`: the decoded value (absent on
/// truncation) and the cursor position after the attempt.
///
/// Tag `00` takes the low six bits; tag `01` adds one byte for a 14-bit
/// value; tag `10` takes the next four bytes big-endian; tag `11` (the
/// special class) falls back to the low six bits, a known limitation kept
/// as it stands.
pub open spec fn decode_len_spec(c: Seq<u8>, p: int) -> (Option<usize>, int) {
    if !(0 <= p < c.len()) {
        (None::<usize>, p)
    } else {
        let b = c[p];
        if b / 64 == 0 {
            (Some((b % 64) as usize), p + 1)
        } else if b / 64 == 1 {
            if p + 1 < c.len() {
                (Some(((b % 64) * 256 + c[p + 1]) as usize), p + 2)
            } else {
                (None::<usize>, p + 1)
            }
        } else if b / 64 == 2 {
            if p + 4 < c.len() {
                (Some(be32_at(c, p + 1) as usize), p + 5)
            } else {
                (None::<usize>, p + 1)
            }
        } else {
            (Some((b % 64) as usize), p + 1)
        }
    }
}

impl RedisData {
    /// Decode one tagged length at the cursor, advancing it; truncated
    /// input yields `None` rather than a read past the end.
    pub fn decode_length(&self, content: &Vec<u8>, cursor: &mut usize) -> (r: Option<usize>)
        ensures
            r == decode_len_spec(content@, *old(cursor) as int).0,
            *final(cursor) as int == decode_len_spec(content@, *old(cursor) as int).1,
    {
        if *cursor >= content.len() {
            return None;
        }
        let first_byte: u8 = content[*cursor];
        *cursor += 1;
        let tag: u8 = first_byte >> 6;
        proof {
            assert(first_byte >> 6 == first_byte / 64) by (bit_vector);
            assert(first_byte & 0x3F == first_byte % 64) by (bit_vector);
        }
        if tag == 0 {
            Some((first_byte & 0x3F) as usize)
        } else if tag == 1 {
            if *cursor < content.len() {
                let second_byte: u8 = content[*cursor];
                *cursor += 1;
                Some(((first_byte & 0x3F) as usize) * 256 + (second_byte as usize))
            } else {
                None
            }
        } else if tag == 2 {
            if content.len() - *cursor > 3 {
                let b0 = content[*cursor];
                let b1 = content[*cursor + 1];
                let b2 = content[*cursor + 2];
                let b3 = content[*cursor + 3];
                *cursor += 4;
                Some(
                    (b0 as usize) * 0x1000000 + (b1 as usize) * 0x10000 + (b2 as usize) * 0x100
                        + (b3 as usize),
                )
            } else {
                None
            }
        } else {
            Some((first_byte & 0x3F) as usize)
        }
    }
}

/// Encode `n` in its tag class: `00` below 64, `01` below 16384, `10`
/// otherwise. Decoding the result recovers `n` exactly and consumes the
/// whole encoding: the codec round trip.
pub fn encode_length(n: u32) -> (r: Vec<u8>)
    ensures
        decode_len_spec(r@, 0).0 == Some(n as usize),
        decode_len_spec(r@, 0).1 == r@.len() as int,
        r@.len() == if n < 64 { 1int } else if n < 16384 { 2int } else { 5int },
{
    let mut out: Vec<u8> = Vec::new();
    if n < 64 {
        let b: u8 = n as u8;
        out.push(b);
        proof {
            let b0 = out@[0];
            assert(n < 64 ==> (n as u8) / 64 == 0 && ((n as u8) % 64) as u32 == n) by (bit_vector);
            assert(b0 / 64 == 0 && (b0 % 64) as u32 == n);
        }
    } else if n < 16384 {
        proof {
            assert(n < 16384 ==> (n >> 8) < 64 && (n & 0xFF) < 256) by (bit_vector);
        }
        let hi: u8 = 0x40 | ((n >> 8) as u8);
        let lo: u8 = (n & 0xFF) as u8;
        out.push(hi);
        out.push(lo);
        proof {
            let x: u8 = (n >> 8) as u8;
            assert(x < 64 ==> (0x40 | x) / 64 == 1 && (0x40 | x) % 64 == x) by (bit_vector);
            assert(n < 16384 ==> (((n >> 8) as u8) as u32) * 256 + (n & 0xFF) == n
                && ((n >> 8) as u8) < 64) by (bit_vector);
            assert(out@[0] / 64 == 1);
            assert((out@[0] % 64) * 256 + out@[1] == n);
        }
    } else {
        let b1: u8 = ((n >> 24) & 0xFF) as u8;
        let b2: u8 = ((n >> 16) & 0xFF) as u8;
        let b3: u8 = ((n >> 8) & 0xFF) as u8;
        let b4: u8 = (n & 0xFF) as u8;
        out.push(0x80);
        out.push(b1);
        out.push(b2);
        out.push(b3);
        out.push(b4);
        proof {
            assert(((n >> 24) & 0xFF) < 256 && ((n >> 16) & 0xFF) < 256 && ((n >> 8) & 0xFF) < 256
                && (n & 0xFF) < 256) by (bit_vector);
            assert(((((n >> 24) & 0xFF) as u8) as u32) * 0x1000000
                + ((((n >> 16) & 0xFF) as u8) as u32) * 0x10000
                + ((((n >> 8) & 0xFF) as u8) as u32) * 0x100 + (((n & 0xFF) as u8) as u32) == n)
                by (bit_vector);
            assert(out@[0] == 0x80 && out@[1] == b1 && out@[2] == b2 && out@[3] == b3
                && out@[4] == b4);
            assert(be32_at(out@, 1) == n);
        }
    }
    out
}

} // verus!
