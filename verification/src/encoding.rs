//! Big-endian byte images of the fixed-width words the on-disk stores use:
//! 32-bit coordinate words and 64-bit point IDs, most significant byte first.

use vstd::prelude::*;

verus! {

/// The 4-byte big-endian image of a 32-bit word.
pub open spec fn u32_be_bytes(x: u32) -> Seq<u8> {
    seq![
        ((x >> 24) & 0xff) as u8,
        ((x >> 16) & 0xff) as u8,
        ((x >> 8) & 0xff) as u8,
        (x & 0xff) as u8,
    ]
}

/// The 32-bit word a 4-byte big-endian image stands for.
pub open spec fn u32_of_be_bytes(s: Seq<u8>) -> u32
    recommends
        s.len() == 4,
{
    (s[0] as u32) << 24 | (s[1] as u32) << 16 | (s[2] as u32) << 8 | (s[3] as u32)
}

/// The 8-byte big-endian image of a 64-bit word.
pub open spec fn u64_be_bytes(x: u64) -> Seq<u8> {
    seq![
        ((x >> 56) & 0xff) as u8,
        ((x >> 48) & 0xff) as u8,
        ((x >> 40) & 0xff) as u8,
        ((x >> 32) & 0xff) as u8,
        ((x >> 24) & 0xff) as u8,
        ((x >> 16) & 0xff) as u8,
        ((x >> 8) & 0xff) as u8,
        (x & 0xff) as u8,
    ]
}

/// The 64-bit word an 8-byte big-endian image stands for.
pub open spec fn u64_of_be_bytes(s: Seq<u8>) -> u64
    recommends
        s.len() == 8,
{
    (s[0] as u64) << 56 | (s[1] as u64) << 48 | (s[2] as u64) << 40 | (s[3] as u64) << 32
        | (s[4] as u64) << 24 | (s[5] as u64) << 16 | (s[6] as u64) << 8 | (s[7] as u64)
}

/// Decoding the big-endian image of a 32-bit word gives the word back.
pub proof fn lemma_u32_be_round_trip(x: u32)
    ensures
        u32_of_be_bytes(u32_be_bytes(x)) == x,
{
    assert(((x >> 24) & 0xff) < 256 && ((x >> 16) & 0xff) < 256 && ((x >> 8) & 0xff) < 256 && (x
        & 0xff) < 256) by (bit_vector);
    assert(x == ((x >> 24) & 0xff) << 24 | ((x >> 16) & 0xff) << 16 | ((x >> 8) & 0xff) << 8 | (x
        & 0xff)) by (bit_vector);
}

/// Decoding the big-endian image of a 64-bit word gives the word back.
pub proof fn lemma_u64_be_round_trip(x: u64)
    ensures
        u64_of_be_bytes(u64_be_bytes(x)) == x,
{
    assert(((x >> 56) & 0xff) < 256 && ((x >> 48) & 0xff) < 256 && ((x >> 40) & 0xff) < 256 && ((x
        >> 32) & 0xff) < 256 && ((x >> 24) & 0xff) < 256 && ((x >> 16) & 0xff) < 256 && ((x >> 8)
        & 0xff) < 256 && (x & 0xff) < 256) by (bit_vector);
    assert(x == ((x >> 56) & 0xff) << 56 | ((x >> 48) & 0xff) << 48 | ((x >> 40) & 0xff) << 40 | ((
    x >> 32) & 0xff) << 32 | ((x >> 24) & 0xff) << 24 | ((x >> 16) & 0xff) << 16 | ((x >> 8)
        & 0xff) << 8 | (x & 0xff)) by (bit_vector);
}

/// Append the big-endian image of a 32-bit word to a byte buffer.
pub fn push_u32_be(out: &mut Vec<u8>, x: u32)
    ensures
        final(out)@ == old(out)@ + u32_be_bytes(x),
{
    out.push(((x >> 24) & 0xff) as u8);
    out.push(((x >> 16) & 0xff) as u8);
    out.push(((x >> 8) & 0xff) as u8);
    out.push((x & 0xff) as u8);
    proof {
        assert(out@ =~= old(out)@ + u32_be_bytes(x));
    }
}

/// Append the big-endian image of a 64-bit word to a byte buffer.
pub fn push_u64_be(out: &mut Vec<u8>, x: u64)
    ensures
        final(out)@ == old(out)@ + u64_be_bytes(x),
{
    out.push(((x >> 56) & 0xff) as u8);
    out.push(((x >> 48) & 0xff) as u8);
    out.push(((x >> 40) & 0xff) as u8);
    out.push(((x >> 32) & 0xff) as u8);
    out.push(((x >> 24) & 0xff) as u8);
    out.push(((x >> 16) & 0xff) as u8);
    out.push(((x >> 8) & 0xff) as u8);
    out.push((x & 0xff) as u8);
    proof {
        assert(out@ =~= old(out)@ + u64_be_bytes(x));
    }
}

/// Read the 32-bit word whose big-endian image starts at byte `i`.
pub fn read_u32_be(data: &Vec<u8>, i: usize) -> (x: u32)
    requires
        i + 4 <= data@.len(),
    ensures
        x == u32_of_be_bytes(data@.subrange(i as int, i + 4)),
{
    // the exec length call carries the byte count's usize bound,
    // which the index arithmetic below needs
    let _bound: usize = data.len();
    let b0: u32 = data[i] as u32;
    let b1: u32 = data[i + 1] as u32;
    let b2: u32 = data[i + 2] as u32;
    let b3: u32 = data[i + 3] as u32;
    proof {
        let s = data@.subrange(i as int, i + 4);
        assert(s[0] == data@[i as int] && s[1] == data@[i + 1] && s[2] == data@[i + 2] && s[3]
            == data@[i + 3]);
    }
    b0 << 24u32 | b1 << 16u32 | b2 << 8u32 | b3
}

/// Read the 64-bit word whose big-endian image starts at byte `i`.
pub fn read_u64_be(data: &Vec<u8>, i: usize) -> (x: u64)
    requires
        i + 8 <= data@.len(),
    ensures
        x == u64_of_be_bytes(data@.subrange(i as int, i + 8)),
{
    // as above: the length call carries the byte count's usize bound
    let _bound: usize = data.len();
    let b0: u64 = data[i] as u64;
    let b1: u64 = data[i + 1] as u64;
    let b2: u64 = data[i + 2] as u64;
    let b3: u64 = data[i + 3] as u64;
    let b4: u64 = data[i + 4] as u64;
    let b5: u64 = data[i + 5] as u64;
    let b6: u64 = data[i + 6] as u64;
    let b7: u64 = data[i + 7] as u64;
    proof {
        let s = data@.subrange(i as int, i + 8);
        assert(s[0] == data@[i as int] && s[1] == data@[i + 1] && s[2] == data@[i + 2] && s[3]
            == data@[i + 3] && s[4] == data@[i + 4] && s[5] == data@[i + 5] && s[6] == data@[i + 6]
            && s[7] == data@[i + 7]);
    }
    b0 << 56u64 | b1 << 48u64 | b2 << 40u64 | b3 << 32u64 | b4 << 24u64 | b5 << 16u64 | b6 << 8u64
        | b7
}

} // verus!
