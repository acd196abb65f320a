//! Byte-level helpers for the frame codec: the big-endian encoding of
//! 32-bit sizes and trimming of the zero padding that fills the fixed
//! request-line area of a header.
use vstd::prelude::*;

verus! {

/// The four-byte big-endian encoding of a 32-bit value.
pub open spec fn be32(x: u32) -> Seq<u8> {
    seq![
        ((x >> 24) & 0xff) as u8,
        ((x >> 16) & 0xff) as u8,
        ((x >> 8) & 0xff) as u8,
        (x & 0xff) as u8,
    ]
}

/// The 32-bit value read from four bytes in big-endian order.
pub open spec fn from_be32(b0: u8, b1: u8, b2: u8, b3: u8) -> u32 {
    ((b0 as u32) << 24) | ((b1 as u32) << 16) | ((b2 as u32) << 8) | (b3 as u32)
}

/// A sequence of `n` zero bytes.
pub open spec fn zero_seq(n: nat) -> Seq<u8> {
    Seq::new(n, |i: int| 0u8)
}

/// `s` with every trailing zero byte removed.
pub open spec fn trim_zeros(s: Seq<u8>) -> Seq<u8>
    decreases s.len(),
{
    if s.len() > 0 && s.last() == 0 {
        trim_zeros(s.drop_last())
    } else {
        s
    }
}

/// Decoding the big-endian encoding gives the value back.
pub proof fn lemma_be32_round_trip(x: u32)
    ensures
        from_be32(be32(x)[0], be32(x)[1], be32(x)[2], be32(x)[3]) == x,
{
    assert(((((x >> 24) & 0xff) as u8 as u32) << 24) | ((((x >> 16) & 0xff) as u8 as u32) << 16)
        | ((((x >> 8) & 0xff) as u8 as u32) << 8) | ((x & 0xff) as u8 as u32) == x)
        by (bit_vector);
}

/// Encoding the value read from four bytes gives the bytes back.
pub proof fn lemma_from_be32_round_trip(b0: u8, b1: u8, b2: u8, b3: u8)
    ensures
        be32(from_be32(b0, b1, b2, b3)) =~= seq![b0, b1, b2, b3],
{
    let x = from_be32(b0, b1, b2, b3);
    assert(((((b0 as u32) << 24) | ((b1 as u32) << 16) | ((b2 as u32) << 8) | (b3 as u32)) >> 24)
        & 0xff == b0) by (bit_vector);
    assert(((((b0 as u32) << 24) | ((b1 as u32) << 16) | ((b2 as u32) << 8) | (b3 as u32)) >> 16)
        & 0xff == b1) by (bit_vector);
    assert(((((b0 as u32) << 24) | ((b1 as u32) << 16) | ((b2 as u32) << 8) | (b3 as u32)) >> 8)
        & 0xff == b2) by (bit_vector);
    assert((((b0 as u32) << 24) | ((b1 as u32) << 16) | ((b2 as u32) << 8) | (b3 as u32)) & 0xff
        == b3) by (bit_vector);
}

/// Zero padding on the right does not change the trimmed sequence.
pub proof fn lemma_trim_zeros_pad(s: Seq<u8>, n: nat)
    ensures
        trim_zeros(s + zero_seq(n)) == trim_zeros(s),
    decreases n,
{
    if n == 0 {
        assert(s + zero_seq(0) =~= s);
    } else {
        let padded = s + zero_seq(n);
        assert(padded.last() == 0);
        assert(padded.drop_last() =~= s + zero_seq((n - 1) as nat));
        lemma_trim_zeros_pad(s, (n - 1) as nat);
    }
}

/// Every sequence is its trimmed part followed by zeros, and the trimmed
/// part never ends in a zero byte.
pub proof fn lemma_trim_zeros_shape(s: Seq<u8>)
    ensures
        trim_zeros(s).len() <= s.len(),
        s =~= trim_zeros(s) + zero_seq((s.len() - trim_zeros(s).len()) as nat),
        trim_zeros(s).len() > 0 ==> trim_zeros(s).last() != 0,
        trim_zeros(s) =~= s.subrange(0, trim_zeros(s).len() as int),
    decreases s.len(),
{
    if s.len() > 0 && s.last() == 0 {
        lemma_trim_zeros_shape(s.drop_last());
        let t = trim_zeros(s);
        assert(t == trim_zeros(s.drop_last()));
        assert forall|i: int| 0 <= i < s.len() implies s[i] == (t + zero_seq(
            (s.len() - t.len()) as nat,
        ))[i] by {
            if i < s.len() - 1 {
                assert(s.drop_last()[i] == (t + zero_seq(
                    (s.len() - 1 - t.len()) as nat,
                ))[i]);
            }
        }
        assert forall|i: int| 0 <= i < t.len() implies t[i] == s[i] by {
            assert(t[i] == s.drop_last()[i]);
        }
    }
}

/// Writes the big-endian encoding of `x` at the end of `out`.
pub fn push_be32(out: &mut Vec<u8>, x: u32)
    ensures
        final(out)@ == old(out)@ + be32(x),
{
    proof {
        assert((x >> 24) & 0xff < 256 && (x >> 16) & 0xff < 256 && (x >> 8) & 0xff < 256 && x
            & 0xff < 256) by (bit_vector);
    }
    out.push(((x >> 24) & 0xff) as u8);
    out.push(((x >> 16) & 0xff) as u8);
    out.push(((x >> 8) & 0xff) as u8);
    out.push((x & 0xff) as u8);
    assert(out@ =~= old(out)@ + be32(x));
}

/// Reads the 32-bit big-endian value stored at `offset` in `bytes`.
pub fn read_be32(bytes: &[u8], offset: usize) -> (r: u32)
    requires
        offset + 4 <= bytes@.len(),
    ensures
        r == from_be32(
            bytes@[offset as int],
            bytes@[offset + 1],
            bytes@[offset + 2],
            bytes@[offset + 3],
        ),
{
    let b0 = bytes[offset];
    let b1 = bytes[offset + 1];
    let b2 = bytes[offset + 2];
    let b3 = bytes[offset + 3];
    ((b0 as u32) << 24) | ((b1 as u32) << 16) | ((b2 as u32) << 8) | (b3 as u32)
}

/// The length of `bytes` once trailing zero bytes are dropped.
pub fn trimmed_length(bytes: &[u8]) -> (n: usize)
    ensures
        n <= bytes@.len(),
        trim_zeros(bytes@) == bytes@.subrange(0, n as int),
{
    let mut n: usize = bytes.len();
    proof {
        assert(bytes@.subrange(0, n as int) =~= bytes@);
    }
    while n > 0 && bytes[n - 1] == 0
        invariant
            n <= bytes@.len(),
            trim_zeros(bytes@) == trim_zeros(bytes@.subrange(0, n as int)),
        decreases n,
    {
        proof {
            let prefix = bytes@.subrange(0, n as int);
            assert(prefix.last() == 0);
            assert(prefix.drop_last() =~= bytes@.subrange(0, n - 1));
        }
        n = n - 1;
    }
    proof {
        let prefix = bytes@.subrange(0, n as int);
        if n == 0 {
            assert(prefix =~= Seq::<u8>::empty());
        } else {
            assert(prefix.last() != 0);
        }
        assert(trim_zeros(prefix) == prefix);
    }
    n
}

} // verus!
