//! The digest facility.
//!
//! Both ends of the protocol identify file contents by the same fixed
//! 256-bit digest, rendered as 64 lowercase hexadecimal characters. The
//! digest itself comes from an outside crate; the hexadecimal rendering is
//! verified here.
use vstd::prelude::*;
use vstd::string::StringExecFns;

verus! {

/// What the 256-bit digest of a byte sequence is. The value depends on
/// the input bytes alone; no shorter statement of it exists.
pub uninterp spec fn blake2s_of(data: Seq<u8>) -> Seq<u8>;

/// The lowercase hexadecimal digit for a value below sixteen.
pub open spec fn hex_digit(n: u8) -> char
    recommends
        n < 16,
{
    if n == 0 {
        '0'
    } else if n == 1 {
        '1'
    } else if n == 2 {
        '2'
    } else if n == 3 {
        '3'
    } else if n == 4 {
        '4'
    } else if n == 5 {
        '5'
    } else if n == 6 {
        '6'
    } else if n == 7 {
        '7'
    } else if n == 8 {
        '8'
    } else if n == 9 {
        '9'
    } else if n == 10 {
        'a'
    } else if n == 11 {
        'b'
    } else if n == 12 {
        'c'
    } else if n == 13 {
        'd'
    } else if n == 14 {
        'e'
    } else {
        'f'
    }
}

/// The lowercase hexadecimal rendering of a byte sequence: two digits per
/// byte, high nibble first.
pub open spec fn hex_of(bytes: Seq<u8>) -> Seq<char> {
    Seq::new(
        bytes.len() * 2,
        |i: int|
            if i % 2 == 0 {
                hex_digit(bytes[i / 2] >> 4)
            } else {
                hex_digit(bytes[i / 2] & 0xf)
            },
    )
}

/// The digest string both sides compute for a byte sequence: the
/// lowercase hexadecimal rendering of its 256-bit digest.
pub open spec fn digest_of(data: Seq<u8>) -> Seq<char> {
    hex_of(blake2s_of(data))
}

/// Relies on `blake2::Blake2s256` through `digest::Digest::digest`: a
/// 256-bit cryptographic digest, 32 bytes long, a function of the input
/// bytes alone.
#[verifier::external_body]
fn blake2s256(data: &[u8]) -> (r: Vec<u8>)
    ensures
        r@ == blake2s_of(data@),
        r@.len() == 32,
{
    <blake2::Blake2s256 as blake2::Digest>::digest(data).to_vec()
}

/// Appending one byte appends exactly its two hex digits.
proof fn lemma_hex_of_snoc(bytes: Seq<u8>, b: u8)
    ensures
        hex_of(bytes.push(b)) =~= hex_of(bytes) + seq![hex_digit(b >> 4), hex_digit(b & 0xf)],
{
    let lhs = hex_of(bytes.push(b));
    let rhs = hex_of(bytes) + seq![hex_digit(b >> 4), hex_digit(b & 0xf)];
    assert forall|i: int| 0 <= i < lhs.len() implies lhs[i] == rhs[i] by {
        if i < 2 * bytes.len() {
            assert(bytes.push(b)[i / 2] == bytes[i / 2]);
        } else {
            assert(i / 2 == bytes.len());
            assert(bytes.push(b)[i / 2] == b);
        }
    }
}

/// The lowercase hex digit of `n` as a one-character string.
fn hex_digit_str(n: u8) -> (s: &'static str)
    requires
        n < 16,
    ensures
        s@ =~= seq![hex_digit(n)],
{
    proof {
        reveal_strlit("0");
        reveal_strlit("1");
        reveal_strlit("2");
        reveal_strlit("3");
        reveal_strlit("4");
        reveal_strlit("5");
        reveal_strlit("6");
        reveal_strlit("7");
        reveal_strlit("8");
        reveal_strlit("9");
        reveal_strlit("a");
        reveal_strlit("b");
        reveal_strlit("c");
        reveal_strlit("d");
        reveal_strlit("e");
        reveal_strlit("f");
    }
    if n == 0 {
        "0"
    } else if n == 1 {
        "1"
    } else if n == 2 {
        "2"
    } else if n == 3 {
        "3"
    } else if n == 4 {
        "4"
    } else if n == 5 {
        "5"
    } else if n == 6 {
        "6"
    } else if n == 7 {
        "7"
    } else if n == 8 {
        "8"
    } else if n == 9 {
        "9"
    } else if n == 10 {
        "a"
    } else if n == 11 {
        "b"
    } else if n == 12 {
        "c"
    } else if n == 13 {
        "d"
    } else if n == 14 {
        "e"
    } else {
        "f"
    }
}

/// Renders bytes as lowercase hexadecimal text, two digits per byte.
pub fn to_hex(bytes: &[u8]) -> (r: String)
    ensures
        r@ == hex_of(bytes@),
{
    let mut out = String::new();
    let mut i: usize = 0;
    while i < bytes.len()
        invariant
            i <= bytes@.len(),
            out@ == hex_of(bytes@.subrange(0, i as int)),
        decreases bytes@.len() - i,
    {
        let b = bytes[i];
        proof {
            assert(b >> 4 < 16 && b & 0xf < 16) by (bit_vector);
        }
        out.append(hex_digit_str(b >> 4));
        out.append(hex_digit_str(b & 0xf));
        proof {
            lemma_hex_of_snoc(bytes@.subrange(0, i as int), b);
            assert(bytes@.subrange(0, i as int).push(b) =~= bytes@.subrange(0, i + 1));
        }
        i = i + 1;
    }
    proof {
        assert(bytes@.subrange(0, bytes@.len() as int) =~= bytes@);
    }
    out
}

/// The digest string for a byte sequence: what a manifest records for a
/// file holding exactly these bytes.
pub fn digest_hex(data: &[u8]) -> (r: String)
    ensures
        r@ == digest_of(data@),
        r@.len() == 64,
{
    let raw = blake2s256(data);
    to_hex(raw.as_slice())
}

} // verus!
