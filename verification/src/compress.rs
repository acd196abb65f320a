//! Compression of file contents into artifacts and back.
//!
//! An artifact is the compressed byte sequence for one source file: raw
//! deflate at the fast setting. An empty source file has an empty
//! artifact, so that zero-length files travel with no chunk frames at all
//! and unpack without touching the decompressor.
use std::io::Write;

use vstd::prelude::*;

use crate::errors::RepairError;

verus! {

/// What raw deflate at the fast setting produces for a byte sequence: a
/// function of the input bytes alone.
pub uninterp spec fn deflate_of(data: Seq<u8>) -> Seq<u8>;

/// The artifact bytes for a source file's content: empty for an empty
/// file, its deflate stream otherwise.
pub open spec fn spec_pack(content: Seq<u8>) -> Seq<u8> {
    if content.len() == 0 {
        Seq::empty()
    } else {
        deflate_of(content)
    }
}

/// Relies on `flate2::write::DeflateEncoder` at `Compression::fast()`:
/// the raw deflate stream is a function of the input bytes alone, and a
/// deflate stream always holds at least one block, so it is never empty.
#[verifier::external_body]
fn deflate_raw(data: &[u8]) -> (r: Vec<u8>)
    ensures
        r@ == deflate_of(data@),
        r@.len() > 0,
{
    let mut encoder = flate2::write::DeflateEncoder::new(
        Vec::new(),
        flate2::Compression::fast(),
    );
    encoder.write_all(data).expect("writing to a vector does not fail");
    encoder.finish().expect("writing to a vector does not fail")
}

/// Relies on `flate2::write::DeflateDecoder`: inflating inverts deflating,
/// so whenever the input is the deflate stream of some byte sequence the
/// call succeeds and returns exactly that sequence.
#[verifier::external_body]
fn inflate_raw(data: &[u8]) -> (r: Option<Vec<u8>>)
    ensures
        r matches Some(v) ==> forall|orig: Seq<u8>| data@ == deflate_of(orig) ==> v@ == orig,
        r is None ==> forall|orig: Seq<u8>| data@ != deflate_of(orig),
{
    let mut decoder = flate2::write::DeflateDecoder::new(Vec::new());
    if decoder.write_all(data).is_err() {
        return None;
    }
    decoder.finish().ok()
}

/// Compresses one source file's content into its artifact bytes.
pub fn pack_bytes(content: &[u8]) -> (r: Vec<u8>)
    ensures
        r@ == spec_pack(content@),
        content@.len() > 0 ==> r@.len() > 0,
{
    if content.len() == 0 {
        Vec::new()
    } else {
        deflate_raw(content)
    }
}

/// Decompresses one artifact back into the source file's content.
///
/// An empty artifact yields an empty file. A non-empty artifact that is
/// the packing of some content yields exactly that content; bytes that no
/// content packs to are rejected as a decompression error.
pub fn unpack_bytes(artifact: &[u8]) -> (r: Result<Vec<u8>, RepairError>)
    ensures
        artifact@.len() == 0 ==> (r matches Ok(v) && v@ == Seq::<u8>::empty()),
        forall|orig: Seq<u8>|
            (artifact@.len() > 0 && artifact@ == spec_pack(orig)) ==> (r matches Ok(v) && v@
                == orig),
        r matches Err(e) ==> e == RepairError::DecompressionError,
{
    if artifact.len() == 0 {
        Ok(Vec::new())
    } else {
        match inflate_raw(artifact) {
            Some(v) => {
                proof {
                    assert forall|orig: Seq<u8>|
                        artifact@.len() > 0 && artifact@ == spec_pack(orig) implies v@
                        == orig by {
                        assert(orig.len() > 0);
                        assert(artifact@ == deflate_of(orig));
                    }
                }
                Ok(v)
            },
            None => Err(RepairError::DecompressionError),
        }
    }
}

} // verus!
