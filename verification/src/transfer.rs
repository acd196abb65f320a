//! The streaming file-transfer framing.
//!
//! For each requested file the server emits one `GiveFiles` header whose
//! `file_name_size` counts the path bytes that follow it, then zero or
//! more `Chunk` frames carrying the compressed artifact, then one
//! `EndFile` frame with both sizes zero. The client reads exactly as many
//! file transfers as it requested. Both directions of that framing are
//! verified here as functions on byte sequences; sockets deliver and
//! consume the bytes outside the library.
use vstd::prelude::*;
use vstd::utf8::decode_utf8;
use vstd::utf8::encode_utf8;
use vstd::utf8::valid_utf8;

use crate::compress::spec_pack;
use crate::errors::RepairError;
use crate::frame::RequestType;
use crate::frame::lemma_decode_encode;
use crate::frame::lemma_header_len;
use crate::frame::spec_decode_header;
use crate::frame::spec_encode_header;

verus! {

/// The chunk frames for one artifact: its bytes in order, cut into
/// pieces of at most `chunk` bytes, each piece preceded by a `Chunk`
/// header carrying the piece's size. An empty artifact yields no frames.
pub open spec fn spec_chunks(artifact: Seq<u8>, chunk: nat) -> Seq<u8>
    decreases artifact.len(),
{
    if chunk == 0 || artifact.len() == 0 {
        Seq::empty()
    } else if artifact.len() <= chunk {
        spec_encode_header(RequestType::Chunk, 0, artifact.len() as u32) + artifact
    } else {
        spec_encode_header(RequestType::Chunk, 0, chunk as u32) + artifact.subrange(
            0,
            chunk as int,
        ) + spec_chunks(artifact.skip(chunk as int), chunk)
    }
}

/// The whole frame sequence transferring one file: prologue with the
/// path, the artifact's chunks, and the end marker.
pub open spec fn spec_file_transfer(path: Seq<char>, artifact: Seq<u8>, chunk: nat) -> Seq<u8> {
    spec_encode_header(RequestType::GiveFiles, encode_utf8(path).len() as u32, 0) + encode_utf8(
        path,
    ) + spec_chunks(artifact, chunk) + spec_encode_header(RequestType::EndFile, 0, 0)
}

/// The frame sequence transferring a list of files, in order.
pub open spec fn spec_transfer_stream(files: Seq<(Seq<char>, Seq<u8>)>, chunk: nat) -> Seq<u8>
    decreases files.len(),
{
    if files.len() == 0 {
        Seq::empty()
    } else {
        spec_file_transfer(files[0].0, files[0].1, chunk) + spec_transfer_stream(
            files.drop_first(),
            chunk,
        )
    }
}

/// A zero-length source file travels with no chunk frames at all: its
/// transfer is one `GiveFiles` prologue and one `EndFile` marker.
pub proof fn lemma_empty_file_no_chunks(path: Seq<char>, chunk: nat)
    ensures
        spec_chunks(spec_pack(Seq::empty()), chunk) == Seq::<u8>::empty(),
        spec_file_transfer(path, spec_pack(Seq::empty()), chunk) =~= spec_encode_header(
            RequestType::GiveFiles,
            encode_utf8(path).len() as u32,
            0,
        ) + encode_utf8(path) + spec_encode_header(RequestType::EndFile, 0, 0),
{
}

/// Writes `src[from..to]` at the end of `out`.
pub fn append_range(out: &mut Vec<u8>, src: &[u8], from: usize, to: usize)
    requires
        from <= to <= src@.len(),
    ensures
        final(out)@ == old(out)@ + src@.subrange(from as int, to as int),
{
    let mut i: usize = from;
    while i < to
        invariant
            from <= i <= to <= src@.len(),
            out@ == old(out)@ + src@.subrange(from as int, i as int),
        decreases to - i,
    {
        out.push(src[i]);
        assert(out@ =~= old(out)@ + src@.subrange(from as int, i + 1));
        i = i + 1;
    }
    assert(out@ =~= old(out)@ + src@.subrange(from as int, to as int));
}

/// Emits the frame sequence transferring one file: the `GiveFiles`
/// prologue carrying the path, the artifact cut into chunks of at most
/// `chunk_size` bytes, and the `EndFile` marker.
pub fn encode_file_transfer(path: &str, artifact: &Vec<u8>, chunk_size: usize) -> (r: Vec<u8>)
    requires
        0 < chunk_size <= u32::MAX,
        encode_utf8(path@).len() <= u32::MAX,
    ensures
        r@ == spec_file_transfer(path@, artifact@, chunk_size as nat),
{
    let name = path.as_bytes();
    let name_len = name.len();
    let mut out = crate::frame::create_header(
        crate::frame::RequestVersion::ZEROpOne,
        RequestType::GiveFiles,
        name_len as u32,
        0,
    );
    append_range(&mut out, name, 0, name_len);
    let ghost head = spec_encode_header(RequestType::GiveFiles, name_len as u32, 0) + encode_utf8(
        path@,
    );
    proof {
        assert(name@.subrange(0, name_len as int) =~= encode_utf8(path@));
        assert(out@ =~= head);
    }
    let total = artifact.len();
    let mut pos: usize = 0;
    proof {
        assert(artifact@.skip(0) =~= artifact@);
    }
    while pos < total
        invariant
            pos <= total,
            total == artifact@.len(),
            0 < chunk_size <= u32::MAX,
            out@ + spec_chunks(artifact@.skip(pos as int), chunk_size as nat) == head
                + spec_chunks(artifact@, chunk_size as nat),
        decreases total - pos,
    {
        let remaining = total - pos;
        let n = if remaining <= chunk_size {
            remaining
        } else {
            chunk_size
        };
        let mut chunk_header = crate::frame::create_header(
            crate::frame::RequestVersion::ZEROpOne,
            RequestType::Chunk,
            0,
            n as u32,
        );
        let ghost before = out@;
        out.append(&mut chunk_header);
        append_range(&mut out, artifact.as_slice(), pos, pos + n);
        proof {
            let rest = artifact@.skip(pos as int);
            assert(rest.len() == total - pos);
            if remaining <= chunk_size {
                assert(rest.subrange(0, n as int) =~= rest);
                assert(artifact@.skip((pos + n) as int) =~= Seq::<u8>::empty());
                assert(spec_chunks(rest, chunk_size as nat) == spec_encode_header(
                    RequestType::Chunk,
                    0,
                    n as u32,
                ) + rest);
                assert(spec_chunks(artifact@.skip((pos + n) as int), chunk_size as nat)
                    =~= Seq::<u8>::empty());
            } else {
                assert(rest.skip(chunk_size as int) =~= artifact@.skip((pos + n) as int));
                assert(spec_chunks(rest, chunk_size as nat) == spec_encode_header(
                    RequestType::Chunk,
                    0,
                    n as u32,
                ) + rest.subrange(0, n as int) + spec_chunks(
                    artifact@.skip((pos + n) as int),
                    chunk_size as nat,
                ));
            }
            assert(artifact@.subrange(pos as int, (pos + n) as int) =~= rest.subrange(
                0,
                n as int,
            ));
            assert(out@ =~= before + spec_encode_header(RequestType::Chunk, 0, n as u32)
                + rest.subrange(0, n as int));
            assert(out@ + spec_chunks(artifact@.skip((pos + n) as int), chunk_size as nat)
                =~= before + spec_chunks(rest, chunk_size as nat));
        }
        pos = pos + n;
    }
    proof {
        assert(artifact@.skip(total as int) =~= Seq::<u8>::empty());
        assert(out@ + Seq::<u8>::empty() =~= out@);
        assert(out@ =~= head + spec_chunks(artifact@, chunk_size as nat));
    }
    let mut end_header = crate::frame::create_header(
        crate::frame::RequestVersion::ZEROpOne,
        RequestType::EndFile,
        0,
        0,
    );
    out.append(&mut end_header);
    proof {
        assert(out@ =~= spec_file_transfer(path@, artifact@, chunk_size as nat));
    }
    out
}

/// Emits the frame sequence transferring a list of files, in order.
pub fn encode_transfer(paths: &Vec<String>, artifacts: &Vec<Vec<u8>>, chunk_size: usize) -> (r: Vec<
    u8,
>)
    requires
        artifacts@.len() == paths@.len(),
        0 < chunk_size <= u32::MAX,
        forall|i: int|
            0 <= i < paths@.len() ==> encode_utf8((#[trigger] paths@[i])@).len() <= u32::MAX,
    ensures
        r@ == spec_transfer_stream(transfer_model(paths@, artifacts@), chunk_size as nat),
{
    let mut out: Vec<u8> = Vec::new();
    let mut i: usize = 0;
    proof {
        assert(transfer_model(paths@.subrange(0, 0), artifacts@.subrange(0, 0)) =~= Seq::<
            (Seq<char>, Seq<u8>),
        >::empty());
    }
    while i < paths.len()
        invariant
            i <= paths@.len(),
            artifacts@.len() == paths@.len(),
            0 < chunk_size <= u32::MAX,
            forall|k: int|
                0 <= k < paths@.len() ==> encode_utf8((#[trigger] paths@[k])@).len() <= u32::MAX,
            out@ == spec_transfer_stream(
                transfer_model(paths@.subrange(0, i as int), artifacts@.subrange(0, i as int)),
                chunk_size as nat,
            ),
        decreases paths@.len() - i,
    {
        let mut one = encode_file_transfer(paths[i].as_str(), &artifacts[i], chunk_size);
        out.append(&mut one);
        proof {
            let prefix = transfer_model(
                paths@.subrange(0, i as int),
                artifacts@.subrange(0, i as int),
            );
            lemma_transfer_stream_snoc(prefix, (paths@[i as int]@, artifacts@[i as int]@),
                chunk_size as nat);
            assert(transfer_model(paths@.subrange(0, i + 1), artifacts@.subrange(0, i + 1))
                =~= prefix.push((paths@[i as int]@, artifacts@[i as int]@)));
        }
        i = i + 1;
    }
    proof {
        assert(paths@.subrange(0, paths@.len() as int) =~= paths@);
        assert(artifacts@.subrange(0, artifacts@.len() as int) =~= artifacts@);
    }
    out
}

/// The (path, artifact) pairs of two parallel lists.
pub open spec fn transfer_model(paths: Seq<String>, artifacts: Seq<Vec<u8>>) -> Seq<
    (Seq<char>, Seq<u8>),
>
    recommends
        paths.len() == artifacts.len(),
{
    Seq::new(paths.len(), |i: int| (paths[i]@, artifacts[i]@))
}

/// Appending one file appends exactly its transfer frames.
pub proof fn lemma_transfer_stream_snoc(
    files: Seq<(Seq<char>, Seq<u8>)>,
    f: (Seq<char>, Seq<u8>),
    chunk: nat,
)
    ensures
        spec_transfer_stream(files.push(f), chunk) =~= spec_transfer_stream(files, chunk)
            + spec_file_transfer(f.0, f.1, chunk),
    decreases files.len(),
{
    let one = files.push(f);
    if files.len() == 0 {
        assert(one.drop_first() =~= Seq::<(Seq<char>, Seq<u8>)>::empty());
        assert(one[0] == f);
        assert(spec_transfer_stream(one, chunk) == spec_file_transfer(f.0, f.1, chunk)
            + spec_transfer_stream(one.drop_first(), chunk));
    } else {
        assert(one.drop_first() =~= files.drop_first().push(f));
        lemma_transfer_stream_snoc(files.drop_first(), f, chunk);
        assert(one[0] == files[0]);
        assert(spec_transfer_stream(one, chunk) == spec_file_transfer(
            files[0].0,
            files[0].1,
            chunk,
        ) + spec_transfer_stream(files.drop_first().push(f), chunk));
    }
}

/// What the chunk frames of one file decode to: the artifact bytes,
/// reassembled in order, and the stream remaining after the `EndFile`
/// marker. A truncated stream is a transport error; a frame of any other
/// type, a chunk with an embedded name, an empty chunk or a non-empty
/// `EndFile` is a protocol violation.
#[verifier::opaque]
pub open spec fn spec_decode_chunks(s: Seq<u8>) -> Result<(Seq<u8>, Seq<u8>), RepairError>
    decreases s.len(),
{
    if s.len() < 64 {
        Err(RepairError::TransportError)
    } else {
        match spec_decode_header(s.subrange(0, 64)) {
            Err(e) => Err(e),
            Ok((t, fns, bs)) => {
                if t == RequestType::EndFile {
                    if fns == 0 && bs == 0 {
                        Ok((Seq::empty(), s.skip(64)))
                    } else {
                        Err(RepairError::ProtocolViolation)
                    }
                } else if t == RequestType::Chunk {
                    if fns == 0 && bs > 0 {
                        if s.len() >= 64 + bs {
                            match spec_decode_chunks(s.skip(64 + bs as int)) {
                                Ok((art, rem)) => Ok(
                                    (s.subrange(64, 64 + bs as int) + art, rem),
                                ),
                                Err(e) => Err(e),
                            }
                        } else {
                            Err(RepairError::TransportError)
                        }
                    } else {
                        Err(RepairError::ProtocolViolation)
                    }
                } else {
                    Err(RepairError::ProtocolViolation)
                }
            },
        }
    }
}

/// What one file transfer decodes to: the path, the artifact bytes, and
/// the stream remaining after the `EndFile` marker. The prologue must be
/// a `GiveFiles` frame with `body_size` zero (the deprecated whole-body
/// dialect is rejected) and its path bytes must be valid UTF-8.
#[verifier::opaque]
pub open spec fn spec_decode_one(s: Seq<u8>) -> Result<
    (Seq<char>, Seq<u8>, Seq<u8>),
    RepairError,
> {
    if s.len() < 64 {
        Err(RepairError::TransportError)
    } else {
        match spec_decode_header(s.subrange(0, 64)) {
            Err(e) => Err(e),
            Ok((t, fns, bs)) => {
                if t != RequestType::GiveFiles || bs != 0 {
                    Err(RepairError::ProtocolViolation)
                } else if s.len() < 64 + fns {
                    Err(RepairError::TransportError)
                } else {
                    let name = s.subrange(64, 64 + fns as int);
                    if !valid_utf8(name) {
                        Err(RepairError::BadPath)
                    } else {
                        match spec_decode_chunks(s.skip(64 + fns as int)) {
                            Ok((art, rem)) => Ok((decode_utf8(name), art, rem)),
                            Err(e) => Err(e),
                        }
                    }
                }
            },
        }
    }
}

/// What a whole transfer of `count` files decodes to. Bytes left over
/// after the last file are a protocol violation.
#[verifier::opaque]
pub open spec fn spec_decode_transfer(s: Seq<u8>, count: nat) -> Result<
    Seq<(Seq<char>, Seq<u8>)>,
    RepairError,
>
    decreases count,
{
    if count == 0 {
        if s.len() == 0 {
            Ok(Seq::empty())
        } else {
            Err(RepairError::ProtocolViolation)
        }
    } else {
        match spec_decode_one(s) {
            Err(e) => Err(e),
            Ok((path, art, rem)) => match spec_decode_transfer(rem, (count - 1) as nat) {
                Ok(rest) => Ok(seq![(path, art)] + rest),
                Err(e) => Err(e),
            },
        }
    }
}

/// Decoding the chunk frames the server emits for an artifact gives the
/// artifact back and leaves exactly the trailing stream.
pub proof fn lemma_chunks_round_trip(artifact: Seq<u8>, chunk: nat, tail: Seq<u8>)
    requires
        0 < chunk <= u32::MAX,
    ensures
        spec_decode_chunks(
            spec_chunks(artifact, chunk) + spec_encode_header(RequestType::EndFile, 0, 0) + tail,
        ) == Ok::<(Seq<u8>, Seq<u8>), RepairError>((artifact, tail)),
    decreases artifact.len(),
{
    reveal(spec_decode_chunks);
    let stream = spec_chunks(artifact, chunk) + spec_encode_header(RequestType::EndFile, 0, 0)
        + tail;
    lemma_header_len(RequestType::EndFile, 0, 0);
    if artifact.len() == 0 {
        assert(stream.subrange(0, 64) =~= spec_encode_header(RequestType::EndFile, 0, 0));
        lemma_decode_encode(RequestType::EndFile, 0, 0);
        assert(stream.skip(64) =~= tail);
        assert(artifact =~= Seq::<u8>::empty());
    } else {
        let n: nat = if artifact.len() <= chunk {
            artifact.len()
        } else {
            chunk
        };
        lemma_header_len(RequestType::Chunk, 0, n as u32);
        assert(spec_chunks(artifact, chunk) =~= spec_encode_header(RequestType::Chunk, 0, n as u32)
            + artifact.subrange(0, n as int) + spec_chunks(artifact.skip(n as int), chunk));
        assert(stream.subrange(0, 64) =~= spec_encode_header(RequestType::Chunk, 0, n as u32));
        lemma_decode_encode(RequestType::Chunk, 0, n as u32);
        assert(n as u32 as int == n);
        assert(stream.len() >= 64 + n);
        assert(stream.subrange(64, 64 + n as int) =~= artifact.subrange(0, n as int));
        assert(stream.skip(64 + n as int) =~= spec_chunks(artifact.skip(n as int), chunk)
            + spec_encode_header(RequestType::EndFile, 0, 0) + tail);
        lemma_chunks_round_trip(artifact.skip(n as int), chunk, tail);
        assert(artifact.subrange(0, n as int) + artifact.skip(n as int) =~= artifact);
    }
}

/// Decoding the frame sequence the server emits for one file gives the
/// path and artifact back and leaves exactly the trailing stream.
pub proof fn lemma_one_round_trip(path: Seq<char>, artifact: Seq<u8>, chunk: nat, tail: Seq<u8>)
    requires
        0 < chunk <= u32::MAX,
        encode_utf8(path).len() <= u32::MAX,
    ensures
        spec_decode_one(spec_file_transfer(path, artifact, chunk) + tail) == Ok::<
            (Seq<char>, Seq<u8>, Seq<u8>),
            RepairError,
        >((path, artifact, tail)),
{
    broadcast use vstd::utf8::encode_utf8_valid_utf8, vstd::utf8::encode_utf8_decode_utf8;

    reveal(spec_decode_one);
    let name = encode_utf8(path);
    let fns = name.len() as u32;
    let stream = spec_file_transfer(path, artifact, chunk) + tail;
    lemma_header_len(RequestType::GiveFiles, fns, 0);
    assert(stream.subrange(0, 64) =~= spec_encode_header(RequestType::GiveFiles, fns, 0));
    lemma_decode_encode(RequestType::GiveFiles, fns, 0);
    assert(fns as int == name.len());
    assert(stream.subrange(64, 64 + fns as int) =~= name);
    assert(stream.skip(64 + fns as int) =~= spec_chunks(artifact, chunk) + spec_encode_header(
        RequestType::EndFile,
        0,
        0,
    ) + tail);
    lemma_chunks_round_trip(artifact, chunk, tail);
}

/// Decoding the frame stream the server emits for a list of files gives
/// exactly the files back, in order: the transfer framing loses nothing.
/// One decoding step: a stream whose first file transfer and remaining
/// stream both decode also decodes as a whole.
proof fn lemma_decode_transfer_step(
    s: Seq<u8>,
    path: Seq<char>,
    art: Seq<u8>,
    rem: Seq<u8>,
    rest: Seq<(Seq<char>, Seq<u8>)>,
    count: nat,
)
    requires
        spec_decode_one(s) == Ok::<(Seq<char>, Seq<u8>, Seq<u8>), RepairError>((path, art, rem)),
        spec_decode_transfer(rem, count) == Ok::<Seq<(Seq<char>, Seq<u8>)>, RepairError>(rest),
    ensures
        spec_decode_transfer(s, count + 1) == Ok::<Seq<(Seq<char>, Seq<u8>)>, RepairError>(
            seq![(path, art)] + rest,
        ),
{
    reveal(spec_decode_transfer);
}

#[verifier::rlimit(100)]
pub proof fn lemma_transfer_round_trip(files: Seq<(Seq<char>, Seq<u8>)>, chunk: nat)
    requires
        0 < chunk <= u32::MAX,
        forall|i: int|
            0 <= i < files.len() ==> encode_utf8((#[trigger] files[i]).0).len() <= u32::MAX,
    ensures
        spec_decode_transfer(spec_transfer_stream(files, chunk), files.len()) == Ok::<
            Seq<(Seq<char>, Seq<u8>)>,
            RepairError,
        >(files),
    decreases files.len(),
{
    if files.len() == 0 {
        reveal(spec_decode_transfer);
        assert(files =~= Seq::<(Seq<char>, Seq<u8>)>::empty());
    } else {
        let f = files[0];
        let rest = files.drop_first();
        let rest_stream = spec_transfer_stream(rest, chunk);
        assert(spec_transfer_stream(files, chunk) == spec_file_transfer(f.0, f.1, chunk)
            + rest_stream);
        lemma_one_round_trip(f.0, f.1, chunk, rest_stream);
        let stream = spec_transfer_stream(files, chunk);
        assert(stream == spec_file_transfer(f.0, f.1, chunk) + rest_stream);
        assert forall|i: int|
            0 <= i < rest.len() implies encode_utf8((#[trigger] rest[i]).0).len()
            <= u32::MAX by {
            assert(rest[i] == files[i + 1]);
        }
        lemma_transfer_round_trip(rest, chunk);
        lemma_decode_transfer_step(stream, f.0, f.1, rest_stream, rest, rest.len());
        assert(rest.len() + 1 == files.len());
        assert((f.0, f.1) == f);
        assert(seq![(f.0, f.1)] + rest =~= files);
    }
}

/// The mathematical content of a list of decoded files: the (path,
/// artifact) pairs.
pub open spec fn decoded_model(files: Seq<(String, Vec<u8>)>) -> Seq<(Seq<char>, Seq<u8>)> {
    files.map_values(|f: (String, Vec<u8>)| (f.0@, f.1@))
}

/// Prepends already-decoded files to a decode result, keeping failure.
pub open spec fn opt_prepend_files(
    m: Seq<(Seq<char>, Seq<u8>)>,
    o: Result<Seq<(Seq<char>, Seq<u8>)>, RepairError>,
) -> Result<Seq<(Seq<char>, Seq<u8>)>, RepairError> {
    match o {
        Ok(rest) => Ok(m + rest),
        Err(e) => Err(e),
    }
}

/// Reads the `n` bytes at `pos` into a fresh vector.
fn read_block(stream: &[u8], pos: usize, n: usize) -> (r: Vec<u8>)
    requires
        pos + n <= stream@.len(),
    ensures
        r@ == stream@.subrange(pos as int, pos + n),
{
    let sl = stream.len();
    proof {
        assert(pos + n <= sl);
    }
    let mut out: Vec<u8> = Vec::new();
    append_range(&mut out, stream, pos, pos + n);
    assert(out@ =~= stream@.subrange(pos as int, pos + n));
    out
}

/// Relies on `String::from_utf8`: it succeeds exactly on valid UTF-8
/// input, and the returned string holds exactly the input bytes.
#[verifier::external_body]
fn string_from_utf8(bytes: Vec<u8>) -> (r: Option<String>)
    ensures
        r is Some <==> valid_utf8(bytes@),
        r matches Some(s) ==> encode_utf8(s@) == bytes@,
{
    String::from_utf8(bytes).ok()
}

/// Consumes one file transfer starting at `pos`: the `GiveFiles`
/// prologue, the chunk frames, and the `EndFile` marker. Returns the
/// path, the reassembled artifact bytes, and the position just past the
/// `EndFile` frame, or the error `spec_decode_one` assigns.
pub fn decode_one_file(stream: &[u8], pos: usize) -> (r: Result<
    (String, Vec<u8>, usize),
    RepairError,
>)
    requires
        pos <= stream@.len(),
    ensures
        match r {
            Ok(v) => pos <= v.2 <= stream@.len() && spec_decode_one(stream@.skip(pos as int))
                == Ok::<(Seq<char>, Seq<u8>, Seq<u8>), RepairError>(
                (v.0@, v.1@, stream@.skip(v.2 as int)),
            ),
            Err(e) => spec_decode_one(stream@.skip(pos as int)) == Err::<
                (Seq<char>, Seq<u8>, Seq<u8>),
                RepairError,
            >(e),
        },
{
    broadcast use vstd::utf8::encode_utf8_decode_utf8;

    proof {
        reveal(spec_decode_one);
    }
    let ghost s = stream@.skip(pos as int);
    if stream.len() - pos < 64 {
        return Err(RepairError::TransportError);
    }
    let header = read_block(stream, pos, 64);
    proof {
        assert(header@ =~= s.subrange(0, 64));
    }
    let nr = match crate::frame::parse_request(header.as_slice()) {
        Ok(nr) => nr,
        Err(e) => {
            return Err(e);
        },
    };
    let ghost (t, fns32, bs32) = spec_decode_header(s.subrange(0, 64))->Ok_0;
    if !(nr.request_type == RequestType::GiveFiles) {
        return Err(RepairError::ProtocolViolation);
    }
    let fns = match nr.file_name_size {
        Some(v) => v,
        None => {
            proof {
                assert(false);
            }
            0
        },
    };
    let bs = match nr.body_size {
        Some(v) => v,
        None => {
            proof {
                assert(false);
            }
            0
        },
    };
    if bs != 0 {
        return Err(RepairError::ProtocolViolation);
    }
    if stream.len() - (pos + 64) < fns {
        proof {
            assert(s.len() < 64 + fns32);
        }
        return Err(RepairError::TransportError);
    }
    let name_bytes = read_block(stream, pos + 64, fns);
    proof {
        assert(name_bytes@ =~= s.subrange(64, 64 + fns32 as int));
    }
    let path = match string_from_utf8(name_bytes) {
        Some(p) => p,
        None => {
            return Err(RepairError::BadPath);
        },
    };
    let cs = pos + 64 + fns;
    proof {
        assert(decode_utf8(s.subrange(64, 64 + fns32 as int)) == path@);
    }
    let ghost chunk_tail = stream@.skip(cs as int);
    proof {
        assert(chunk_tail =~= s.skip(64 + fns32 as int));
        assert(spec_decode_one(s) == match spec_decode_chunks(chunk_tail) {
            Ok((art, rem)) => Ok::<(Seq<char>, Seq<u8>, Seq<u8>), RepairError>(
                (path@, art, rem),
            ),
            Err(e) => Err(e),
        });
    }
    let mut art: Vec<u8> = Vec::new();
    let mut cpos: usize = cs;
    proof {
        reveal(spec_decode_chunks);
        assert(stream@.skip(cpos as int) =~= chunk_tail);
    }
    loop
        invariant_except_break
            cs <= cpos <= stream@.len(),
            s == stream@.skip(pos as int),
            stream@.skip(cs as int) == chunk_tail,
            spec_decode_one(s) == (match spec_decode_chunks(chunk_tail) {
                Ok((a, rem)) => Ok::<(Seq<char>, Seq<u8>, Seq<u8>), RepairError>(
                    (path@, a, rem),
                ),
                Err(e) => Err(e),
            }),
            spec_decode_chunks(chunk_tail) == (match spec_decode_chunks(
                stream@.skip(cpos as int),
            ) {
                Ok((a, rem)) => Ok::<(Seq<u8>, Seq<u8>), RepairError>((art@ + a, rem)),
                Err(e) => Err(e),
            }),
        ensures
            cs <= cpos <= stream@.len(),
            spec_decode_one(s) == Ok::<(Seq<char>, Seq<u8>, Seq<u8>), RepairError>(
                (path@, art@, stream@.skip(cpos as int)),
            ),
        decreases stream@.len() - cpos,
    {
        proof {
            reveal(spec_decode_chunks);
        }
        let ghost cseq = stream@.skip(cpos as int);
        if stream.len() - cpos < 64 {
            return Err(RepairError::TransportError);
        }
        let chead = read_block(stream, cpos, 64);
        proof {
            assert(chead@ =~= cseq.subrange(0, 64));
        }
        let cnr = match crate::frame::parse_request(chead.as_slice()) {
            Ok(v) => v,
            Err(e) => {
                return Err(e);
            },
        };
        let ghost (ct, cf32, cb32) = spec_decode_header(cseq.subrange(0, 64))->Ok_0;
        if cnr.request_type == RequestType::EndFile {
            let cf = match cnr.file_name_size {
                Some(v) => v,
                None => {
                    proof {
                        assert(false);
                    }
                    0
                },
            };
            let cb = match cnr.body_size {
                Some(v) => v,
                None => {
                    proof {
                        assert(false);
                    }
                    0
                },
            };
            if !(cf == 0 && cb == 0) {
                return Err(RepairError::ProtocolViolation);
            }
            proof {
                assert(spec_decode_chunks(cseq) == Ok::<(Seq<u8>, Seq<u8>), RepairError>(
                    (Seq::empty(), cseq.skip(64)),
                ));
                assert(cseq.skip(64) =~= stream@.skip(cpos + 64));
                assert(art@ + Seq::<u8>::empty() =~= art@);
            }
            cpos = cpos + 64;
            break;
        }
        if !(cnr.request_type == RequestType::Chunk) {
            return Err(RepairError::ProtocolViolation);
        }
        let cf = match cnr.file_name_size {
            Some(v) => v,
            None => {
                proof {
                    assert(false);
                }
                0
            },
        };
        let cb = match cnr.body_size {
            Some(v) => v,
            None => {
                proof {
                    assert(false);
                }
                0
            },
        };
        if !(cf == 0 && cb > 0) {
            return Err(RepairError::ProtocolViolation);
        }
        if stream.len() - (cpos + 64) < cb {
            proof {
                assert(cseq.len() < 64 + cb32);
            }
            return Err(RepairError::TransportError);
        }
        let ghost old_art = art@;
        append_range(&mut art, stream, cpos + 64, cpos + 64 + cb);
        proof {
            assert(cseq.subrange(64, 64 + cb32 as int) =~= stream@.subrange(
                cpos + 64,
                cpos + 64 + cb,
            ));
            assert(art@ == old_art + cseq.subrange(64, 64 + cb32 as int));
            assert(cseq.skip(64 + cb32 as int) =~= stream@.skip(cpos + 64 + cb));
            assert(spec_decode_chunks(cseq) == (match spec_decode_chunks(
                stream@.skip(cpos + 64 + cb),
            ) {
                Ok((a, rem)) => Ok::<(Seq<u8>, Seq<u8>), RepairError>(
                    (cseq.subrange(64, 64 + cb32 as int) + a, rem),
                ),
                Err(e) => Err(e),
            }));
            if spec_decode_chunks(stream@.skip(cpos + 64 + cb)) is Ok {
                let (a, rem) = spec_decode_chunks(stream@.skip(cpos + 64 + cb))->Ok_0;
                assert(old_art + (cseq.subrange(64, 64 + cb32 as int) + a) =~= art@ + a);
            }
        }
        cpos = cpos + 64 + cb;
    }
    Ok((path, art, cpos))
}

/// Consumes the whole transfer of exactly `count` files, reassembling
/// each artifact from its chunk frames in order. Succeeds exactly when
/// `spec_decode_transfer` does, and then returns exactly the decoded
/// (path, artifact) pairs; otherwise it returns exactly the error the
/// specification assigns.
pub fn decode_transfer(stream: &[u8], count: usize) -> (r: Result<
    Vec<(String, Vec<u8>)>,
    RepairError,
>)
    ensures
        match r {
            Ok(v) => spec_decode_transfer(stream@, count as nat) == Ok::<
                Seq<(Seq<char>, Seq<u8>)>,
                RepairError,
            >(decoded_model(v@)),
            Err(e) => spec_decode_transfer(stream@, count as nat) == Err::<
                Seq<(Seq<char>, Seq<u8>)>,
                RepairError,
            >(e),
        },
{
    let mut out: Vec<(String, Vec<u8>)> = Vec::new();
    let mut pos: usize = 0;
    let mut k: usize = 0;
    proof {
        assert(stream@.skip(0) =~= stream@);
        assert(decoded_model(out@) =~= Seq::<(Seq<char>, Seq<u8>)>::empty());
        let o = spec_decode_transfer(stream@, count as nat);
        if o is Ok {
            assert(Seq::<(Seq<char>, Seq<u8>)>::empty() + o->Ok_0 =~= o->Ok_0);
        }
    }
    while k < count
        invariant
            k <= count,
            pos <= stream@.len(),
            spec_decode_transfer(stream@, count as nat) == opt_prepend_files(
                decoded_model(out@),
                spec_decode_transfer(stream@.skip(pos as int), (count - k) as nat),
            ),
        decreases count - k,
    {
        proof {
            reveal(spec_decode_transfer);
        }
        let (path, artifact, newpos) = match decode_one_file(stream, pos) {
            Ok(v) => v,
            Err(e) => {
                return Err(e);
            },
        };
        let ghost old_out = out@;
        out.push((path, artifact));
        proof {
            assert(decoded_model(out@) =~= decoded_model(old_out).push(
                (out@[old_out.len() as int].0@, out@[old_out.len() as int].1@),
            ));
            assert(spec_decode_transfer(stream@.skip(pos as int), (count - k) as nat) == (
            match spec_decode_transfer(stream@.skip(newpos as int), (count - k - 1) as nat) {
                Ok(rest) => Ok::<Seq<(Seq<char>, Seq<u8>)>, RepairError>(
                    seq![(out@[old_out.len() as int].0@, out@[old_out.len() as int].1@)] + rest,
                ),
                Err(e) => Err(e),
            }));
            let o = spec_decode_transfer(stream@.skip(newpos as int), (count - k - 1) as nat);
            if o is Ok {
                assert(decoded_model(old_out) + (seq![
                    (out@[old_out.len() as int].0@, out@[old_out.len() as int].1@),
                ] + o->Ok_0) =~= decoded_model(out@) + o->Ok_0);
            }
        }
        pos = newpos;
        k = k + 1;
    }
    proof {
        reveal(spec_decode_transfer);
    }
    if pos != stream.len() {
        proof {
            assert(stream@.skip(pos as int).len() != 0);
        }
        return Err(RepairError::ProtocolViolation);
    }
    proof {
        assert(stream@.skip(pos as int).len() == 0);
        assert(decoded_model(out@) + Seq::<(Seq<char>, Seq<u8>)>::empty() =~= decoded_model(
            out@,
        ));
    }
    Ok(out)
}

} // verus!
