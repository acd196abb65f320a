//! The frame codec.
//!
//! Every protocol message starts with a 64-byte header: a 56-byte request
//! line, zero-padded on the right, followed by two unsigned 32-bit
//! big-endian sizes. The request line is `repairman|0.1|<TYPE>` with `|`
//! as the separator. `file_name_size` counts the body bytes that form the
//! leading relative path of the body; `body_size` counts all body bytes,
//! the file-name prefix included.
use vstd::prelude::*;

use crate::bytes::be32;
use crate::bytes::from_be32;
use crate::bytes::lemma_be32_round_trip;
use crate::bytes::lemma_from_be32_round_trip;
use crate::bytes::lemma_trim_zeros_pad;
use crate::bytes::lemma_trim_zeros_shape;
use crate::bytes::push_be32;
use crate::bytes::read_be32;
use crate::bytes::trim_zeros;
use crate::bytes::trimmed_length;
use crate::bytes::zero_seq;
use crate::errors::RepairError;

verus! {

/// The protocol versions a header may carry.
#[derive(Clone, Copy, Debug, PartialEq, Eq, Structural)]
pub enum RequestVersion {
    ZEROpOne,
}

/// The kinds of frame that travel on a connection.
///
/// `GetHashes`, `GetFiles` and `Disconnect` go from client to server;
/// `GiveHashes`, `GiveFiles`, `Chunk` and `EndFile` go from server to
/// client.
#[derive(Clone, Copy, Debug, PartialEq, Eq, Structural)]
pub enum RequestType {
    GetHashes,
    GetFiles,
    GiveHashes,
    GiveFiles,
    Chunk,
    EndFile,
    Disconnect,
}

/// The protocol name that opens every request line.
pub open spec fn protocol_name() -> Seq<u8> {
    seq![114, 101, 112, 97, 105, 114, 109, 97, 110]
}

/// The one version value this codec recognizes.
pub open spec fn version_field() -> Seq<u8> {
    seq![48, 46, 49]
}

/// `repairman|0.1|`: the fixed fourteen bytes every valid request line
/// starts with.
pub open spec fn protocol_prefix() -> Seq<u8> {
    protocol_name() + seq![124] + version_field() + seq![124]
}

/// The name of a request type as it appears on the wire.
pub open spec fn type_tag(t: RequestType) -> Seq<u8> {
    match t {
        RequestType::GetHashes => seq![71, 69, 84, 45, 72, 65, 83, 72, 69, 83],
        RequestType::GetFiles => seq![71, 69, 84, 45, 70, 73, 76, 69, 83],
        RequestType::GiveHashes => seq![
            71,
            73,
            86,
            69,
            45,
            72,
            65,
            83,
            72,
            69,
            83,
        ],
        RequestType::GiveFiles => seq![71, 73, 86, 69, 45, 70, 73, 76, 69, 83],
        RequestType::Chunk => seq![67, 72, 85, 78, 75],
        RequestType::EndFile => seq![69, 78, 68, 45, 70, 73, 76, 69],
        RequestType::Disconnect => seq![
            68,
            73,
            83,
            67,
            79,
            78,
            78,
            69,
            67,
            84,
        ],
    }
}

/// The whole request line for a frame of type `t`, before padding.
pub open spec fn request_line(t: RequestType) -> Seq<u8> {
    protocol_prefix() + type_tag(t)
}

/// The 64 header bytes of a frame: the request line, zero-padded to 56
/// bytes, then `file_name_size` and `body_size` in big-endian order.
pub open spec fn spec_encode_header(t: RequestType, file_name_size: u32, body_size: u32) -> Seq<
    u8,
> {
    request_line(t) + zero_seq((56 - request_line(t).len()) as nat) + be32(file_name_size) + be32(
        body_size,
    )
}

/// The request type whose line equals `line`, if any.
pub open spec fn line_type(line: Seq<u8>) -> Option<RequestType> {
    if line == request_line(RequestType::GetHashes) {
        Some(RequestType::GetHashes)
    } else if line == request_line(RequestType::GetFiles) {
        Some(RequestType::GetFiles)
    } else if line == request_line(RequestType::GiveHashes) {
        Some(RequestType::GiveHashes)
    } else if line == request_line(RequestType::GiveFiles) {
        Some(RequestType::GiveFiles)
    } else if line == request_line(RequestType::Chunk) {
        Some(RequestType::Chunk)
    } else if line == request_line(RequestType::EndFile) {
        Some(RequestType::EndFile)
    } else if line == request_line(RequestType::Disconnect) {
        Some(RequestType::Disconnect)
    } else {
        None
    }
}

/// How a trimmed request line that matches no known line is rejected: a
/// wrong protocol name or a mangled shape is an `InvalidFrame`; a line
/// that carries the right name and a complete but unrecognized version
/// field is an `UnsupportedVersion`.
pub open spec fn classify_bad_line(line: Seq<u8>) -> RepairError {
    if line.len() < 9 || line.subrange(0, 9) != protocol_name() {
        RepairError::InvalidFrame
    } else if line.len() >= 14 && line.subrange(0, 14) == protocol_prefix() {
        RepairError::InvalidFrame
    } else if line.len() > 9 && line[9] == 124 && (exists|j: int|
        10 <= j < line.len() && line[j] == 124) {
        RepairError::UnsupportedVersion
    } else {
        RepairError::InvalidFrame
    }
}

/// What a 64-byte header decodes to: the frame's type and its two size
/// fields, or the error that rejects it. Trailing zero bytes of the
/// request-line area are ignored.
pub open spec fn spec_decode_header(h: Seq<u8>) -> Result<(RequestType, u32, u32), RepairError>
    recommends
        h.len() == 64,
{
    let line = trim_zeros(h.subrange(0, 56));
    match line_type(line) {
        Some(t) => Ok((t, from_be32(h[56], h[57], h[58], h[59]), from_be32(h[60], h[61], h[62], h[63]))),
        None => Err(classify_bad_line(line)),
    }
}

/// Every request line starts with the protocol prefix, stays within the
/// 56-byte area, does not end in a zero byte, and is recognized as
/// exactly its own type.
pub proof fn lemma_request_line_wf(t: RequestType)
    ensures
        14 <= request_line(t).len() <= 25,
        request_line(t).last() != 0,
        trim_zeros(request_line(t)) == request_line(t),
        line_type(request_line(t)) == Some(t),
{
    match t {
        RequestType::GetHashes => {
            assert(request_line(t).len() == 24);
        },
        RequestType::GetFiles => {
            assert(request_line(t).len() == 23);
            assert(request_line(t)[18] != request_line(RequestType::GetHashes)[18]);
        },
        RequestType::GiveHashes => {
            assert(request_line(t).len() == 25);
            assert(request_line(t)[15] != request_line(RequestType::GetHashes)[15]);
            assert(request_line(t)[15] != request_line(RequestType::GetFiles)[15]);
        },
        RequestType::GiveFiles => {
            assert(request_line(t).len() == 24);
            assert(request_line(t)[15] != request_line(RequestType::GetHashes)[15]);
            assert(request_line(t)[15] != request_line(RequestType::GetFiles)[15]);
            assert(request_line(t).len() != request_line(RequestType::GiveHashes).len());
        },
        RequestType::Chunk => {
            assert(request_line(t).len() == 19);
            assert(request_line(t)[14] != request_line(RequestType::GetHashes)[14]);
            assert(request_line(t)[14] != request_line(RequestType::GetFiles)[14]);
            assert(request_line(t)[14] != request_line(RequestType::GiveHashes)[14]);
            assert(request_line(t)[14] != request_line(RequestType::GiveFiles)[14]);
        },
        RequestType::EndFile => {
            assert(request_line(t).len() == 22);
            assert(request_line(t)[14] != request_line(RequestType::GetHashes)[14]);
            assert(request_line(t)[14] != request_line(RequestType::GetFiles)[14]);
            assert(request_line(t)[14] != request_line(RequestType::GiveHashes)[14]);
            assert(request_line(t)[14] != request_line(RequestType::GiveFiles)[14]);
            assert(request_line(t)[14] != request_line(RequestType::Chunk)[14]);
        },
        RequestType::Disconnect => {
            assert(request_line(t).len() == 24);
            assert(request_line(t)[14] != request_line(RequestType::GetHashes)[14]);
            assert(request_line(t)[14] != request_line(RequestType::GetFiles)[14]);
            assert(request_line(t)[14] != request_line(RequestType::GiveHashes)[14]);
            assert(request_line(t)[14] != request_line(RequestType::GiveFiles)[14]);
            assert(request_line(t)[14] != request_line(RequestType::Chunk)[14]);
            assert(request_line(t)[14] != request_line(RequestType::EndFile)[14]);
        },
    }
}

/// Every encoded header is exactly 64 bytes.
pub proof fn lemma_header_len(t: RequestType, file_name_size: u32, body_size: u32)
    ensures
        spec_encode_header(t, file_name_size, body_size).len() == 64,
{
    lemma_request_line_wf(t);
}

/// Decoding an encoded header recovers the frame exactly.
pub proof fn lemma_decode_encode(t: RequestType, file_name_size: u32, body_size: u32)
    ensures
        spec_decode_header(spec_encode_header(t, file_name_size, body_size)) == Ok::<
            (RequestType, u32, u32),
            RepairError,
        >((t, file_name_size, body_size)),
{
    let h = spec_encode_header(t, file_name_size, body_size);
    lemma_request_line_wf(t);
    let pad = (56 - request_line(t).len()) as nat;
    assert(h.subrange(0, 56) =~= request_line(t) + zero_seq(pad));
    lemma_trim_zeros_pad(request_line(t), pad);
    assert(trim_zeros(h.subrange(0, 56)) == request_line(t));
    assert(h[56] == be32(file_name_size)[0] && h[57] == be32(file_name_size)[1] && h[58] == be32(
        file_name_size,
    )[2] && h[59] == be32(file_name_size)[3]);
    assert(h[60] == be32(body_size)[0] && h[61] == be32(body_size)[1] && h[62] == be32(body_size)[2]
        && h[63] == be32(body_size)[3]);
    lemma_be32_round_trip(file_name_size);
    lemma_be32_round_trip(body_size);
}

/// Re-encoding a well-formed header reproduces its 64 bytes exactly.
pub proof fn lemma_encode_decode(h: Seq<u8>)
    requires
        h.len() == 64,
        spec_decode_header(h) is Ok,
    ensures
        ({
            let (t, file_name_size, body_size) = spec_decode_header(h)->Ok_0;
            spec_encode_header(t, file_name_size, body_size) == h
        }),
{
    let (t, file_name_size, body_size) = spec_decode_header(h)->Ok_0;
    let area = h.subrange(0, 56);
    let line = trim_zeros(area);
    assert(line == request_line(t));
    lemma_request_line_wf(t);
    lemma_trim_zeros_shape(area);
    assert(area =~= request_line(t) + zero_seq((56 - request_line(t).len()) as nat));
    lemma_from_be32_round_trip(h[56], h[57], h[58], h[59]);
    lemma_from_be32_round_trip(h[60], h[61], h[62], h[63]);
    assert(spec_encode_header(t, file_name_size, body_size) =~= h);
}

/// Two headers whose request-line areas differ only in trailing zero
/// bytes, and whose size fields agree, decode identically.
pub proof fn lemma_trailing_nuls_ignored(h1: Seq<u8>, h2: Seq<u8>)
    requires
        h1.len() == 64,
        h2.len() == 64,
        trim_zeros(h1.subrange(0, 56)) == trim_zeros(h2.subrange(0, 56)),
        h1.subrange(56, 64) == h2.subrange(56, 64),
    ensures
        spec_decode_header(h1) == spec_decode_header(h2),
{
    assert forall|i: int| 56 <= i < 64 implies h1[i] == h2[i] by {
        assert(h1[i] == h1.subrange(56, 64)[i - 56]);
        assert(h2[i] == h2.subrange(56, 64)[i - 56]);
    }
}

/// Writes the fixed `repairman|0.1|` prefix at the end of `out`.
fn push_protocol_prefix(out: &mut Vec<u8>)
    ensures
        final(out)@ == old(out)@ + protocol_prefix(),
{
    out.push(114);
    out.push(101);
    out.push(112);
    out.push(97);
    out.push(105);
    out.push(114);
    out.push(109);
    out.push(97);
    out.push(110);
    out.push(124);
    out.push(48);
    out.push(46);
    out.push(49);
    out.push(124);
    assert(out@ =~= old(out)@ + protocol_prefix());
}

/// Writes the wire name of `t` at the end of `out`.
fn push_type_tag(out: &mut Vec<u8>, t: RequestType)
    ensures
        final(out)@ == old(out)@ + type_tag(t),
{
    match t {
        RequestType::GetHashes => {
            out.push(71);
            out.push(69);
            out.push(84);
            out.push(45);
            out.push(72);
            out.push(65);
            out.push(83);
            out.push(72);
            out.push(69);
            out.push(83);
        },
        RequestType::GetFiles => {
            out.push(71);
            out.push(69);
            out.push(84);
            out.push(45);
            out.push(70);
            out.push(73);
            out.push(76);
            out.push(69);
            out.push(83);
        },
        RequestType::GiveHashes => {
            out.push(71);
            out.push(73);
            out.push(86);
            out.push(69);
            out.push(45);
            out.push(72);
            out.push(65);
            out.push(83);
            out.push(72);
            out.push(69);
            out.push(83);
        },
        RequestType::GiveFiles => {
            out.push(71);
            out.push(73);
            out.push(86);
            out.push(69);
            out.push(45);
            out.push(70);
            out.push(73);
            out.push(76);
            out.push(69);
            out.push(83);
        },
        RequestType::Chunk => {
            out.push(67);
            out.push(72);
            out.push(85);
            out.push(78);
            out.push(75);
        },
        RequestType::EndFile => {
            out.push(69);
            out.push(78);
            out.push(68);
            out.push(45);
            out.push(70);
            out.push(73);
            out.push(76);
            out.push(69);
        },
        RequestType::Disconnect => {
            out.push(68);
            out.push(73);
            out.push(83);
            out.push(67);
            out.push(79);
            out.push(78);
            out.push(78);
            out.push(69);
            out.push(67);
            out.push(84);
        },
    }
    assert(out@ =~= old(out)@ + type_tag(t));
}

/// The request line of `t` as a byte vector.
pub fn request_line_bytes(t: RequestType) -> (r: Vec<u8>)
    ensures
        r@ == request_line(t),
{
    let mut out: Vec<u8> = Vec::new();
    push_protocol_prefix(&mut out);
    push_type_tag(&mut out, t);
    assert(out@ =~= request_line(t));
    out
}

/// Builds the 64 header bytes of a frame.
pub fn create_header(
    version: RequestVersion,
    request_type: RequestType,
    file_name_size: u32,
    body_size: u32,
) -> (r: Vec<u8>)
    ensures
        r@ == spec_encode_header(request_type, file_name_size, body_size),
        r@.len() == 64,
{
    proof {
        lemma_request_line_wf(request_type);
    }
    let mut out = request_line_bytes(request_type);
    while out.len() < 56
        invariant
            request_line(request_type).len() <= out@.len() <= 56,
            out@ == request_line(request_type) + zero_seq(
                (out@.len() - request_line(request_type).len()) as nat,
            ),
        decreases 56 - out@.len(),
    {
        out.push(0u8);
        assert(out@ =~= request_line(request_type) + zero_seq(
            (out@.len() - request_line(request_type).len()) as nat,
        ));
    }
    push_be32(&mut out, file_name_size);
    push_be32(&mut out, body_size);
    assert(out@ =~= spec_encode_header(request_type, file_name_size, body_size));
    out
}

/// True exactly when the two byte slices hold the same bytes.
pub fn bytes_eq(a: &[u8], b: &[u8]) -> (r: bool)
    ensures
        r == (a@ == b@),
{
    if a.len() != b.len() {
        assert(a@ != b@);
        return false;
    }
    let n = a.len();
    let mut i: usize = 0;
    while i < n
        invariant
            i <= n,
            n == a@.len() == b@.len(),
            forall|k: int| 0 <= k < i ==> a@[k] == b@[k],
        decreases n - i,
    {
        if a[i] != b[i] {
            return false;
        }
        i = i + 1;
    }
    proof {
        assert(a@ =~= b@);
    }
    true
}

/// The request type whose line matches `line`, if any.
fn match_line(line: &Vec<u8>) -> (r: Option<RequestType>)
    ensures
        r == line_type(line@),
{
    let get_hashes = request_line_bytes(RequestType::GetHashes);
    if bytes_eq(line.as_slice(), get_hashes.as_slice()) {
        return Some(RequestType::GetHashes);
    }
    let get_files = request_line_bytes(RequestType::GetFiles);
    if bytes_eq(line.as_slice(), get_files.as_slice()) {
        return Some(RequestType::GetFiles);
    }
    let give_hashes = request_line_bytes(RequestType::GiveHashes);
    if bytes_eq(line.as_slice(), give_hashes.as_slice()) {
        return Some(RequestType::GiveHashes);
    }
    let give_files = request_line_bytes(RequestType::GiveFiles);
    if bytes_eq(line.as_slice(), give_files.as_slice()) {
        return Some(RequestType::GiveFiles);
    }
    let chunk = request_line_bytes(RequestType::Chunk);
    if bytes_eq(line.as_slice(), chunk.as_slice()) {
        return Some(RequestType::Chunk);
    }
    let end_file = request_line_bytes(RequestType::EndFile);
    if bytes_eq(line.as_slice(), end_file.as_slice()) {
        return Some(RequestType::EndFile);
    }
    let disconnect = request_line_bytes(RequestType::Disconnect);
    if bytes_eq(line.as_slice(), disconnect.as_slice()) {
        return Some(RequestType::Disconnect);
    }
    None
}

/// Decides which error rejects a request line that matches no known line.
fn classify_line_error(line: &Vec<u8>) -> (e: RepairError)
    requires
        line_type(line@) is None,
    ensures
        e == classify_bad_line(line@),
{
    let name = request_line_bytes(RequestType::GetHashes);
    if line.len() < 9 {
        return RepairError::InvalidFrame;
    }
    let mut i: usize = 0;
    let mut name_ok = true;
    while i < 9
        invariant
            i <= 9,
            line@.len() >= 9,
            name@ == request_line(RequestType::GetHashes),
            name_ok == (forall|k: int| 0 <= k < i ==> line@[k] == protocol_name()[k]),
        decreases 9 - i,
    {
        proof {
            assert(name@[i as int] == protocol_name()[i as int]);
        }
        if *line.get(i).unwrap() != *name.get(i).unwrap() {
            name_ok = false;
        }
        i = i + 1;
    }
    proof {
        if name_ok {
            assert(line@.subrange(0, 9) =~= protocol_name());
        } else {
            assert(line@.subrange(0, 9) != protocol_name());
        }
    }
    if !name_ok {
        return RepairError::InvalidFrame;
    }
    if line.len() >= 14 {
        let mut prefix_ok = true;
        let mut j: usize = 0;
        while j < 14
            invariant
                j <= 14,
                line@.len() >= 14,
                name@ == request_line(RequestType::GetHashes),
                prefix_ok == (forall|k: int| 0 <= k < j ==> line@[k] == protocol_prefix()[k]),
            decreases 14 - j,
        {
            proof {
                assert(name@[j as int] == protocol_prefix()[j as int]);
            }
            if *line.get(j).unwrap() != *name.get(j).unwrap() {
                prefix_ok = false;
            }
            j = j + 1;
        }
        proof {
            if prefix_ok {
                assert(line@.subrange(0, 14) =~= protocol_prefix());
            } else {
                assert(line@.subrange(0, 14) != protocol_prefix());
            }
        }
        if prefix_ok {
            return RepairError::InvalidFrame;
        }
    }
    if line.len() > 9 && line[9] == 124 {
        let mut j: usize = 10;
        while j < line.len()
            invariant
                10 <= j <= line@.len(),
                line@.subrange(0, 9) == protocol_name(),
                !(line@.len() >= 14 && line@.subrange(0, 14) == protocol_prefix()),
                line@[9] == 124,
                forall|k: int| 10 <= k < j ==> line@[k] != 124,
            decreases line@.len() - j,
        {
            if line[j] == 124 {
                proof {
                    assert(10 <= j < line@.len() && line@[j as int] == 124);
                    assert(exists|k: int| 10 <= k < line@.len() && line@[k] == 124);
                }
                return RepairError::UnsupportedVersion;
            }
            j = j + 1;
        }
    }
    RepairError::InvalidFrame
}

/// A request parsed in the deprecated whole-body dialect: the body bytes
/// travel with the header.
pub struct Request {
    pub version: RequestVersion,
    pub request_type: RequestType,
    pub file_name_size: Option<usize>,
    pub body: Option<Vec<u8>>,
}

impl Request {
    /// Packs the four fields of a parsed request.
    pub fn new(
        version: RequestVersion,
        request_type: RequestType,
        file_name_size: Option<usize>,
        body: Option<Vec<u8>>,
    ) -> (r: Request)
        ensures
            r.version == version,
            r.request_type == request_type,
            r.file_name_size == file_name_size,
            r.body == body,
    {
        Request { version, request_type, file_name_size, body }
    }

    /// The protocol version the request carried.
    pub fn get_version(&self) -> (r: &RequestVersion)
        ensures
            r == self.version,
    {
        &self.version
    }

    /// The kind of frame this request is.
    pub fn get_type(&self) -> (r: &RequestType)
        ensures
            r == self.request_type,
    {
        &self.request_type
    }

    /// How many body bytes form the leading relative path, when the type
    /// carries one.
    pub fn get_file_name_size(&self) -> (r: &Option<usize>)
        ensures
            r == self.file_name_size,
    {
        &self.file_name_size
    }

    /// The body bytes, when the type carries a body.
    pub fn get_body(&self) -> (r: &Option<Vec<u8>>)
        ensures
            r == self.body,
    {
        &self.body
    }
}

/// A parsed header of the streaming dialect: sizes only, the body is
/// read separately.
pub struct NewRequest {
    pub version: RequestVersion,
    pub request_type: RequestType,
    pub file_name_size: Option<usize>,
    pub body_size: Option<usize>,
}

/// Which `file_name_size` field a parsed header of type `t` reports: the
/// types that never carry an embedded path report none.
pub open spec fn spec_name_size_field(t: RequestType, file_name_size: u32) -> Option<usize> {
    if t == RequestType::GetHashes || t == RequestType::GiveHashes {
        None
    } else {
        Some(file_name_size as usize)
    }
}

/// Which `body_size` field a parsed header of type `t` reports: a
/// `GetHashes` frame never has a body.
pub open spec fn spec_body_size_field(t: RequestType, body_size: u32) -> Option<usize> {
    if t == RequestType::GetHashes {
        None
    } else {
        Some(body_size as usize)
    }
}

impl NewRequest {
    /// Packs the four fields of a parsed header.
    pub fn new(
        version: RequestVersion,
        request_type: RequestType,
        file_name_size: Option<usize>,
        body_size: Option<usize>,
    ) -> (r: NewRequest)
        ensures
            r.version == version,
            r.request_type == request_type,
            r.file_name_size == file_name_size,
            r.body_size == body_size,
    {
        NewRequest { version, request_type, file_name_size, body_size }
    }

    /// The protocol version the header carried.
    pub fn get_version(&self) -> (r: &RequestVersion)
        ensures
            r == self.version,
    {
        &self.version
    }

    /// The kind of frame this header announces.
    pub fn get_type(&self) -> (r: &RequestType)
        ensures
            r == self.request_type,
    {
        &self.request_type
    }

    /// How many body bytes form the leading relative path, when the type
    /// carries one.
    pub fn get_file_name_size(&self) -> (r: &Option<usize>)
        ensures
            r == self.file_name_size,
    {
        &self.file_name_size
    }

    /// How many body bytes follow the header, when the type has a body.
    pub fn get_body_size(&self) -> (r: &Option<usize>)
        ensures
            r == self.body_size,
    {
        &self.body_size
    }
}

/// Parses 64 header bytes into a request, or rejects them.
///
/// Succeeds exactly when `spec_decode_header` does, and then reports the
/// decoded type and sizes under the conventions of `spec_name_size_field`
/// and `spec_body_size_field`.
pub fn parse_request(header: &[u8]) -> (r: Result<NewRequest, RepairError>)
    requires
        header@.len() == 64,
    ensures
        r is Ok <==> spec_decode_header(header@) is Ok,
        r matches Ok(req) ==> {
            let (t, file_name_size, body_size) = spec_decode_header(header@)->Ok_0;
            &&& req.version == RequestVersion::ZEROpOne
            &&& req.request_type == t
            &&& req.file_name_size == spec_name_size_field(t, file_name_size)
            &&& req.body_size == spec_body_size_field(t, body_size)
        },
        r matches Err(e) ==> spec_decode_header(header@) == Err::<
            (RequestType, u32, u32),
            RepairError,
        >(e),
{
    let mut line: Vec<u8> = Vec::new();
    let mut i: usize = 0;
    while i < 56
        invariant
            i <= 56,
            header@.len() == 64,
            line@ == header@.subrange(0, i as int),
        decreases 56 - i,
    {
        line.push(header[i]);
        assert(line@ =~= header@.subrange(0, i + 1));
        i = i + 1;
    }
    let n = trimmed_length(line.as_slice());
    proof {
        assert(line@.subrange(0, n as int) == trim_zeros(header@.subrange(0, 56)));
    }
    line.truncate(n);
    let file_name_size = read_be32(header, 56);
    let body_size = read_be32(header, 60);
    match match_line(&line) {
        Some(t) => {
            let name_field = match t {
                RequestType::GetHashes => None,
                RequestType::GiveHashes => None,
                _ => Some(file_name_size as usize),
            };
            let body_field = match t {
                RequestType::GetHashes => None,
                _ => Some(body_size as usize),
            };
            Ok(NewRequest::new(RequestVersion::ZEROpOne, t, name_field, body_field))
        },
        None => Err(classify_line_error(&line)),
    }
}

} // verus!
