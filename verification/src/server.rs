//! The server-side dispatch and response building.
//!
//! A connection handler parses one header at a time and acts on it:
//! `GetHashes` answers with the manifest, `GetFiles` streams the
//! requested files, `Disconnect` ends the session cleanly, and any other
//! request type is a protocol violation that closes the connection. The
//! socket work happens outside the library.
use vstd::prelude::*;
use vstd::string::StrSliceExecFns;
use vstd::utf8::encode_utf8;

use crate::frame::RequestType;
use crate::frame::RequestVersion;
use crate::frame::create_header;
use crate::frame::spec_encode_header;
use crate::manifest::HashedFile;
use crate::manifest::format_manifest;
use crate::manifest::manifest_model;
use crate::manifest::spec_manifest_text;
use crate::transfer::append_range;

verus! {

/// What the server does with one parsed request.
#[derive(Clone, Copy, Debug, PartialEq, Eq, Structural)]
pub enum ServerAction {
    /// Answer with the `GiveHashes` manifest frame.
    SendManifest,
    /// Read the body of wanted paths and stream the files back.
    SendFiles,
    /// End the session cleanly.
    EndSession,
    /// Close the connection: this type may not travel client to server.
    Violation,
}

/// How each request type is dispatched: only `GetHashes`, `GetFiles`
/// and `Disconnect` may travel from client to server.
pub open spec fn spec_dispatch(t: RequestType) -> ServerAction {
    match t {
        RequestType::GetHashes => ServerAction::SendManifest,
        RequestType::GetFiles => ServerAction::SendFiles,
        RequestType::Disconnect => ServerAction::EndSession,
        _ => ServerAction::Violation,
    }
}

/// Decides what to do with one parsed request.
pub fn dispatch_request(t: &RequestType) -> (a: ServerAction)
    ensures
        a == spec_dispatch(*t),
{
    match t {
        RequestType::GetHashes => ServerAction::SendManifest,
        RequestType::GetFiles => ServerAction::SendFiles,
        RequestType::Disconnect => ServerAction::EndSession,
        _ => ServerAction::Violation,
    }
}

/// Builds the whole `GiveHashes` response: the header carrying the
/// manifest text's byte length, then the manifest text. Fails only when
/// the text does not fit a 32-bit body size.
pub fn give_hashes_response(files: &Vec<HashedFile>) -> (r: Option<Vec<u8>>)
    ensures
        match r {
            Some(v) => encode_utf8(spec_manifest_text(manifest_model(files@))).len() <= u32::MAX
                && v@ == spec_encode_header(
                RequestType::GiveHashes,
                0,
                encode_utf8(spec_manifest_text(manifest_model(files@))).len() as u32,
            ) + encode_utf8(spec_manifest_text(manifest_model(files@))),
            None => encode_utf8(spec_manifest_text(manifest_model(files@))).len() > u32::MAX,
        },
{
    let body = format_manifest(files);
    let bytes = body.as_str().as_bytes();
    let n = bytes.len();
    if n > u32::MAX as usize {
        return None;
    }
    let mut out = create_header(RequestVersion::ZEROpOne, RequestType::GiveHashes, 0, n as u32);
    append_range(&mut out, bytes, 0, n);
    proof {
        assert(bytes@.subrange(0, n as int) =~= encode_utf8(
            spec_manifest_text(manifest_model(files@)),
        ));
    }
    Some(out)
}

} // verus!
