//! The client-side unpacker and request building.
//!
//! The read loop decodes frames from the socket and hands the unpacker a
//! stream of events: one `StartFile` per transferred file, a `Content`
//! event per fragment of compressed bytes, and one `FileDone` when the
//! file's end marker arrives. The unpacker holds one file in flight at a
//! time and commits it on `FileDone`; writing the committed bytes to disk
//! happens outside the library.
use vstd::prelude::*;
use vstd::utf8::encode_utf8;

use crate::compress::spec_pack;
use crate::compress::unpack_bytes;
use crate::errors::RepairError;
use crate::frame::RequestType;
use crate::frame::RequestVersion;
use crate::frame::create_header;
use crate::frame::spec_encode_header;
use crate::transfer::append_range;

verus! {

/// One event handed from the read loop to the unpacker.
pub enum UnpackEvent {
    /// A `GiveFiles` prologue arrived: the file's relative path and the
    /// announced body size.
    StartFile(String, usize),
    /// One fragment of the file's compressed bytes arrived.
    Content(Vec<u8>),
    /// The file's `EndFile` marker arrived.
    FileDone,
}

/// The unpacker: accumulates the compressed bytes of the one file in
/// flight and turns them back into the file's content when its end
/// marker arrives.
pub struct Unpacker {
    pub current: Option<(String, Vec<u8>)>,
}

impl Unpacker {
    /// A fresh unpacker with no file in flight.
    pub fn new() -> (r: Unpacker)
        ensures
            r.current is None,
    {
        Unpacker { current: None }
    }

    /// Applies one event.
    ///
    /// `StartFile` opens a new file; a second `StartFile` before the end
    /// marker of the first is a protocol violation, since events of one
    /// file arrive contiguously. `Content` bytes extend the file in
    /// flight, and are dropped when none is open. `FileDone` unpacks
    /// what accumulated and hands the finished file back: an empty
    /// accumulation yields an empty file, the packing of any content
    /// yields exactly that content, and bytes that nothing packs to are
    /// a decompression error.
    pub fn handle_event(&mut self, event: UnpackEvent) -> (r: Result<
        Option<(String, Vec<u8>)>,
        RepairError,
    >)
        ensures
            match event {
                UnpackEvent::StartFile(name, _announced) => match old(self).current {
                    None => r matches Ok(d) && d is None && (final(self).current matches Some(c)
                        && c.0 == name && c.1@ == Seq::<u8>::empty()),
                    Some(_) => r matches Err(e) && e == RepairError::ProtocolViolation
                        && final(self).current == old(self).current,
                },
                UnpackEvent::Content(bytes) => r matches Ok(d) && d is None
                    && (match old(self).current {
                    Some(c) => final(self).current matches Some(c2) && c2.0 == c.0 && c2.1@ == c.1@
                        + bytes@,
                    None => final(self).current is None,
                }),
                UnpackEvent::FileDone => final(self).current is None
                    && (match old(self).current {
                    None => r matches Ok(d) && d is None,
                    Some(c) => (c.1@.len() == 0 ==> (r matches Ok(d) && (d matches Some(f) && f.0
                        == c.0 && f.1@ == Seq::<u8>::empty()))) && (forall|orig: Seq<u8>|
                        (c.1@.len() > 0 && c.1@ == spec_pack(orig)) ==> (r matches Ok(d)
                            && (d matches Some(f) && f.0 == c.0 && f.1@ == orig))) && (
                    r matches Err(e) ==> e == RepairError::DecompressionError),
                }),
            },
    {
        match event {
            UnpackEvent::StartFile(name, _announced) => {
                if self.current.is_some() {
                    return Err(RepairError::ProtocolViolation);
                }
                self.current = Some((name, Vec::new()));
                Ok(None)
            },
            UnpackEvent::Content(bytes) => {
                let cur = self.current.take();
                match cur {
                    Some((name, buf)) => {
                        let mut buf = buf;
                        let mut incoming = bytes;
                        buf.append(&mut incoming);
                        self.current = Some((name, buf));
                        Ok(None)
                    },
                    None => Ok(None),
                }
            },
            UnpackEvent::FileDone => {
                let cur = self.current.take();
                match cur {
                    None => Ok(None),
                    Some((name, buf)) => match unpack_bytes(buf.as_slice()) {
                        Ok(content) => Ok(Some((name, content))),
                        Err(e) => Err(e),
                    },
                }
            },
        }
    }
}

/// Builds the whole `GetFiles` request: the header carrying the body's
/// byte length, then the body text listing the wanted paths.
pub fn encode_get_files(body: &str) -> (r: Vec<u8>)
    requires
        encode_utf8(body@).len() <= u32::MAX,
    ensures
        r@ == spec_encode_header(RequestType::GetFiles, 0, encode_utf8(body@).len() as u32)
            + encode_utf8(body@),
{
    let bytes = body.as_bytes();
    let n = bytes.len();
    let mut out = create_header(RequestVersion::ZEROpOne, RequestType::GetFiles, 0, n as u32);
    append_range(&mut out, bytes, 0, n);
    proof {
        assert(bytes@.subrange(0, n as int) =~= encode_utf8(body@));
    }
    out
}

} // verus!
