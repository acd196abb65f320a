use repairman::client::UnpackEvent;
use repairman::client::Unpacker;
use repairman::client::encode_get_files;
use repairman::compress::pack_bytes;
use repairman::compress::unpack_bytes;
use repairman::digest::digest_hex;
use repairman::errors::RepairError;
use repairman::frame::RequestType;
use repairman::frame::parse_request;
use repairman::manifest::HashedFile;
use repairman::manifest::format_manifest;
use repairman::manifest::parse_manifest;
use repairman::manifest::parse_path_list;
use repairman::reconcile::FileState;
use repairman::reconcile::LocalObservation;
use repairman::reconcile::reconcile;
use repairman::reconcile::request_body;
use repairman::server::ServerAction;
use repairman::server::dispatch_request;
use repairman::server::give_hashes_response;
use repairman::transfer::decode_transfer;
use repairman::transfer::encode_file_transfer;
use repairman::transfer::encode_transfer;

use blake2::Digest;

const CHUNK: usize = 8192;

/// An in-memory server: relative paths with their contents.
struct Server {
    files: Vec<(String, Vec<u8>)>,
}

impl Server {
    fn manifest(&self) -> Vec<HashedFile> {
        self.files.iter().map(|(p, c)| HashedFile::new(p, &digest_hex(c))).collect()
    }

    /// Answers a `GetFiles` body with the full transfer byte stream.
    fn serve(&self, body: &str) -> Vec<u8> {
        let wanted = parse_path_list(body);
        let mut paths: Vec<String> = Vec::new();
        let mut artifacts: Vec<Vec<u8>> = Vec::new();
        for w in &wanted {
            let content = &self.files.iter().find(|(p, _)| p == w).expect("unknown path").1;
            paths.push(w.clone());
            artifacts.push(pack_bytes(content));
        }
        encode_transfer(&paths, &artifacts, CHUNK)
    }
}

/// An in-memory client root: relative paths with their contents.
struct Client {
    files: Vec<(String, Vec<u8>)>,
    exists: bool,
}

impl Client {
    fn observe(&self, manifest: &[HashedFile]) -> Vec<LocalObservation> {
        manifest
            .iter()
            .map(|e| {
                if !self.exists {
                    return LocalObservation::Absent;
                }
                match self.files.iter().find(|(p, _)| p == e.get_path()) {
                    Some((_, c)) => LocalObservation::Digest(digest_hex(c)),
                    None => LocalObservation::Absent,
                }
            })
            .collect()
    }

    fn store(&mut self, path: String, content: Vec<u8>) {
        self.exists = true;
        self.files.retain(|(p, _)| *p != path);
        self.files.push((path, content));
    }

    /// One whole repair pass; returns how many files were transferred.
    fn run(&mut self, server: &Server) -> usize {
        let manifest_text = format_manifest(&server.manifest());
        let manifest = parse_manifest(&manifest_text).expect("server manifest must parse");
        let obs = self.observe(&manifest);
        let states = reconcile(&manifest, &obs);
        let body = request_body(&manifest, &states);
        let count = parse_path_list(&body).len();
        let stream = server.serve(&body);
        let received = decode_transfer(&stream, count).expect("transfer must decode");
        assert_eq!(received.len(), count);
        for (path, artifact) in received {
            let content = unpack_bytes(&artifact).expect("artifact must unpack");
            self.store(path, content);
        }
        count
    }
}

#[test]
fn fresh_install_repairs_everything() {
    let server = Server { files: vec![("readme.txt".to_string(), b"hi\n".to_vec())] };
    let mut client = Client { files: Vec::new(), exists: false };

    let transferred = client.run(&server);
    assert_eq!(transferred, 1);
    assert_eq!(client.files.len(), 1);
    assert_eq!(client.files[0].0, "readme.txt");
    assert_eq!(client.files[0].1, b"hi\n".to_vec());

    let transferred_again = client.run(&server);
    assert_eq!(transferred_again, 0);
}

#[test]
fn single_corrupted_file_is_repaired() {
    let a = vec![0u8; 100 * 1024];
    let b = vec![0x55u8; 100 * 1024];
    let server = Server {
        files: vec![("a.bin".to_string(), a.clone()), ("b.bin".to_string(), b.clone())],
    };
    let mut flipped = a.clone();
    flipped[42] ^= 0xff;
    let mut client = Client {
        files: vec![("a.bin".to_string(), flipped), ("b.bin".to_string(), b.clone())],
        exists: true,
    };

    let manifest = server.manifest();
    let obs = client.observe(&manifest);
    let states = reconcile(&manifest, &obs);
    assert_eq!(states, vec![FileState::Corrupted, FileState::Present]);
    assert_eq!(request_body(&manifest, &states), "a.bin\n");

    let transferred = client.run(&server);
    assert_eq!(transferred, 1);
    let repaired = &client.files.iter().find(|(p, _)| p == "a.bin").unwrap().1;
    assert_eq!(digest_hex(repaired), digest_hex(&a));
}

#[test]
fn large_file_travels_in_many_chunks() {
    let mut big = Vec::with_capacity(4 * 1024 * 1024);
    let mut state: u32 = 0x12345678;
    for _ in 0..4 * 1024 * 1024 {
        state = state.wrapping_mul(1664525).wrapping_add(1013904223);
        big.push((state >> 24) as u8);
    }
    let server = Server { files: vec![("big.dat".to_string(), big.clone())] };
    let mut client = Client { files: Vec::new(), exists: false };

    // Count the chunk frames in the raw stream.
    let stream = server.serve("big.dat\n");
    let mut pos = 0usize;
    let mut chunks = 0usize;
    while pos + 64 <= stream.len() {
        let req = parse_request(&stream[pos..pos + 64]).expect("frame header must parse");
        pos += 64;
        match *req.get_type() {
            RequestType::GiveFiles => pos += req.get_file_name_size().unwrap(),
            RequestType::Chunk => {
                let body = req.get_body_size().unwrap();
                assert!(body > 0);
                chunks += 1;
                pos += body;
            },
            RequestType::EndFile => {},
            _ => panic!("unexpected frame in a transfer stream"),
        }
    }
    assert_eq!(pos, stream.len());
    assert!(chunks >= 2);

    let transferred = client.run(&server);
    assert_eq!(transferred, 1);
    assert_eq!(digest_hex(&client.files[0].1), digest_hex(&big));
    assert_eq!(client.run(&server), 0);
}

#[test]
fn zero_length_file_travels_without_chunks() {
    let artifact = pack_bytes(b"");
    assert!(artifact.is_empty());
    let stream = encode_file_transfer("empty.txt", &artifact, CHUNK);
    // One GiveFiles prologue with the path, one EndFile marker, nothing else.
    assert_eq!(stream.len(), 64 + "empty.txt".len() + 64);
    let req = parse_request(&stream[..64]).unwrap();
    assert_eq!(*req.get_type(), RequestType::GiveFiles);
    let end = parse_request(&stream[64 + "empty.txt".len()..]).unwrap();
    assert_eq!(*end.get_type(), RequestType::EndFile);

    let received = decode_transfer(&stream, 1).unwrap();
    assert_eq!(received[0].0, "empty.txt");
    assert!(received[0].1.is_empty());
    assert_eq!(unpack_bytes(&received[0].1).unwrap(), Vec::<u8>::new());
}

#[test]
fn nested_paths_travel_intact() {
    let server = Server { files: vec![("a/b/c.txt".to_string(), b"deep".to_vec())] };
    let mut client = Client { files: Vec::new(), exists: false };
    client.run(&server);
    assert_eq!(client.files[0].0, "a/b/c.txt");
    assert_eq!(client.files[0].1, b"deep".to_vec());
}

#[test]
fn empty_server_root_transfers_nothing() {
    let server = Server { files: Vec::new() };
    let mut client = Client { files: Vec::new(), exists: false };
    let manifest = server.manifest();
    assert_eq!(format_manifest(&manifest), "");
    let transferred = client.run(&server);
    assert_eq!(transferred, 0);
    assert!(client.files.is_empty());
}

#[test]
fn unpacker_commits_files_in_event_order() {
    let content = b"stream me in pieces please".to_vec();
    let artifact = pack_bytes(&content);
    let half = artifact.len() / 2;
    let mut unpacker = Unpacker::new();

    let started = unpacker
        .handle_event(UnpackEvent::StartFile("f.bin".to_string(), artifact.len()))
        .unwrap();
    assert!(started.is_none());
    let fed = unpacker.handle_event(UnpackEvent::Content(artifact[..half].to_vec())).unwrap();
    assert!(fed.is_none());
    unpacker.handle_event(UnpackEvent::Content(artifact[half..].to_vec())).unwrap();
    let done = unpacker.handle_event(UnpackEvent::FileDone).unwrap();
    let (path, bytes) = done.expect("the end marker must commit the file");
    assert_eq!(path, "f.bin");
    assert_eq!(bytes, content);
}

#[test]
fn unpacker_rejects_nested_start() {
    let mut unpacker = Unpacker::new();
    unpacker.handle_event(UnpackEvent::StartFile("a".to_string(), 0)).unwrap();
    match unpacker.handle_event(UnpackEvent::StartFile("b".to_string(), 0)) {
        Err(e) => assert_eq!(e, RepairError::ProtocolViolation),
        Ok(_) => panic!("a second start before the end marker must be rejected"),
    }
}

#[test]
fn garbage_artifact_is_a_decompression_error() {
    match unpack_bytes(&[0xff, 0xff, 0xff, 0xff, 0xff, 0xff, 0xff]) {
        Err(e) => assert_eq!(e, RepairError::DecompressionError),
        Ok(_) => panic!("bytes that nothing packs to must be rejected"),
    }
}

#[test]
fn compression_round_trips_and_shrinks_redundancy() {
    let content = vec![7u8; 4096];
    let artifact = pack_bytes(&content);
    assert!(artifact.len() < content.len());
    assert_eq!(unpack_bytes(&artifact).unwrap(), content);
}

#[test]
fn digest_matches_an_independent_rendering() {
    let data = b"abc";
    let raw = blake2::Blake2s256::digest(data);
    let mut expected = String::new();
    for byte in raw {
        expected.push_str(&format!("{:02x}", byte));
    }
    assert_eq!(digest_hex(data), expected);
    assert_eq!(digest_hex(b"").len(), 64);
    assert_ne!(digest_hex(b"abc"), digest_hex(b"abd"));
}

#[test]
fn give_hashes_response_frames_the_manifest() {
    let files = vec![HashedFile::new("x.txt", "00ff")];
    let response = give_hashes_response(&files).expect("small manifest must fit");
    let req = parse_request(&response[..64]).unwrap();
    assert_eq!(*req.get_type(), RequestType::GiveHashes);
    let body_size = req.get_body_size().unwrap();
    assert_eq!(body_size, response.len() - 64);
    let body = std::str::from_utf8(&response[64..]).unwrap();
    assert_eq!(body, "x.txt 00ff\n");
    assert_eq!(parse_manifest(body).unwrap().len(), 1);
}

#[test]
fn get_files_request_frames_the_body() {
    let frame = encode_get_files("a.bin\nb.bin\n");
    let req = parse_request(&frame[..64]).unwrap();
    assert_eq!(*req.get_type(), RequestType::GetFiles);
    assert_eq!(req.get_body_size().unwrap(), "a.bin\nb.bin\n".len());
    assert_eq!(&frame[64..], "a.bin\nb.bin\n".as_bytes());
}

#[test]
fn dispatch_accepts_only_client_requests() {
    assert_eq!(dispatch_request(&RequestType::GetHashes), ServerAction::SendManifest);
    assert_eq!(dispatch_request(&RequestType::GetFiles), ServerAction::SendFiles);
    assert_eq!(dispatch_request(&RequestType::Disconnect), ServerAction::EndSession);
    assert_eq!(dispatch_request(&RequestType::GiveHashes), ServerAction::Violation);
    assert_eq!(dispatch_request(&RequestType::GiveFiles), ServerAction::Violation);
    assert_eq!(dispatch_request(&RequestType::Chunk), ServerAction::Violation);
    assert_eq!(dispatch_request(&RequestType::EndFile), ServerAction::Violation);
}

#[test]
fn truncated_transfer_is_a_transport_error() {
    let artifact = pack_bytes(b"something to send");
    let stream = encode_file_transfer("f", &artifact, CHUNK);
    match decode_transfer(&stream[..stream.len() - 1], 1) {
        Err(e) => assert_eq!(e, RepairError::TransportError),
        Ok(_) => panic!("a truncated stream must be rejected"),
    }
}

#[test]
fn trailing_bytes_after_transfer_are_rejected() {
    let artifact = pack_bytes(b"payload");
    let mut stream = encode_file_transfer("f", &artifact, CHUNK);
    stream.push(0);
    match decode_transfer(&stream, 1) {
        Err(e) => assert_eq!(e, RepairError::ProtocolViolation),
        Ok(_) => panic!("leftover bytes must be rejected"),
    }
}

#[test]
fn non_utf8_file_name_is_a_bad_path() {
    let mut stream = repairman::frame::create_header(
        repairman::frame::RequestVersion::ZEROpOne,
        RequestType::GiveFiles,
        2,
        0,
    );
    stream.extend_from_slice(&[0xff, 0xfe]);
    stream.extend_from_slice(&repairman::frame::create_header(
        repairman::frame::RequestVersion::ZEROpOne,
        RequestType::EndFile,
        0,
        0,
    ));
    match decode_transfer(&stream, 1) {
        Err(e) => assert_eq!(e, RepairError::BadPath),
        Ok(_) => panic!("a name that is not UTF-8 must be rejected"),
    }
}
