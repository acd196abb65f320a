use repairman::errors::RepairError;
use repairman::frame::NewRequest;
use repairman::frame::Request;
use repairman::frame::RequestType;
use repairman::frame::RequestVersion;
use repairman::frame::create_header;
use repairman::frame::parse_request;

fn raw_header(line: &[u8], file_name_size: u32, body_size: u32) -> Vec<u8> {
    let mut h = vec![0u8; 64];
    h[..line.len()].copy_from_slice(line);
    h[56..60].copy_from_slice(&file_name_size.to_be_bytes());
    h[60..64].copy_from_slice(&body_size.to_be_bytes());
    h
}

#[test]
fn header_is_64_bytes_with_nul_padded_line() {
    let h = create_header(RequestVersion::ZEROpOne, RequestType::GetHashes, 0, 0);
    assert_eq!(h.len(), 64);
    assert_eq!(&h[..24], b"repairman|0.1|GET-HASHES");
    for i in 24..56 {
        assert_eq!(h[i], 0);
    }
    assert_eq!(&h[56..64], &[0u8; 8]);
}

#[test]
fn header_sizes_are_big_endian() {
    let h = create_header(RequestVersion::ZEROpOne, RequestType::GiveFiles, 7, 0x01020304);
    assert_eq!(&h[56..60], &[0, 0, 0, 7]);
    assert_eq!(&h[60..64], &[1, 2, 3, 4]);
}

#[test]
fn every_type_round_trips() {
    let cases = [
        RequestType::GetHashes,
        RequestType::GetFiles,
        RequestType::GiveHashes,
        RequestType::GiveFiles,
        RequestType::Chunk,
        RequestType::EndFile,
        RequestType::Disconnect,
    ];
    for t in cases {
        let h = create_header(RequestVersion::ZEROpOne, t, 5, 900);
        let req = parse_request(&h).expect("well-formed header must parse");
        assert_eq!(*req.get_type(), t);
        assert_eq!(*req.get_version(), RequestVersion::ZEROpOne);
    }
}

#[test]
fn size_fields_follow_the_type() {
    let h = create_header(RequestVersion::ZEROpOne, RequestType::GetHashes, 5, 900);
    let req = parse_request(&h).unwrap();
    assert_eq!(*req.get_file_name_size(), None);
    assert_eq!(*req.get_body_size(), None);

    let h = create_header(RequestVersion::ZEROpOne, RequestType::GiveHashes, 5, 900);
    let req = parse_request(&h).unwrap();
    assert_eq!(*req.get_file_name_size(), None);
    assert_eq!(*req.get_body_size(), Some(900));

    let h = create_header(RequestVersion::ZEROpOne, RequestType::GiveFiles, 5, 900);
    let req = parse_request(&h).unwrap();
    assert_eq!(*req.get_file_name_size(), Some(5));
    assert_eq!(*req.get_body_size(), Some(900));
}

#[test]
fn unsupported_version_is_rejected() {
    let h = raw_header(b"repairman|9.9|GET-HASHES", 0, 0);
    match parse_request(&h) {
        Err(e) => assert_eq!(e, RepairError::UnsupportedVersion),
        Ok(_) => panic!("header with an unknown version must not parse"),
    }
}

#[test]
fn wrong_protocol_name_is_rejected() {
    let h = raw_header(b"mendman|0.1|GET-HASHES", 0, 0);
    match parse_request(&h) {
        Err(e) => assert_eq!(e, RepairError::InvalidFrame),
        Ok(_) => panic!("header with a wrong protocol name must not parse"),
    }
}

#[test]
fn unknown_request_type_is_rejected() {
    let h = raw_header(b"repairman|0.1|FETCH", 0, 0);
    match parse_request(&h) {
        Err(e) => assert_eq!(e, RepairError::InvalidFrame),
        Ok(_) => panic!("header with an unknown type must not parse"),
    }
}

#[test]
fn empty_request_line_is_rejected() {
    let h = raw_header(b"", 0, 0);
    match parse_request(&h) {
        Err(e) => assert_eq!(e, RepairError::InvalidFrame),
        Ok(_) => panic!("empty request line must not parse"),
    }
}

#[test]
fn constructors_keep_their_fields() {
    let old = Request::new(
        RequestVersion::ZEROpOne,
        RequestType::GiveHashes,
        Some(4),
        Some(vec![1, 2, 3]),
    );
    assert_eq!(*old.get_version(), RequestVersion::ZEROpOne);
    assert_eq!(*old.get_type(), RequestType::GiveHashes);
    assert_eq!(*old.get_file_name_size(), Some(4));
    assert_eq!(old.get_body().as_ref().unwrap(), &vec![1, 2, 3]);

    let new = NewRequest::new(RequestVersion::ZEROpOne, RequestType::Chunk, Some(0), Some(8192));
    assert_eq!(*new.get_version(), RequestVersion::ZEROpOne);
    assert_eq!(*new.get_type(), RequestType::Chunk);
    assert_eq!(*new.get_file_name_size(), Some(0));
    assert_eq!(*new.get_body_size(), Some(8192));
}
