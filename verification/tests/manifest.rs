use repairman::errors::RepairError;
use repairman::manifest::HashedFile;
use repairman::manifest::format_manifest;
use repairman::manifest::format_path_list;
use repairman::manifest::parse_manifest;
use repairman::manifest::parse_path_list;

#[test]
fn manifest_text_is_one_line_per_entry() {
    let files = vec![HashedFile::new("a.txt", "1111"), HashedFile::new("b/c.bin", "2222")];
    let text = format_manifest(&files);
    assert_eq!(text, "a.txt 1111\nb/c.bin 2222\n");
}

#[test]
fn manifest_round_trips() {
    let files = vec![
        HashedFile::new("readme.txt", "aa"),
        HashedFile::new("dir/sub/file.bin", "bb"),
        HashedFile::new("z", "cc"),
    ];
    let text = format_manifest(&files);
    let parsed = parse_manifest(&text).expect("formatted manifest must parse");
    assert_eq!(parsed.len(), files.len());
    for (orig, back) in files.iter().zip(parsed.iter()) {
        assert_eq!(orig.get_path(), back.get_path());
        assert_eq!(orig.get_hash(), back.get_hash());
    }
}

#[test]
fn manifest_line_without_space_is_rejected() {
    match parse_manifest("good name\nbad-line\n") {
        Err(e) => assert_eq!(e, RepairError::InvalidFrame),
        Ok(_) => panic!("a line without a space must be rejected"),
    }
}

#[test]
fn manifest_final_line_may_lack_its_newline() {
    let parsed = parse_manifest("a.txt 11\nb.txt 22").unwrap();
    assert_eq!(parsed.len(), 2);
    assert_eq!(parsed[1].get_path(), "b.txt");
    assert_eq!(parsed[1].get_hash(), "22");
}

#[test]
fn empty_manifest_is_empty_text() {
    let files: Vec<HashedFile> = Vec::new();
    assert_eq!(format_manifest(&files), "");
    let parsed = parse_manifest("").unwrap();
    assert!(parsed.is_empty());
}

#[test]
fn manifest_hash_keeps_everything_after_first_space() {
    let parsed = parse_manifest("p.txt ab cd\n").unwrap();
    assert_eq!(parsed.len(), 1);
    assert_eq!(parsed[0].get_path(), "p.txt");
    assert_eq!(parsed[0].get_hash(), "ab cd");
}

#[test]
fn path_list_round_trips() {
    let paths = vec!["a.bin".to_string(), "dir/b.bin".to_string()];
    let body = format_path_list(&paths);
    assert_eq!(body, "a.bin\ndir/b.bin\n");
    let back = parse_path_list(&body);
    assert_eq!(back, paths);
}

#[test]
fn empty_path_list_is_empty_text() {
    let paths: Vec<String> = Vec::new();
    assert_eq!(format_path_list(&paths), "");
    assert!(parse_path_list("").is_empty());
}
