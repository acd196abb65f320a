use repairman::cache::InventoryEntry;
use repairman::cache::artifact_path;
use repairman::cache::format_inventory;
use repairman::cache::lookup_inventory;
use repairman::cache::parse_inventory;
use repairman::cache::prime_cache;
use repairman::cache::refresh_cache;
use repairman::cache::refresh_entry;
use repairman::compress::unpack_bytes;
use repairman::digest::digest_hex;
use repairman::errors::RepairError;
use repairman::manifest::HashedFile;

fn entry_for(path: &str, content: &[u8]) -> HashedFile {
    HashedFile::new(path, &digest_hex(content))
}

#[test]
fn artifact_path_nests_under_files() {
    assert_eq!(artifact_path("cache", "a/b.txt"), "cache/files/a/b.txt.comp");
}

#[test]
fn inventory_round_trips() {
    let inv = vec![
        InventoryEntry {
            artifact_path: "c/files/a.comp".to_string(),
            source_digest: "11".to_string(),
            artifact_digest: "22".to_string(),
        },
        InventoryEntry {
            artifact_path: "c/files/b.comp".to_string(),
            source_digest: "33".to_string(),
            artifact_digest: "44".to_string(),
        },
    ];
    let text = format_inventory(&inv);
    assert_eq!(text, "c/files/a.comp\u{0}11\u{0}22\u{0}c/files/b.comp\u{0}33\u{0}44\u{0}");
    let back = parse_inventory(&text).expect("formatted inventory must parse");
    assert_eq!(back.len(), 2);
    assert_eq!(back[0].artifact_path, inv[0].artifact_path);
    assert_eq!(back[0].source_digest, inv[0].source_digest);
    assert_eq!(back[0].artifact_digest, inv[0].artifact_digest);
    assert_eq!(back[1].artifact_path, inv[1].artifact_path);
}

#[test]
fn trailing_partial_group_is_rejected() {
    match parse_inventory("a.comp\u{0}11\u{0}22\u{0}orphan\u{0}") {
        Err(e) => assert_eq!(e, RepairError::CacheInvariantViolation),
        Ok(_) => panic!("a trailing partial group must be rejected"),
    }
}

#[test]
fn lookup_finds_first_matching_triple() {
    let inv = vec![
        InventoryEntry {
            artifact_path: "p".to_string(),
            source_digest: "old".to_string(),
            artifact_digest: "x".to_string(),
        },
        InventoryEntry {
            artifact_path: "p".to_string(),
            source_digest: "new".to_string(),
            artifact_digest: "y".to_string(),
        },
    ];
    assert_eq!(lookup_inventory(&inv, &"p".to_string(), &"new".to_string()), Some(1));
    assert_eq!(lookup_inventory(&inv, &"p".to_string(), &"old".to_string()), Some(0));
    assert_eq!(lookup_inventory(&inv, &"q".to_string(), &"new".to_string()), None);
}

#[test]
fn priming_records_the_artifact_digests() {
    let contents: Vec<Vec<u8>> = vec![b"hello world".to_vec(), Vec::new()];
    let files = vec![entry_for("a.txt", &contents[0]), entry_for("empty.bin", &contents[1])];
    let outcome = prime_cache("cache", &files, &contents);
    assert!(outcome.rewritten);
    assert_eq!(outcome.inventory.len(), 2);
    assert_eq!(outcome.artifacts.len(), 2);
    for i in 0..2 {
        assert_eq!(outcome.inventory[i].artifact_digest, digest_hex(&outcome.artifacts[i]));
        assert_eq!(outcome.inventory[i].source_digest, files[i].get_hash());
        assert_eq!(
            outcome.inventory[i].artifact_path,
            artifact_path("cache", files[i].get_path())
        );
        assert_eq!(unpack_bytes(&outcome.artifacts[i]).unwrap(), contents[i]);
    }
    assert!(outcome.artifacts[1].is_empty());
}

#[test]
fn unchanged_cache_is_fully_reused() {
    let contents: Vec<Vec<u8>> = vec![b"one".to_vec(), b"two".to_vec()];
    let files = vec![entry_for("a", &contents[0]), entry_for("b", &contents[1])];
    let primed = prime_cache("c", &files, &contents);
    let existing: Vec<Option<Vec<u8>>> = primed.artifacts.iter().map(|a| Some(a.clone())).collect();
    let refreshed = refresh_cache("c", &files, &contents, &primed.inventory, &existing);
    assert!(!refreshed.rewritten);
    assert_eq!(refreshed.rebuilt, vec![false, false]);
    assert_eq!(refreshed.artifacts, primed.artifacts);
}

#[test]
fn corrupted_artifact_is_rebuilt() {
    let content = b"some source bytes".to_vec();
    let file = entry_for("a", &content);
    let primed = prime_cache("c", &vec![entry_for("a", &content)], &vec![content.clone()]);
    let mut tampered = primed.artifacts[0].clone();
    tampered[0] ^= 0x01;
    let (entry, artifact, rebuilt) = refresh_entry(
        "c",
        &file,
        &content,
        &primed.inventory,
        &Some(tampered),
    );
    assert!(rebuilt);
    assert_eq!(entry.artifact_digest, digest_hex(&artifact));
    assert_eq!(unpack_bytes(&artifact).unwrap(), content);
}

#[test]
fn modified_source_rebuilds_exactly_one_artifact() {
    let old_contents: Vec<Vec<u8>> = vec![b"alpha".to_vec(), b"beta".to_vec()];
    let files = vec![entry_for("a", &old_contents[0]), entry_for("b", &old_contents[1])];
    let primed = prime_cache("c", &files, &old_contents);

    let new_contents: Vec<Vec<u8>> = vec![b"alpha changed".to_vec(), b"beta".to_vec()];
    let new_files = vec![entry_for("a", &new_contents[0]), entry_for("b", &new_contents[1])];
    let existing: Vec<Option<Vec<u8>>> = primed.artifacts.iter().map(|a| Some(a.clone())).collect();
    let refreshed = refresh_cache("c", &new_files, &new_contents, &primed.inventory, &existing);
    assert!(refreshed.rewritten);
    assert_eq!(refreshed.rebuilt, vec![true, false]);
    assert_eq!(unpack_bytes(&refreshed.artifacts[0]).unwrap(), new_contents[0]);
    assert_eq!(refreshed.artifacts[1], primed.artifacts[1]);
    for i in 0..2 {
        assert_eq!(refreshed.inventory[i].artifact_digest, digest_hex(&refreshed.artifacts[i]));
    }
}

#[test]
fn missing_artifact_is_rebuilt() {
    let content = b"bytes".to_vec();
    let file = entry_for("a", &content);
    let primed = prime_cache("c", &vec![entry_for("a", &content)], &vec![content.clone()]);
    let (entry, artifact, rebuilt) = refresh_entry("c", &file, &content, &primed.inventory, &None);
    assert!(rebuilt);
    assert_eq!(entry.artifact_digest, digest_hex(&artifact));
}
