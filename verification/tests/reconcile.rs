use repairman::digest::digest_hex;
use repairman::manifest::HashedFile;
use repairman::reconcile::FileState;
use repairman::reconcile::LocalObservation;
use repairman::reconcile::classify_entry;
use repairman::reconcile::reconcile;
use repairman::reconcile::request_body;
use repairman::reconcile::wanted_paths;

fn entry_for(path: &str, content: &[u8]) -> HashedFile {
    HashedFile::new(path, &digest_hex(content))
}

#[test]
fn classification_follows_the_observation() {
    let entry = entry_for("a.txt", b"hello");
    assert_eq!(classify_entry(&entry, &LocalObservation::Absent), FileState::Missing);
    assert_eq!(classify_entry(&entry, &LocalObservation::Unreadable), FileState::Missing);
    assert_eq!(
        classify_entry(&entry, &LocalObservation::Digest(digest_hex(b"hello"))),
        FileState::Present
    );
    assert_eq!(
        classify_entry(&entry, &LocalObservation::Digest(digest_hex(b"hellp"))),
        FileState::Corrupted
    );
}

#[test]
fn reconcile_keeps_manifest_order() {
    let files = vec![
        entry_for("one", b"1"),
        entry_for("two", b"2"),
        entry_for("three", b"3"),
    ];
    let obs = vec![
        LocalObservation::Digest(digest_hex(b"1")),
        LocalObservation::Absent,
        LocalObservation::Digest(digest_hex(b"x")),
    ];
    let states = reconcile(&files, &obs);
    assert_eq!(
        states,
        vec![FileState::Present, FileState::Missing, FileState::Corrupted]
    );
}

#[test]
fn reconcile_is_deterministic() {
    let files = vec![entry_for("a", b"a"), entry_for("b", b"b")];
    let obs = vec![
        LocalObservation::Digest(digest_hex(b"a")),
        LocalObservation::Unreadable,
    ];
    let first = reconcile(&files, &obs);
    let second = reconcile(&files, &obs);
    assert_eq!(first, second);
}

#[test]
fn request_body_lists_only_unrepaired_entries() {
    let files = vec![entry_for("a.bin", b"za"), entry_for("b.bin", b"zb")];
    let states = vec![FileState::Corrupted, FileState::Present];
    let wanted = wanted_paths(&files, &states);
    assert_eq!(wanted, vec!["a.bin".to_string()]);
    assert_eq!(request_body(&files, &states), "a.bin\n");
}

#[test]
fn all_present_requests_nothing() {
    let files = vec![entry_for("a", b"a"), entry_for("b", b"b")];
    let states = vec![FileState::Present, FileState::Present];
    assert!(wanted_paths(&files, &states).is_empty());
    assert_eq!(request_body(&files, &states), "");
}
