use codeedit::is_binary;
use codeedit::store::{
    check_write, generate_etag, read_file_outcome, safe_path, StoreError, WriteDecision,
};

fn bytes(s: &str) -> Vec<u8> {
    s.as_bytes().to_vec()
}

#[test]
fn test_safe_path_rejects_traversal() {
    assert_eq!(safe_path(&bytes("../etc/passwd")), Err(StoreError::InvalidPath));
    assert_eq!(safe_path(&bytes("a/../b")), Err(StoreError::InvalidPath));
    assert_eq!(safe_path(&bytes("..")), Err(StoreError::InvalidPath));
    assert_eq!(safe_path(&bytes("weird..name")), Err(StoreError::InvalidPath));
}

#[test]
fn test_safe_path_accepts_plain_paths() {
    assert_eq!(safe_path(&bytes("src/main.rs")), Ok(()));
    assert_eq!(safe_path(&bytes("a.b/c.d")), Ok(()));
    assert_eq!(safe_path(&bytes("")), Ok(()));
    assert_eq!(safe_path(&bytes(".")), Ok(()));
}

#[test]
fn test_is_binary_heuristic() {
    assert!(is_binary(&vec![104, 105, 0, 106]));
    assert!(!is_binary(&bytes("plain text")));
    assert!(!is_binary(&bytes("")));
    let mut long: Vec<u8> = vec![65; 8192];
    long.push(0);
    assert!(!is_binary(&long));
}

#[test]
fn test_generate_etag_is_blake3_hex() {
    let data = bytes("hello world");
    let etag = generate_etag(&data);
    let expected = blake3::hash(b"hello world").to_hex();
    assert_eq!(etag, expected.as_str().as_bytes().to_vec());
    assert_eq!(etag.len(), 64);
    assert!(etag.iter().all(|b| b.is_ascii_hexdigit()));
}

#[test]
fn test_read_outcome_text() {
    let data = bytes("fn main() {}\n");
    let snap = read_file_outcome(&data).unwrap();
    assert_eq!(snap.content, data);
    assert_eq!(snap.etag, generate_etag(&data));
}

#[test]
fn test_read_outcome_replaces_invalid_utf8() {
    let data: Vec<u8> = vec![104, 105, 0xff];
    let snap = read_file_outcome(&data).unwrap();
    assert_eq!(String::from_utf8(snap.content).unwrap(), "hi\u{FFFD}");
    assert_eq!(snap.etag, generate_etag(&data));
}

#[test]
fn test_read_outcome_binary() {
    let data: Vec<u8> = vec![0, 1, 2];
    assert!(matches!(read_file_outcome(&data), Err(StoreError::UnsupportedContent)));
}

#[test]
fn test_write_conflict_on_stale_fingerprint() {
    let first = bytes("original content");
    let f1 = generate_etag(&first);

    assert_eq!(check_write(&Some(first.clone()), &f1), WriteDecision::Proceed);

    let second = bytes("changed content");
    let f2 = generate_etag(&second);
    assert_eq!(check_write(&Some(second.clone()), &f1), WriteDecision::Conflict);
    assert_eq!(check_write(&Some(second), &f2), WriteDecision::Proceed);
}

#[test]
fn test_write_to_missing_file_proceeds() {
    let f1 = generate_etag(&bytes("anything"));
    assert_eq!(check_write(&None, &f1), WriteDecision::Proceed);
    assert_eq!(check_write(&None, &bytes("not even a fingerprint")), WriteDecision::Proceed);
}
