use hoox::cache::{compute_cache_hash, parallel_update, to_hex_lower, CacheStore};
use hoox::hooks::{ChangeType, ChangedFile};
use sha2::{Digest, Sha256};

fn file(path: &str) -> ChangedFile {
    ChangedFile { path: path.to_string(), change_type: ChangeType::Modified }
}

fn expected_hash(message: &[u8]) -> String {
    format!("{:x}", Sha256::digest(message))
}

#[test]
fn hash_of_no_files_is_the_empty_digest() {
    assert_eq!(
        compute_cache_hash(&vec![], &vec![]),
        "e3b0c44298fc1c149afbf4c8996fb92427ae41e4649b934ca495991b7852b855"
    );
}

#[test]
fn hash_covers_paths_and_contents() {
    let files = vec![file("a.rs"), file("b/c.rs")];
    let contents = vec![Some(b"fn main() {}".to_vec()), Some(vec![1u8, 2, 3])];
    let mut message = Vec::new();
    message.extend_from_slice(b"a.rs\0fn main() {}\0");
    message.extend_from_slice(b"b/c.rs\0\x01\x02\x03\0");
    assert_eq!(compute_cache_hash(&files, &contents), expected_hash(&message));
}

#[test]
fn unreadable_file_contributes_its_path_only() {
    let files = vec![file("gone.rs")];
    let h = compute_cache_hash(&files, &vec![None]);
    assert_eq!(h, expected_hash(b"gone.rs\0\0"));
    assert_eq!(h, compute_cache_hash(&files, &vec![Some(vec![])]));
    assert_ne!(h, compute_cache_hash(&files, &vec![Some(b"x".to_vec())]));
    assert_eq!(h.len(), 64);
}

#[test]
fn hex_is_lowercase_two_digits_per_byte() {
    assert_eq!(to_hex_lower(&[0x00, 0xab, 0x0f, 0xf0, 0x9c]), "00ab0ff09c");
    assert_eq!(to_hex_lower(&[]), "");
}

#[test]
fn cache_reads_back_what_was_written() {
    let mut c = CacheStore::new();
    assert_eq!(c.get("pre-commit:0"), None);
    assert!(!c.is_hit("pre-commit:0", "abc"));
    c.insert("pre-commit:0".to_string(), "abc".to_string());
    c.insert("pre-push:1".to_string(), "def".to_string());
    assert_eq!(c.get("pre-commit:0").map(|s| s.as_str()), Some("abc"));
    assert!(c.is_hit("pre-commit:0", "abc"));
    assert!(!c.is_hit("pre-commit:0", "abd"));
    c.insert("pre-commit:0".to_string(), "xyz".to_string());
    assert!(c.is_hit("pre-commit:0", "xyz"));
    assert!(c.is_hit("pre-push:1", "def"));
    assert_eq!(c.entries().len(), 2);
}

#[test]
fn parallel_command_reports_only_a_changed_entry() {
    let mut snapshot = CacheStore::new();
    snapshot.insert("pre-commit:1".to_string(), "old".to_string());
    let unchanged = snapshot.clone();
    assert_eq!(parallel_update(&snapshot, &unchanged, "pre-commit:1"), None);
    let mut refreshed = snapshot.clone();
    refreshed.insert("pre-commit:1".to_string(), "new".to_string());
    assert_eq!(
        parallel_update(&snapshot, &refreshed, "pre-commit:1"),
        Some(("pre-commit:1".to_string(), "new".to_string()))
    );
    let mut first = CacheStore::new();
    first.insert("pre-commit:2".to_string(), "h".to_string());
    assert_eq!(
        parallel_update(&snapshot, &first, "pre-commit:2"),
        Some(("pre-commit:2".to_string(), "h".to_string()))
    );
    assert_eq!(parallel_update(&snapshot, &CacheStore::new(), "pre-commit:1"), None);
}
