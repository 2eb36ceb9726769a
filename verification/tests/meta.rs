use autodocs::meta::{FileEntry, TranslationMeta};

fn entry(path: &str, hash: &str, at: u64) -> FileEntry {
    FileEntry { path: path.to_string(), hash: hash.to_string(), translation_timestamp: at }
}

#[test]
fn new_metadata_is_empty() {
    let meta = TranslationMeta::new();
    assert_eq!(meta.commit, "");
    assert!(meta.files.is_empty());
    assert!(!meta.is_translated("a.md", "00"));
}

#[test]
fn record_adds_at_the_end() {
    let mut meta = TranslationMeta::new();
    meta.record("a.md".to_string(), "aa".to_string(), 10);
    meta.record("b.md".to_string(), "bb".to_string(), 20);
    meta.record("a.md".to_string(), "cc".to_string(), 30);
    assert_eq!(
        meta.files,
        vec![entry("a.md", "aa", 10), entry("b.md", "bb", 20), entry("a.md", "cc", 30)]
    );
    assert_eq!(meta.commit, "");
}

#[test]
fn lookup_needs_path_and_hash() {
    let mut meta = TranslationMeta::new();
    meta.record("a.md".to_string(), "aa".to_string(), 10);
    meta.record("b.md".to_string(), "bb".to_string(), 20);
    assert!(meta.is_translated("a.md", "aa"));
    assert!(meta.is_translated("b.md", "bb"));
    assert!(!meta.is_translated("a.md", "bb"));
    assert!(!meta.is_translated("b.md", "aa"));
    assert!(!meta.is_translated("c.md", "aa"));
    assert!(!meta.is_translated("a.md", ""));
}

#[test]
fn earlier_entry_of_a_path_still_counts() {
    let mut meta = TranslationMeta::new();
    meta.record("a.md".to_string(), "old".to_string(), 10);
    meta.record("a.md".to_string(), "new".to_string(), 20);
    assert!(meta.is_translated("a.md", "old"));
    assert!(meta.is_translated("a.md", "new"));
}

#[test]
fn set_commit_keeps_the_entries() {
    let mut meta = TranslationMeta::new();
    meta.record("a.md".to_string(), "aa".to_string(), 10);
    meta.set_commit("0123abcd".to_string());
    assert_eq!(meta.commit, "0123abcd");
    assert_eq!(meta.files, vec![entry("a.md", "aa", 10)]);
}

#[test]
fn clone_is_equal() {
    let mut meta = TranslationMeta::new();
    meta.set_commit("c1".to_string());
    meta.record("a.md".to_string(), "aa".to_string(), 10);
    let copy = meta.clone();
    assert_eq!(copy, meta);
    assert_eq!(copy.files[0].clone(), entry("a.md", "aa", 10));
}
