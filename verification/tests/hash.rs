use autodocs::hash::{content_hash, hex_encode};

#[test]
fn hash_of_no_bytes() {
    assert_eq!(
        content_hash(b""),
        "e3b0c44298fc1c149afbf4c8996fb92427ae41e4649b934ca495991b7852b855"
    );
}

#[test]
fn hash_of_hello() {
    assert_eq!(
        content_hash(b"Hello"),
        "185f8db32271fe25f561a6fc938b2e264306ec304eda518007d1764826381969"
    );
}

#[test]
fn hash_of_hello_world() {
    assert_eq!(
        content_hash(b"hello world"),
        "b94d27b9934d3e08a52e52d7da7dabfac484efe37a5380ee9088f7ace2efcde9"
    );
}

#[test]
fn hash_is_not_its_input() {
    let hash = content_hash(b"abc");
    assert_eq!(hash.len(), 64);
    assert_ne!(hash.as_bytes(), b"abc");
    assert_eq!(hash, "ba7816bf8f01cfea414140de5dae2223b00361a396177a9cb410ff61f20015ad");
}

#[test]
fn one_changed_byte_changes_the_hash() {
    assert_ne!(content_hash(b"Hello"), content_hash(b"Hellp"));
}

#[test]
fn hex_is_lower_case_high_half_first() {
    assert_eq!(hex_encode(&[]), "");
    assert_eq!(hex_encode(&[0x0a, 0x14, 0x1e]), "0a141e");
    assert_eq!(hex_encode(&[0x00, 0xff, 0x10, 0xab, 0xcd, 0xef]), "00ff10abcdef");
    assert_eq!(hex_encode(&[0x01, 0x23, 0x45, 0x67, 0x89]), "0123456789");
}
