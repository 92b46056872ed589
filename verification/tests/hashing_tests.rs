use caseshare::hashing::{content_hash, storage_path_of};

#[test]
fn hash_of_abc_is_the_known_sha256_digest() {
    let h = content_hash(&b"abc".to_vec());
    assert_eq!(
        h,
        "ba7816bf8f01cfea414140de5dae2223b00361a396177a9cb410ff61f20015ad"
    );
}

#[test]
fn hash_of_empty_buffer_is_the_known_sha256_digest() {
    let h = content_hash(&Vec::new());
    assert_eq!(
        h,
        "e3b0c44298fc1c149afbf4c8996fb92427ae41e4649b934ca495991b7852b855"
    );
}

#[test]
fn hash_is_deterministic_across_repeated_calls() {
    let bytes = b"some case attachment bytes".to_vec();
    let first = content_hash(&bytes);
    let second = content_hash(&bytes);
    assert_eq!(first, second);
    let again = content_hash(&b"some case attachment bytes".to_vec());
    assert_eq!(first, again);
}

#[test]
fn different_content_hashes_differently() {
    let h1 = content_hash(&b"buffer one".to_vec());
    let h2 = content_hash(&b"buffer two".to_vec());
    assert_ne!(h1, h2);
    let h3 = content_hash(&b"".to_vec());
    assert_ne!(h1, h3);
    assert_ne!(h2, h3);
}

#[test]
fn hash_is_64_lowercase_hex_characters() {
    let h = content_hash(&b"\x00\xff\x10".to_vec());
    assert_eq!(h.len(), 64);
    assert!(h.chars().all(|c| c.is_ascii_hexdigit() && !c.is_ascii_uppercase()));
}

#[test]
fn storage_path_is_sharded_by_hash_prefix() {
    let h = content_hash(&b"abc".to_vec());
    let path = storage_path_of(&h);
    assert_eq!(
        path,
        "ba/78/ba7816bf8f01cfea414140de5dae2223b00361a396177a9cb410ff61f20015ad"
    );
}
