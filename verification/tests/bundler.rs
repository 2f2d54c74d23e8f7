//! Content hash tests
use pleme_linker::bundle::generate_hash;

#[test]
fn test_generate_hash() {
    let hash1 = generate_hash("hello world");
    let hash2 = generate_hash("hello world");
    let hash3 = generate_hash("different content");

    assert_eq!(hash1, hash2);
    assert_ne!(hash1, hash3);
}
