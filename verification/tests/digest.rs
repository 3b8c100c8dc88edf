use mukti::{Checksums, DigestAlgorithm};

#[test]
fn sha256_of_abc_is_the_published_vector() {
    let checksums = Checksums::compute(b"abc");
    assert_eq!(
        checksums.sha256_hex(),
        "ba7816bf8f01cfea414140de5dae2223b00361a396177a9cb410ff61f20015ad"
    );
}

#[test]
fn blake2b_of_abc_is_the_published_vector() {
    let checksums = Checksums::compute(b"abc");
    assert_eq!(
        checksums.blake2b_hex(),
        "ba80a53f981c4d0d6a2797b69f12f6e94c212f14685ac4b74b12bb6fdbffa2d1\
         7d87c5392aab792dc252d5de4533cc9518d38aa8dbf1925ab92386edd4009923"
    );
}

#[test]
fn checksum_map_is_complete_and_in_lowercase_hex() {
    let map = Checksums::compute(b"").to_checksum_map();
    assert!(map.is_complete());
    assert_eq!(map.len(), 2);
    assert_eq!(
        map.get(DigestAlgorithm::SHA256).unwrap(),
        "e3b0c44298fc1c149afbf4c8996fb92427ae41e4649b934ca495991b7852b855"
    );
    assert_eq!(map.get(DigestAlgorithm::BLAKE2B).unwrap().len(), 128);
}
