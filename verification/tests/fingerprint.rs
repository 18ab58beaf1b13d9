use a3mo::crypto::xx_hasher::{hash_byte_vec, hash_path, CryptoError};
use a3mo::crypto::xxhash64::xxhash64;

fn sample(len: usize, salt: u64) -> Vec<u8> {
    let mut state: u64 = 0x9E37_79B9_7F4A_7C15 ^ salt;
    let mut out = Vec::with_capacity(len);
    for _ in 0..len {
        state ^= state << 13;
        state ^= state >> 7;
        state ^= state << 17;
        out.push((state >> 24) as u8);
    }
    out
}

#[test]
fn fingerprint_of_nothing() {
    assert_eq!(hash_byte_vec(Vec::new()), 0xEF46_DB37_51D8_E999);
}

#[test]
fn fingerprint_of_one_byte() {
    assert_eq!(hash_byte_vec(b"a".to_vec()), 0xD24E_C4F1_A98C_6E5B);
}

#[test]
fn fingerprint_of_three_bytes() {
    assert_eq!(hash_byte_vec(b"abc".to_vec()), 0x44BC_2CF5_AD77_0999);
}

#[test]
fn fingerprint_of_more_than_a_stripe() {
    let text = b"Nobody inspects the spammish repetition".to_vec();
    assert_eq!(text.len(), 39);
    assert_eq!(hash_byte_vec(text), 0xFBCE_A83C_8A37_8BF1);
}

#[test]
fn fingerprint_under_a_seed() {
    assert_eq!(xxhash64(b"xxhash", 20141025), 0xB559_B98D_844E_0635);
}

#[test]
fn fingerprint_agrees_with_easy_xxhash64_on_every_length() {
    for len in 0..300usize {
        let bytes = sample(len, len as u64);
        assert_eq!(
            hash_byte_vec(bytes.clone()),
            easy_xxhash64::file_hash::hash_byte_vec(bytes),
            "length {}",
            len
        );
    }
}

#[test]
fn fingerprint_depends_on_the_order_of_the_bytes() {
    assert_ne!(hash_byte_vec(vec![1, 2]), hash_byte_vec(vec![2, 1]));
}

#[test]
fn same_content_same_fingerprint_whatever_the_name() {
    let content = sample(1000, 7);
    let here = hash_path("a/one.pbo", Ok(content.clone())).unwrap();
    let there = hash_path("b/c/two.bin", Ok(content.clone())).unwrap();
    assert_eq!(here, there);
    assert_eq!(here, hash_byte_vec(content));
}

#[test]
fn unreadable_file_has_no_fingerprint() {
    let failure = std::io::Error::new(std::io::ErrorKind::NotFound, "gone");
    match hash_path("missing", Err(failure)) {
        Err(CryptoError::IOError { source }) => {
            assert_eq!(source.kind(), std::io::ErrorKind::NotFound)
        }
        Ok(_) => panic!("a failed read gave a fingerprint"),
    }
}
