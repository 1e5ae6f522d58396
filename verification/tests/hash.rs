use dirdocs::hash::{hash_bytes, ContentHasher};

const EMPTY: &str = "af1349b9f5f9a1a6a0404dea36dcc9499bcb25c9adc112b7cc9a93cae41f3262";

#[test]
fn hash_of_nothing_is_the_known_digest() {
    assert_eq!(hash_bytes(b""), EMPTY);
    assert_eq!(ContentHasher::new().digest(), EMPTY);
}

#[test]
fn hash_is_sixty_four_hex_digits_and_depends_on_content() {
    let a = hash_bytes(b"hello");
    let b = hash_bytes(b"hellp");
    assert_eq!(a.len(), 64);
    assert!(a.chars().all(|c| c.is_ascii_digit() || ('a'..='f').contains(&c)));
    assert_ne!(a, b);
    assert_ne!(a, "hello");
    assert_eq!(a, hash_bytes(b"hello"));
}

#[test]
fn feeding_in_chunks_equals_hashing_the_whole() {
    let data: Vec<u8> = (0..20_000u32).map(|i| (i % 251) as u8).collect();
    let mut h = ContentHasher::new();
    let mut fed = 0;
    for chunk in data.chunks(8192) {
        assert!(h.feed(chunk));
        fed += chunk.len();
    }
    assert!(!h.feed(&[]));
    assert_eq!(fed, data.len());
    assert_eq!(h.digest(), hash_bytes(&data));
}

#[test]
fn digest_can_be_read_before_more_is_fed() {
    let mut h = ContentHasher::new();
    h.feed(b"ab");
    assert_eq!(h.digest(), hash_bytes(b"ab"));
    h.feed(b"c");
    assert_eq!(h.digest(), hash_bytes(b"abc"));
}

#[test]
fn every_digest_is_sixty_four_lower_case_hex_digits() {
    for data in [&b""[..], &b"a"[..], &[0u8; 10_000][..], &[0xffu8; 3][..]] {
        let h = hash_bytes(data);
        assert_eq!(h.chars().count(), 64);
        assert!(h.chars().all(|c| matches!(c, '0'..='9' | 'a'..='f')));
    }
}
