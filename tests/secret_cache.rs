use fwconsole_core::secret::{digests_equal, SecretCache, SecretError};

#[test]
fn lockout_after_three_mismatches() {
    let mut cache = SecretCache::new(3, 60);
    cache.set("1234");
    assert_eq!(cache.verify("0000", 1000), Err(SecretError::Mismatch(1)));
    assert_eq!(cache.verify("0000", 1000), Err(SecretError::Mismatch(2)));
    assert_eq!(cache.verify("0000", 1000), Err(SecretError::Locked));
    assert_eq!(cache.verify("1234", 1000), Err(SecretError::Locked));
    assert_eq!(cache.locked_until(), Some(1060));
}

#[test]
fn lock_ends_after_duration() {
    let mut cache = SecretCache::new(3, 60);
    cache.set("1234");
    for _ in 0..3 {
        let _ = cache.verify("0000", 10);
    }
    assert_eq!(cache.verify("1234", 69), Err(SecretError::Locked));
    assert_eq!(cache.failed_attempts(), 3);
    assert_eq!(cache.verify("1234", 70), Ok(()));
    assert_eq!(cache.failed_attempts(), 0);
    assert!(!cache.is_locked(70));
}

#[test]
fn counter_grows_and_resets() {
    let mut cache = SecretCache::new(10, 60);
    cache.set("secret");
    assert_eq!(cache.verify("a", 0), Err(SecretError::Mismatch(1)));
    assert_eq!(cache.verify("b", 0), Err(SecretError::Mismatch(2)));
    assert_eq!(cache.failed_attempts(), 2);
    assert_eq!(cache.verify("secret", 0), Ok(()));
    assert_eq!(cache.failed_attempts(), 0);
    assert_eq!(cache.verify("c", 0), Err(SecretError::Mismatch(1)));
    cache.set("other");
    assert_eq!(cache.failed_attempts(), 0);
    assert_eq!(cache.verify("other", 0), Ok(()));
}

#[test]
fn not_set_until_set() {
    let mut cache = SecretCache::new(3, 60);
    assert_eq!(cache.verify("1234", 0), Err(SecretError::NotSet));
    assert!(!cache.is_set());
    cache.set("1234");
    assert!(cache.is_set());
    cache.clear();
    assert_eq!(cache.verify("1234", 0), Err(SecretError::NotSet));
    assert_eq!(cache.failed_attempts(), 0);
}

#[test]
fn set_lifts_a_lock() {
    let mut cache = SecretCache::new(1, 100);
    cache.set("1234");
    assert_eq!(cache.verify("9", 5), Err(SecretError::Locked));
    cache.set("5678");
    assert_eq!(cache.locked_until(), None);
    assert_eq!(cache.verify("5678", 5), Ok(()));
}

#[test]
fn stored_digest_is_sha256() {
    let mut cache = SecretCache::new(3, 60);
    cache.set("abc");
    let expected: Vec<u8> = vec![
        0xba, 0x78, 0x16, 0xbf, 0x8f, 0x01, 0xcf, 0xea, 0x41, 0x41, 0x40, 0xde, 0x5d, 0xae, 0x22,
        0x23, 0xb0, 0x03, 0x61, 0xa3, 0x96, 0x17, 0x7a, 0x9c, 0xb4, 0x10, 0xff, 0x61, 0xf2, 0x00,
        0x15, 0xad,
    ];
    assert_eq!(cache.stored_digest(), Some(expected));
}

#[test]
fn digests_compare_exactly() {
    assert!(digests_equal(&[1, 2, 3], &[1, 2, 3]));
    assert!(!digests_equal(&[1, 2, 3], &[1, 2, 4]));
    assert!(!digests_equal(&[1, 2], &[1, 2, 3]));
    assert!(digests_equal(&[], &[]));
}

#[test]
fn zero_duration_lock_is_no_lock() {
    let mut cache = SecretCache::new(1, 0);
    cache.set("1");
    assert_eq!(cache.verify("2", 7), Err(SecretError::Mismatch(1)));
    assert_eq!(cache.verify("1", 7), Ok(()));
}

#[test]
fn digest_path_matches_text_path() {
    let mut cache = SecretCache::new(2, 30);
    cache.set_digest(vec![1, 2, 3]);
    assert_eq!(cache.verify_digest(&[1, 2, 4], 0), Err(SecretError::Mismatch(1)));
    assert_eq!(cache.verify_digest(&[1, 2, 4], 0), Err(SecretError::Locked));
    assert_eq!(cache.verify_digest(&[1, 2, 3], 29), Err(SecretError::Locked));
    assert_eq!(cache.verify_digest(&[1, 2, 3], 30), Ok(()));
    assert_eq!(cache.verify("anything", 30), Err(SecretError::Mismatch(1)));
}
