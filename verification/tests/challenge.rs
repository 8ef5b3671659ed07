use nft_gate_gateway::challenge::GetDelReply;
use nft_gate_gateway::challenge::InMemoryNonceStore;
use nft_gate_gateway::challenge::RedisNonceLayout;
use nft_gate_gateway::challenge::random_nonce;

#[test]
fn nonce_valid_once_then_used() {
    let mut store = InMemoryNonceStore::new(300, 10_000);
    let (nonce, _) = store.issue().unwrap();
    assert!(store.take_if_valid(&nonce));
    assert!(!store.take_if_valid(&nonce)); // already used
}

#[test]
fn unknown_nonce_rejected() {
    let mut store = InMemoryNonceStore::new(300, 10_000);
    assert!(!store.take_if_valid("never-issued"));
}

#[test]
fn expired_nonce_rejected() {
    let mut store = InMemoryNonceStore::new(0, 10_000); // immediate expiry
    let (nonce, _) = store.issue().unwrap();
    assert!(!store.take_if_valid(&nonce));
}

#[test]
fn hard_cap_bounds_memory() {
    let mut store = InMemoryNonceStore::new(300, 4); // cap 4
    for _ in 0..20 {
        let _ = store.issue().unwrap();
    }
    assert!(store.len() <= 4, "entry count must stay within the hard cap");
}

#[test]
fn prune_drops_expired() {
    let mut store = InMemoryNonceStore::new(0, 10_000);
    let _ = store.issue().unwrap();
    store.prune();
    assert_eq!(store.len(), 0);
}

#[test]
fn issued_nonce_is_48_lowercase_hex_chars() {
    let n = random_nonce().unwrap();
    assert_eq!(n.len(), 48);
    assert!(n.chars().all(|c| c.is_ascii_digit() || ('a'..='f').contains(&c)));
    assert_ne!(random_nonce().unwrap(), n);
}

#[test]
fn take_at_respects_expiry_boundary() {
    // ttl 2 s = 2_000_000_000 ns on the store's clock.
    let mut store = InMemoryNonceStore::new(2, 10);
    let (n, expires_at) = store.insert_at("n1".to_string(), 1_000, 5_000);
    assert_eq!(n, "n1");
    assert_eq!(expires_at, 7_000);
    // valid strictly before expiry (1_000 + 2_000_000_000)
    assert!(!store.take_if_valid_at("n1", 2_000_001_000));
    let mut store = InMemoryNonceStore::new(2, 10);
    store.insert_at("n1".to_string(), 1_000, 5_000);
    assert!(store.take_if_valid_at("n1", 2_000_000_999));
    assert!(!store.take_if_valid_at("n1", 2_000));
}

#[test]
fn eviction_removes_soonest_to_expire() {
    let mut store = InMemoryNonceStore::new(10, 2);
    store.insert_at("a".to_string(), 100, 0);
    store.insert_at("b".to_string(), 50, 0); // expires before "a"
    store.insert_at("c".to_string(), 200, 0); // full: evicts "b"
    assert_eq!(store.len(), 2);
    assert!(!store.take_if_valid_at("b", 300));
    assert!(store.take_if_valid_at("a", 300));
    assert!(store.take_if_valid_at("c", 300));
}

#[test]
fn insert_drops_expired_entries_first() {
    let mut store = InMemoryNonceStore::new(1, 3);
    store.insert_at("old".to_string(), 0, 0);
    // 1 s later "old" has expired and is pruned by the next insert
    store.insert_at("new".to_string(), 1_000_000_000, 0);
    assert_eq!(store.len(), 1);
    store.prune_at(2_000_000_000);
    assert_eq!(store.len(), 0);
}

#[test]
fn zero_capacity_is_raised_to_one() {
    let mut store = InMemoryNonceStore::new(300, 0);
    store.insert_at("a".to_string(), 0, 0);
    store.insert_at("b".to_string(), 1, 0);
    assert_eq!(store.len(), 1);
    assert!(store.take_if_valid_at("b", 2));
}

#[test]
fn saturating_expiry_for_huge_ttl() {
    let mut store = InMemoryNonceStore::new(u64::MAX, 1);
    let (_, expires_at) = store.insert_at("a".to_string(), 5, 9);
    assert_eq!(expires_at, u64::MAX);
    assert!(store.take_if_valid_at("a", u64::MAX - 1));
}

#[test]
fn redis_layout_key_ttl_and_fail_closed() {
    let layout = RedisNonceLayout::new(300);
    assert_eq!(layout.key("abc"), "nftgate:nonce:abc");
    assert_eq!(layout.ttl_ms(), 300_000);
    assert_eq!(layout.expires_at(1_000), 301_000);
    assert!(RedisNonceLayout::consumed(GetDelReply::Value));
    assert!(!RedisNonceLayout::consumed(GetDelReply::Missing));
    assert!(!RedisNonceLayout::consumed(GetDelReply::Failed));
    assert_eq!(RedisNonceLayout::new(u64::MAX).ttl_ms(), u64::MAX);
}
