use dua::ShardedSet;

#[test]
fn first_claim_wins_and_repeats_fail() {
    let mut set = ShardedSet::new();
    assert!(set.insert(42));
    assert!(!set.insert(42));
    assert!(set.insert(50));
    assert!(set.insert(43));
    assert!(!set.insert(50));
    assert!(set.insert(u64::MAX));
    assert!(!set.insert(u64::MAX));
    assert!(set.insert(0));
}
