use std::collections::HashSet;
use vstd::prelude::*;

verus! {

broadcast use vstd::std_specs::hash::group_hash_axioms;

/// The number of independently held partitions of a [`ShardedSet`].
pub const SHARD_COUNT: u64 = 8;

/// The set of inode identifiers already counted during one run.
///
/// Identifiers are spread over `SHARD_COUNT` partitions by
/// `id % SHARD_COUNT`, so an identifier always lands in the same partition
/// and is found there by every later claim. Nothing is ever removed.
pub struct ShardedSet {
    shards: Vec<HashSet<u64>>,
}

impl View for ShardedSet {
    type V = Set<u64>;

    /// Every identifier claimed so far.
    closed spec fn view(&self) -> Set<u64> {
        Set::new(|v: u64| self.shards@.len() == SHARD_COUNT && self.shards@[(v % SHARD_COUNT) as int]@.contains(v))
    }
}

impl ShardedSet {
    /// Each identifier sits in the partition that its remainder selects.
    pub closed spec fn wf(&self) -> bool {
        &&& self.shards@.len() == SHARD_COUNT
        &&& forall|i: int, v: u64|
            0 <= i < SHARD_COUNT && #[trigger] self.shards@[i]@.contains(v) ==> v % SHARD_COUNT == i
    }

    /// Claims `val`: true if this is its first claim, and it is recorded
    /// either way.
    pub fn insert(&mut self, val: u64) -> (r: bool)
        requires
            old(self).wf(),
        ensures
            final(self).wf(),
            r == !old(self)@.contains(val),
            final(self)@ == old(self)@.insert(val),
    {
        let idx = (val % SHARD_COUNT) as usize;
        let mut shard = HashSet::new();
        std::mem::swap(&mut shard, &mut self.shards[idx]);
        let r = shard.insert(val);
        std::mem::swap(&mut shard, &mut self.shards[idx]);
        assert(self@ =~= old(self)@.insert(val));
        r
    }

    /// An empty set with all of its partitions.
    pub fn new() -> (r: ShardedSet)
        ensures
            r.wf(),
            r@ == Set::<u64>::empty(),
    {
        let mut shards: Vec<HashSet<u64>> = Vec::new();
        let mut i: u64 = 0;
        while i < SHARD_COUNT
            invariant
                i <= SHARD_COUNT,
                shards@.len() == i,
                forall|j: int| 0 <= j < i ==> (#[trigger] shards@[j])@ == Set::<u64>::empty(),
            decreases SHARD_COUNT - i,
        {
            shards.push(HashSet::new());
            i = i + 1;
        }
        let r = ShardedSet { shards };
        assert(r@ =~= Set::<u64>::empty());
        r
    }
}

} // verus!
