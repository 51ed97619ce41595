use std::collections::HashSet;
use std::collections::VecDeque;
use std::hash::Hasher;
use vstd::prelude::*;

verus! {

/// The 64-bit xxHash (seed 0) of a byte string, as computed by the
/// `twox_hash` crate.
pub uninterp spec fn xxhash64(data: Seq<u8>) -> u64;

/// Hashes `buf` with `twox_hash::XxHash64` created by `Default` (seed 0).
///
/// Trusted: the contract claims only that the result is `xxhash64` of the
/// bytes, that is, a deterministic function of `buf` alone; the hash
/// algorithm itself is not stated.
#[verifier::external_body]
pub fn xx_hash(buf: &[u8]) -> (hash: u64)
    ensures
        hash == xxhash64(buf@),
{
    let mut hasher = twox_hash::XxHash64::default();
    hasher.write(buf);
    hasher.finish()
}

/// The order of the cached hashes after inserting `hash` into a cache
/// whose hashes, oldest first, are `order` and whose capacity is
/// `max_capacity`: a hash already present changes nothing; otherwise, when
/// the cache is full, the oldest hash is evicted and the new one appended.
pub open spec fn cache_insert(order: Seq<u64>, max_capacity: nat, hash: u64) -> Seq<u64> {
    if order.contains(hash) {
        order
    } else if order.len() >= max_capacity {
        order.drop_first().push(hash)
    } else {
        order.push(hash)
    }
}

/// A bounded set of hashes that forgets its oldest entry when it is full.
pub struct TinyHashCache {
    max_capacity: usize,
    cache: HashSet<u64>,
    elem_order: VecDeque<u64>,
}

impl View for TinyHashCache {
    /// The cached hashes, oldest first.
    type V = Seq<u64>;

    closed spec fn view(&self) -> Seq<u64> {
        self.elem_order@
    }
}

impl TinyHashCache {
    /// The capacity the cache was created with.
    pub closed spec fn capacity(&self) -> nat {
        self.max_capacity as nat
    }

    /// The set and the queue hold the same hashes, each once, and no more
    /// of them than the capacity.
    pub closed spec fn wf(&self) -> bool {
        &&& forall|h: u64| self.cache@.contains(h) <==> self.elem_order@.contains(h)
        &&& self.elem_order@.no_duplicates()
        &&& self.elem_order@.len() <= self.max_capacity
    }

    proof fn lemma_set_len(&self)
        requires
            self.wf(),
        ensures
            self.cache@.len() == self.elem_order@.len(),
    {
        self.elem_order@.unique_seq_to_set();
        assert(self.cache@ =~= self.elem_order@.to_set());
    }

    /// Creates an empty cache that holds at most `max_capacity` hashes.
    pub fn new(max_capacity: usize) -> (cache: Self)
        ensures
            cache.wf(),
            cache@ == Seq::<u64>::empty(),
            cache.capacity() == max_capacity,
    {
        Self { max_capacity, cache: HashSet::new(), elem_order: VecDeque::new() }
    }

    fn contains(&self, hash: &u64) -> (found: bool)
        requires
            self.wf(),
        ensures
            found == self@.contains(*hash),
    {
        self.cache.contains(hash)
    }

    /// Inserts a hash; returns whether it was not in the cache before.
    pub(crate) fn insert_hash(&mut self, hash: u64) -> (inserted: bool)
        requires
            old(self).wf(),
            old(self).capacity() > 0,
        ensures
            final(self).wf(),
            final(self).capacity() == old(self).capacity(),
            inserted == !old(self)@.contains(hash),
            final(self)@ == cache_insert(old(self)@, old(self).capacity(), hash),
            old(self)@.contains(hash) ==> final(self)@ == old(self)@,
    {
        if self.contains(&hash) {
            return false;
        }
        proof {
            self.lemma_set_len();
        }
        if self.cache.len() >= self.max_capacity {
            let first = self.elem_order.pop_front().unwrap();
            self.cache.remove(&first);
            assert(forall|h: u64| self.cache@.contains(h) <==> self.elem_order@.contains(h)) by {
                assert forall|h: u64| self.elem_order@.contains(h) implies h != first by {
                    let i = choose|i: int| 0 <= i < self.elem_order@.len() && self.elem_order@[i] == h;
                    assert(old(self).elem_order@[i + 1] == h);
                }
                assert forall|h: u64| old(self).elem_order@.contains(h) && h != first
                    implies self.elem_order@.contains(h) by {
                    let i = choose|i: int| 0 <= i < old(self).elem_order@.len() && old(self).elem_order@[i] == h;
                    assert(self.elem_order@[i - 1] == h);
                }
            }
        }
        let ghost mid = self.elem_order@;
        self.cache.insert(hash);
        self.elem_order.push_back(hash);
        assert(forall|h: u64| self.elem_order@.contains(h) <==> (mid.contains(h) || h == hash)) by {
            assert(self.elem_order@[mid.len() as int] == hash);
            assert forall|h: u64| mid.contains(h) implies self.elem_order@.contains(h) by {
                let i = choose|i: int| 0 <= i < mid.len() && mid[i] == h;
                assert(self.elem_order@[i] == h);
            }
        }
        true
    }

    /// Hashes `bytes` and inserts the hash; returns whether the hash was not
    /// in the cache before.
    pub fn insert(&mut self, bytes: &[u8]) -> (inserted: bool)
        requires
            old(self).wf(),
            old(self).capacity() > 0,
        ensures
            final(self).wf(),
            final(self).capacity() == old(self).capacity(),
            inserted == !old(self)@.contains(xxhash64(bytes@)),
            final(self)@ == cache_insert(old(self)@, old(self).capacity(), xxhash64(bytes@)),
            old(self)@.contains(xxhash64(bytes@)) ==> final(self)@ == old(self)@,
    {
        let hash = xx_hash(bytes);
        self.insert_hash(hash)
    }

    /// The number of cached hashes.
    pub fn len(&self) -> (len: usize)
        requires
            self.wf(),
        ensures
            len == self@.len(),
            len <= self.capacity(),
    {
        proof {
            self.lemma_set_len();
        }
        self.cache.len()
    }
}

} // verus!

verus! {

/// After an insert the hash is cached, so inserting the same bytes again
/// reports that they were already seen.
pub proof fn lemma_insert_then_contains(order: Seq<u64>, max_capacity: nat, hash: u64)
    requires
        max_capacity > 0,
    ensures
        cache_insert(order, max_capacity, hash).contains(hash),
        cache_insert(cache_insert(order, max_capacity, hash), max_capacity, hash)
            == cache_insert(order, max_capacity, hash),
{
    let next = cache_insert(order, max_capacity, hash);
    if !order.contains(hash) {
        assert(next[next.len() - 1] == hash);
    }
}

/// An insert keeps the cache within its capacity and free of repeated
/// hashes; a new hash grows the cache by one until it is full, after which
/// the size stays at the capacity.
pub proof fn lemma_insert_bounded(order: Seq<u64>, max_capacity: nat, hash: u64)
    requires
        max_capacity > 0,
        order.len() <= max_capacity,
        order.no_duplicates(),
    ensures
        cache_insert(order, max_capacity, hash).len() <= max_capacity,
        cache_insert(order, max_capacity, hash).no_duplicates(),
        !order.contains(hash) && order.len() < max_capacity
            ==> cache_insert(order, max_capacity, hash).len() == order.len() + 1,
        !order.contains(hash) && order.len() == max_capacity
            ==> cache_insert(order, max_capacity, hash).len() == max_capacity,
{
    let next = cache_insert(order, max_capacity, hash);
    if !order.contains(hash) {
        let kept = if order.len() >= max_capacity { order.drop_first() } else { order };
        assert forall|i: int, j: int| 0 <= i < j < next.len() implies next[i] != next[j] by {
            if j == next.len() - 1 {
                assert(kept[i] == next[i]);
                if order.len() >= max_capacity {
                    assert(order[i + 1] == kept[i]);
                } else {
                    assert(order[i] == kept[i]);
                }
            } else if order.len() >= max_capacity {
                assert(next[i] == order[i + 1] && next[j] == order[j + 1]);
            }
        }
    }
}

/// Inserting a hash that is already cached changes nothing, whatever its
/// place in the cache: the cache is first-in first-out, a repeat does not
/// refresh it. A new hash is appended, and when the cache is full the
/// oldest hash is dropped first.
pub proof fn lemma_insert_first_in_first_out(order: Seq<u64>, max_capacity: nat, hash: u64)
    requires
        order.len() <= max_capacity,
    ensures
        order.contains(hash) ==> cache_insert(order, max_capacity, hash) == order,
        !order.contains(hash) && order.len() < max_capacity ==> cache_insert(order, max_capacity, hash)
            == order.push(hash),
        !order.contains(hash) && order.len() == max_capacity ==> cache_insert(order, max_capacity, hash)
            == order.subrange(1, order.len() as int).push(hash),
{
    if !order.contains(hash) && order.len() == max_capacity {
        assert(order.drop_first() =~= order.subrange(1, order.len() as int));
    }
}

/// Only the oldest hash can leave the cache, and only when a new hash
/// arrives while the cache is full: every other cached hash stays.
pub proof fn lemma_insert_evicts_oldest(order: Seq<u64>, max_capacity: nat, hash: u64, i: int)
    requires
        max_capacity > 0,
        0 <= i < order.len(),
        i > 0 || order.contains(hash) || order.len() < max_capacity,
    ensures
        cache_insert(order, max_capacity, hash).contains(order[i]),
{
    let next = cache_insert(order, max_capacity, hash);
    if order.contains(hash) {
    } else if order.len() >= max_capacity {
        assert(next[i - 1] == order[i]);
    } else {
        assert(next[i] == order[i]);
    }
}

} // verus!

verus! {

/// The order of the cached hashes after inserting `hashes`, one after the
/// other, into a cache holding `order`.
pub open spec fn cache_insert_all(order: Seq<u64>, max_capacity: nat, hashes: Seq<u64>) -> Seq<u64>
    decreases hashes.len(),
{
    if hashes.len() == 0 {
        order
    } else {
        cache_insert(
            cache_insert_all(order, max_capacity, hashes.drop_last()),
            max_capacity,
            hashes.last(),
        )
    }
}

/// How many of the inserts of `hashes`, one after the other into a cache
/// holding `order`, report a new hash.
pub open spec fn new_insert_count(order: Seq<u64>, max_capacity: nat, hashes: Seq<u64>) -> nat
    decreases hashes.len(),
{
    if hashes.len() == 0 {
        0
    } else {
        new_insert_count(order, max_capacity, hashes.drop_last()) + if cache_insert_all(
            order,
            max_capacity,
            hashes.drop_last(),
        ).contains(hashes.last()) {
            0nat
        } else {
            1nat
        }
    }
}

/// After a sequence of inserts, a cache that started with `order` holds as
/// many hashes as it held plus the inserts that reported a new hash, but no
/// more than its capacity; from an empty cache that is the smaller of the
/// number of new inserts and the capacity.
pub proof fn lemma_len_counts_new_inserts(order: Seq<u64>, max_capacity: nat, hashes: Seq<u64>)
    requires
        max_capacity > 0,
        order.len() <= max_capacity,
        order.no_duplicates(),
    ensures
        cache_insert_all(order, max_capacity, hashes).len() == if order.len() + new_insert_count(
            order,
            max_capacity,
            hashes,
        ) < max_capacity {
            order.len() + new_insert_count(order, max_capacity, hashes)
        } else {
            max_capacity
        },
        cache_insert_all(order, max_capacity, hashes).len() <= max_capacity,
        cache_insert_all(order, max_capacity, hashes).no_duplicates(),
    decreases hashes.len(),
{
    if hashes.len() > 0 {
        let init = hashes.drop_last();
        lemma_len_counts_new_inserts(order, max_capacity, init);
        lemma_insert_bounded(cache_insert_all(order, max_capacity, init), max_capacity, hashes.last());
    }
}

/// A cache made by `new(m)` with `m >= 1` can take any sequence of inserts:
/// before each of them it holds at most `m` hashes, each once, and when it is
/// full it has an oldest hash to evict, so every insert meets what `insert`
/// asks for.
pub proof fn lemma_new_then_inserts_never_stuck(max_capacity: nat, hashes: Seq<u64>)
    requires
        max_capacity >= 1,
    ensures
        forall|i: int|
            0 <= i <= hashes.len() ==> {
                let order = #[trigger] cache_insert_all(Seq::<u64>::empty(), max_capacity, hashes.take(i));
                &&& order.len() <= max_capacity
                &&& order.no_duplicates()
                &&& order.len() >= max_capacity ==> order.len() > 0
            },
{
    assert forall|i: int| 0 <= i <= hashes.len() implies {
        let order = #[trigger] cache_insert_all(Seq::<u64>::empty(), max_capacity, hashes.take(i));
        &&& order.len() <= max_capacity
        &&& order.no_duplicates()
        &&& order.len() >= max_capacity ==> order.len() > 0
    } by {
        lemma_len_counts_new_inserts(Seq::<u64>::empty(), max_capacity, hashes.take(i));
    }
}

} // verus!
