pub mod tiny_hash_cache;

use self::tiny_hash_cache::cache_insert;
use crate::protocol::messages::transaction_broadcast::TransactionBroadcast;
use vstd::prelude::*;

verus! {

/// The length in bytes of an encoded transaction.
pub const TRANSACTION_BYTE_LEN: usize = 1604;

/// The capacity of the cache with which the transaction worker
/// deduplicates the transactions it receives.
pub const TRANSACTION_WORKER_CACHE_CAPACITY: usize = 10000;

/// A bounded set of already seen hashes that forgets its oldest entry when
/// it is full; the hashes are computed by the caller.
pub struct TinyHashCache {
    inner: tiny_hash_cache::TinyHashCache,
}

impl View for TinyHashCache {
    /// The cached hashes, oldest first.
    type V = Seq<u64>;

    closed spec fn view(&self) -> Seq<u64> {
        self.inner@
    }
}

impl TinyHashCache {
    /// The capacity the cache was created with.
    pub closed spec fn capacity(&self) -> nat {
        self.inner.capacity()
    }

    /// The cache's internal consistency.
    pub closed spec fn wf(&self) -> bool {
        self.inner.wf()
    }

    /// Creates an empty cache that holds at most `max_capacity` hashes.
    pub fn new(max_capacity: usize) -> (cache: Self)
        ensures
            cache.wf(),
            cache@ == Seq::<u64>::empty(),
            cache.capacity() == max_capacity,
    {
        Self { inner: tiny_hash_cache::TinyHashCache::new(max_capacity) }
    }

    /// Inserts `hash`; returns whether it was not in the cache before. When
    /// the cache is full, the oldest hash makes room for the new one.
    pub fn insert(&mut self, hash: u64) -> (inserted: bool)
        requires
            old(self).wf(),
            old(self).capacity() > 0,
        ensures
            final(self).wf(),
            final(self).capacity() == old(self).capacity(),
            inserted == !old(self)@.contains(hash),
            final(self)@ == cache_insert(old(self)@, old(self).capacity(), hash),
    {
        self.inner.insert_hash(hash)
    }

    /// The number of cached hashes.
    pub fn len(&self) -> (len: usize)
        requires
            self.wf(),
        ensures
            len == self@.len(),
            len <= self.capacity(),
    {
        self.inner.len()
    }
}

/// `bytes` followed by as many zero bytes as it takes to reach
/// `TRANSACTION_BYTE_LEN`; longer inputs stay as they are.
pub open spec fn padded_transaction(bytes: Seq<u8>) -> Seq<u8> {
    if bytes.len() >= TRANSACTION_BYTE_LEN {
        bytes
    } else {
        bytes + Seq::new((TRANSACTION_BYTE_LEN - bytes.len()) as nat, |i: int| 0u8)
    }
}

/// Extends the raw bytes of a received transaction with zeros up to
/// `TRANSACTION_BYTE_LEN`.
pub fn pad_transaction(raw: Vec<u8>) -> (padded: Vec<u8>)
    ensures
        padded@ == padded_transaction(raw@),
{
    let mut bytes = raw;
    while bytes.len() < TRANSACTION_BYTE_LEN
        invariant
            raw@.len() <= bytes@.len(),
            bytes@.subrange(0, raw@.len() as int) == raw@,
            forall|i: int| raw@.len() <= i < bytes@.len() ==> bytes@[i] == 0u8,
            raw@.len() < TRANSACTION_BYTE_LEN ==> bytes@.len() <= TRANSACTION_BYTE_LEN,
            raw@.len() >= TRANSACTION_BYTE_LEN ==> bytes@ == raw@,
        decreases TRANSACTION_BYTE_LEN - bytes@.len(),
    {
        bytes.push(0);
    }
    assert(bytes@ =~= padded_transaction(raw@));
    bytes
}

/// The state of the worker that receives broadcast transactions: the cache
/// of the hashes of the transactions received so far.
pub struct TransactionWorker {
    cache: TinyHashCache,
}

impl TransactionWorker {
    /// The worker's internal consistency.
    pub closed spec fn wf(&self) -> bool {
        &&& self.cache.wf()
        &&& self.cache.capacity() == TRANSACTION_WORKER_CACHE_CAPACITY
    }

    /// The hashes of the transactions received so far, oldest first.
    pub closed spec fn seen(&self) -> Seq<u64> {
        self.cache@
    }

    /// Creates a worker that has received nothing yet.
    pub fn new() -> (worker: Self)
        ensures
            worker.wf(),
            worker.seen() == Seq::<u64>::empty(),
    {
        Self { cache: TinyHashCache::new(TRANSACTION_WORKER_CACHE_CAPACITY) }
    }

    /// Handles a received broadcast: its hash is remembered; when the xxHash
    /// of its bytes was seen before, or its bytes are longer than a
    /// transaction, the broadcast is dropped (`None`); otherwise the bytes,
    /// padded with zeros to the transaction length, are handed on for
    /// decoding.
    pub fn receive(&mut self, broadcast: TransactionBroadcast) -> (padded: Option<Vec<u8>>)
        requires
            old(self).wf(),
        ensures
            final(self).wf(),
            final(self).seen() == cache_insert(
                old(self).seen(),
                TRANSACTION_WORKER_CACHE_CAPACITY as nat,
                tiny_hash_cache::xxhash64(broadcast@),
            ),
            padded is None <==> (old(self).seen().contains(tiny_hash_cache::xxhash64(broadcast@))
                || broadcast@.len() > TRANSACTION_BYTE_LEN),
            padded matches Some(p) ==> p@ == padded_transaction(broadcast@),
            padded matches Some(p) ==> p@.len() == TRANSACTION_BYTE_LEN,
    {
        let raw = broadcast.into_transaction();
        let hash = tiny_hash_cache::xx_hash(raw.as_slice());
        if !self.cache.insert(hash) {
            return None;
        }
        if raw.len() > TRANSACTION_BYTE_LEN {
            return None;
        }
        Some(pad_transaction(raw))
    }
}

} // verus!
