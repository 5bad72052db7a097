//! A block cache that many readers share.
use vstd::prelude::*;
use vstd::rwlock::{RwLock, RwLockPredicate};
use super::{CacheStats, CachedStore};
use crate::storage::raw;
use crate::storage::{BackingStore, StorageError};
use crate::volume;
use crate::volume::BLOCK;

verus! {

/// What the lock of a shared cache guards: a cache of `master` with a budget.
pub struct CacheOf<B> {
    pub master: B,
    pub budget: u64,
}

impl<B: BackingStore> RwLockPredicate<CachedStore<B>> for CacheOf<B> {
    open spec fn inv(self, c: CachedStore<B>) -> bool {
        c.wf() && c.master() == self.master && c.budget() == self.budget
    }
}

/// A `CachedStore` under a lock: a store of the master's disk.
pub struct SharedCache<B: BackingStore> {
    size: u64,
    cache: RwLock<CachedStore<B>, CacheOf<B>>,
}

impl<B: BackingStore> SharedCache<B> {
    #[verifier::type_invariant]
    spec fn inv(self) -> bool {
        self.size == self.master().content().len()
    }

    /// The master.
    pub closed spec fn master(&self) -> B {
        self.cache.pred().master
    }

    /// Most bytes that are cached.
    pub closed spec fn budget(&self) -> u64 {
        self.cache.pred().budget
    }

    /// Wrap `inner`, caching its blocks up to `budget_bytes` total.
    pub fn new(inner: B, budget_bytes: u64) -> (c: Self)
        ensures
            c.master() == inner,
            c.budget() == budget_bytes,
    {
        let size: u64 = inner.size_bytes();
        let ghost of = CacheOf { master: inner, budget: budget_bytes };
        let cache = RwLock::new(CachedStore::new(inner, budget_bytes), Ghost(of));
        SharedCache { size, cache }
    }

    /// Hit/miss counters plus the current cached block count and byte total: those
    /// of some blocks of the master, each once, within the budget. Which blocks
    /// they are and what the counters say rests with all readers together.
    pub fn stats(&self) -> (s: CacheStats)
        ensures
            exists|e: Seq<(u64, Seq<u8>)>| #[trigger]
                super::faithful(e, self.content()) && super::distinct(e) && super::total(e)
                    <= self.budget() && s.blocks == e.len() && s.bytes == super::total(e),
    {
        let (cache, handle) = self.cache.acquire_write();
        proof {
            super::cache_serves_its_master(&cache);
            super::cache_holds_each_block_once(&cache);
            assert(super::faithful(cache.entries(), self.content()));
        }
        let s = cache.stats();
        handle.release_write(cache);
        s
    }
}

impl<B: BackingStore> BackingStore for SharedCache<B> {
    open spec fn content(&self) -> Seq<u8> {
        self.master().content()
    }

    /// The block of the byte can be read.
    open spec fn readable(&self, i: int) -> bool {
        let start = volume::block_start(i / BLOCK as int);
        let end = start + volume::block_len_of(self.content().len() as int, i / BLOCK as int);
        forall|j: int| start <= j < end ==> #[trigger] self.master().readable(j)
    }

    fn size_bytes(&self) -> (n: u64) {
        proof {
            use_type_invariant(self);
        }
        self.size
    }

    fn read_at(&self, offset: u64, buf: &mut [u8]) -> (r: Result<(), StorageError>)
        ensures
            offset + old(buf)@.len() > self.content().len() ==> r == Err::<(), StorageError>(
                raw::range_error(offset, old(buf)@.len() as int, self.content().len() as u64),
            ),
    {
        proof {
            use_type_invariant(self);
        }
        match raw::check_range(offset, buf.len(), self.size) {
            Ok(_) => {},
            Err(e) => {
                return Err(e);
            },
        }
        let (cache, handle) = self.cache.acquire_write();
        let mut cache = cache;
        let ghost before = cache;
        proof {
            super::cache_serves_its_master(&before);
        }
        let r = cache.read_at(offset, buf);
        handle.release_write(cache);
        proof {
            if r is Err {
                let n = old(buf)@.len() as int;
                let first = offset as int / (BLOCK as int);
                let all = super::blocks_touched(offset as int, n);
                let k = choose|k: int|
                    0 <= k < all && !(#[trigger] before.block_readable(first + k));
                let i = if k == 0 {
                    offset as int
                } else {
                    volume::block_start(first + k)
                };
                assert(offset <= i < offset + n);
                assert(i / (BLOCK as int) == first + k);
                assert(!self.readable(i));
            }
        }
        r
    }
}

} // verus!
