//! Shared RAM block cache for read-only master images.
//!
//! `CachedStore` puts an LRU cache of `BLOCK`-sized master blocks under a byte
//! budget in front of a `BackingStore`. Reading through it moves its entries, so
//! it is read by one reader at a time; `SharedCache` holds it under a lock and is
//! a `BackingStore` again. One `SharedCache` per master disk is shared across all
//! clients of that disk, so a hot block is held in RAM once for all of them. The
//! master is read-only, so nothing is ever written back.
pub mod laws;
pub mod lru_list;
pub mod shared;

pub use shared::SharedCache;

use lru::LruCache;
use vstd::prelude::*;
use crate::storage::{BackingStore, StorageError};
use crate::volume;
use crate::volume::BLOCK;
use crate::wire;

verus! {

/// Snapshot of cache counters for tests and diagnostics.
#[derive(Debug, Clone, Copy, PartialEq, Eq, Structural)]
pub struct CacheStats {
    pub hits: u64,
    pub misses: u64,
    pub blocks: usize,
    pub bytes: u64,
}

/// Block `blk` of a disk.
pub open spec fn block_bytes(disk: Seq<u8>, blk: int) -> Seq<u8> {
    disk.subrange(
        volume::block_start(blk),
        volume::block_start(blk) + volume::block_len_of(disk.len() as int, blk),
    )
}

/// Bytes of all entries.
pub open spec fn total(e: Seq<(u64, Seq<u8>)>) -> int
    decreases e.len(),
{
    if e.len() == 0 {
        0
    } else {
        e[0].1.len() + total(e.drop_first())
    }
}

/// There is an entry for `blk`.
pub open spec fn cached(e: Seq<(u64, Seq<u8>)>, blk: int) -> bool {
    lru_list::place(e, blk as u64) < e.len()
}

/// `e` without as many of its least recently used entries as it takes to get
/// down to `limit` bytes.
pub open spec fn trimmed(e: Seq<(u64, Seq<u8>)>, limit: int) -> Seq<(u64, Seq<u8>)>
    decreases e.len(),
{
    if e.len() > 0 && total(e) > limit {
        trimmed(e.drop_first(), limit)
    } else {
        e
    }
}

/// The entries after an access to block `blk` of `disk`: a cached block becomes
/// the most recently used; another is cached in the place of the least
/// recently used ones, if the budget has room for it at all.
pub open spec fn accessed(
    e: Seq<(u64, Seq<u8>)>,
    disk: Seq<u8>,
    budget: int,
    blk: int,
) -> Seq<(u64, Seq<u8>)> {
    let data = block_bytes(disk, blk);
    let room = trimmed(e, budget - data.len());
    if cached(e, blk) {
        lru_list::promoted(e, lru_list::place(e, blk as u64))
    } else if data.len() > budget {
        e
    } else if room.len() >= usize::MAX {
        room
    } else {
        room.push((blk as u64, data))
    }
}

/// The entries after accesses to `n` blocks from `first` on, in order.
pub open spec fn accessed_all(
    e: Seq<(u64, Seq<u8>)>,
    disk: Seq<u8>,
    budget: int,
    first: int,
    n: int,
) -> Seq<(u64, Seq<u8>)>
    decreases n,
{
    if n <= 0 {
        e
    } else {
        accessed(accessed_all(e, disk, budget, first, n - 1), disk, budget, first + n - 1)
    }
}

/// How many of these accesses hit.
pub open spec fn hits_among(
    e: Seq<(u64, Seq<u8>)>,
    disk: Seq<u8>,
    budget: int,
    first: int,
    n: int,
) -> int
    decreases n,
{
    if n <= 0 {
        0
    } else {
        hits_among(e, disk, budget, first, n - 1) + if cached(
            accessed_all(e, disk, budget, first, n - 1),
            first + n - 1,
        ) {
            1int
        } else {
            0
        }
    }
}

/// Of `n` accesses `h` hit: the hits and misses counted go from `before` to
/// `after`.
pub open spec fn counts(h: int, n: int, before: (u64, u64), after: (u64, u64)) -> bool {
    after.0 == counted(before.0, h) && after.1 == counted(before.1, n - h)
}

/// How many blocks a read of `len` bytes at `offset` touches.
pub open spec fn blocks_touched(offset: int, len: int) -> int {
    if len == 0 {
        0
    } else {
        (offset + len - 1) / (BLOCK as int) - offset / (BLOCK as int) + 1
    }
}

/// Every entry is a block of `disk`.
pub open spec fn faithful(e: Seq<(u64, Seq<u8>)>, disk: Seq<u8>) -> bool {
    forall|i: int| 0 <= i < e.len() ==> {
        &&& volume::block_start((#[trigger] e[i]).0 as int) < disk.len()
        &&& e[i].1 == block_bytes(disk, e[i].0 as int)
    }
}

/// No block has two entries.
pub open spec fn distinct(e: Seq<(u64, Seq<u8>)>) -> bool {
    forall|i: int, j: int| #![trigger e[i], e[j]] 0 <= i < j < e.len() ==> e[i].0 != e[j].0
}

/// A `BackingStore` decorator caching master blocks in RAM (LRU, byte-budgeted).
pub struct CachedStore<B> {
    inner: B,
    budget: u64,
    cache: LruCache<u64, Vec<u8>>,
    current_bytes: u64,
    hits: u64,
    misses: u64,
}

impl<B: BackingStore> CachedStore<B> {
    /// The bytes of the master.
    pub closed spec fn content(&self) -> Seq<u8> {
        self.inner.content()
    }

    /// The master.
    pub closed spec fn master(&self) -> B {
        self.inner
    }

    /// Byte `i` of the master can be read.
    pub closed spec fn readable(&self, i: int) -> bool {
        self.inner.readable(i)
    }

    /// How many blocks the cache can hold at most.
    pub closed spec fn limit(&self) -> int {
        lru_list::limit(self.cache)
    }

    /// Every byte of block `blk` of the master can be read.
    pub open spec fn block_readable(&self, blk: int) -> bool {
        let start = volume::block_start(blk);
        let end = start + volume::block_len_of(self.content().len() as int, blk);
        forall|i: int| start <= i < end ==> #[trigger] self.readable(i)
    }

    /// The cached blocks with their numbers, least recently used first.
    pub closed spec fn entries(&self) -> Seq<(u64, Seq<u8>)> {
        lru_list::entries(self.cache)
    }

    pub closed spec fn budget(&self) -> u64 {
        self.budget
    }

    pub closed spec fn hits(&self) -> u64 {
        self.hits
    }

    pub closed spec fn misses(&self) -> u64 {
        self.misses
    }

    /// What is cached is what the master holds, once, it is within the budget,
    /// and its bytes are counted.
    pub closed spec fn wf(&self) -> bool {
        &&& self.limit() == usize::MAX
        &&& faithful(self.entries(), self.content())
        &&& distinct(self.entries())
        &&& self.current_bytes == total(self.entries())
        &&& self.current_bytes <= self.budget
    }

    /// Wrap `inner`, caching its blocks up to `budget_bytes` total.
    pub fn new(inner: B, budget_bytes: u64) -> (c: Self)
        ensures
            c.wf(),
            c.master() == inner,
            c.content() == inner.content(),
            forall|i: int| #[trigger] c.readable(i) == inner.readable(i),
            c.budget() == budget_bytes,
            c.entries() == Seq::<(u64, Seq<u8>)>::empty(),
            c.hits() == 0,
            c.misses() == 0,
    {
        CachedStore {
            inner,
            budget: budget_bytes,
            cache: lru_list::unbounded(),
            current_bytes: 0,
            hits: 0,
            misses: 0,
        }
    }

    /// Hit/miss counters plus the current cached block count and byte total.
    pub fn stats(&self) -> (s: CacheStats)
        requires
            self.wf(),
        ensures
            s.hits == self.hits(),
            s.misses == self.misses(),
            s.blocks == self.entries().len(),
            s.bytes == total(self.entries()),
            s.bytes <= self.budget(),
    {
        CacheStats {
            hits: self.hits,
            misses: self.misses,
            blocks: lru_list::len(&self.cache),
            bytes: self.current_bytes,
        }
    }

    pub fn size_bytes(&self) -> (n: u64)
        ensures
            n == self.content().len(),
    {
        self.inner.size_bytes()
    }

    /// Drop least recently used blocks until at most `limit` bytes are cached.
    fn trim(&mut self, limit: u64)
        requires
            old(self).wf(),
            limit <= old(self).budget(),
        ensures
            final(self).wf(),
            final(self).same_but_entries(old(self)),
            final(self).hits() == old(self).hits(),
            final(self).misses() == old(self).misses(),
            final(self).entries() == trimmed(old(self).entries(), limit as int),
            total(final(self).entries()) <= limit,
    {
        while self.current_bytes > limit
            invariant
                self.wf(),
                self.same_but_entries(old(self)),
                self.hits == old(self).hits,
                self.misses == old(self).misses,
                limit <= self.budget,
                trimmed(self.entries(), limit as int) == trimmed(
                    old(self).entries(),
                    limit as int,
                ),
            decreases self.current_bytes,
        {
            let ghost before = self.entries();
            match lru_list::pop_lru(&mut self.cache) {
                Some((blk, data)) => {
                    proof {
                        assert(before.len() > 0);
                        total_is_positive(before.drop_first());
                        assert(volume::block_start(before[0].0 as int) < self.content().len());
                        assert forall|i: int, j: int| #![trigger self.entries()[i], self.entries()[j]]
                            0 <= i < j < self.entries().len() implies self.entries()[i].0
                            != self.entries()[j].0 by {
                            assert(before[i + 1].0 != before[j + 1].0);
                        }
                        assert forall|i: int| 0 <= i < self.entries().len() implies {
                            &&& volume::block_start((#[trigger] self.entries()[i]).0 as int)
                                < self.content().len()
                            &&& self.entries()[i].1 == block_bytes(
                                self.content(),
                                self.entries()[i].0 as int,
                            )
                        } by {
                            assert(before[i + 1] == self.entries()[i]);
                        }
                    }
                    self.current_bytes = self.current_bytes - data.len() as u64;
                },
                None => {
                    return;
                },
            }
        }
    }

    /// Only the cached entries and the counters may differ from `before`.
    pub closed spec fn same_but_entries(&self, before: &Self) -> bool {
        self.inner == before.inner && self.budget == before.budget
    }

    /// Block `blk`, from the cache or from the master.
    fn fetch(&mut self, blk: u64) -> (r: Result<Vec<u8>, StorageError>)
        requires
            old(self).wf(),
            volume::block_start(blk as int) < old(self).content().len(),
        ensures
            final(self).wf(),
            final(self).same_but_entries(old(self)),
            final(self).hits() == if cached(old(self).entries(), blk as int) {
                old(self).hits().wrapping_add(1)
            } else {
                old(self).hits()
            },
            final(self).misses() == if cached(old(self).entries(), blk as int) {
                old(self).misses()
            } else {
                old(self).misses().wrapping_add(1)
            },
            match r {
                Ok(data) => {
                    &&& data@ == block_bytes(old(self).content(), blk as int)
                    &&& final(self).entries() == accessed(
                        old(self).entries(),
                        old(self).content(),
                        old(self).budget() as int,
                        blk as int,
                    )
                },
                Err(_) => {
                    &&& !cached(old(self).entries(), blk as int)
                    &&& !old(self).block_readable(blk as int)
                    &&& final(self).entries() == old(self).entries()
                },
            },
    {
        let ghost e = self.entries();
        let ghost disk = self.content();
        proof {
            place_bounds(e, blk);
        }
        match lru_list::get(&mut self.cache, blk) {
            Some(data) => {
                proof {
                    let i = lru_list::place(e, blk);
                    total_promoted(e, i);
                    distinct_promoted(e, i);
                    assert forall|j: int| 0 <= j < self.entries().len() implies {
                        &&& volume::block_start((#[trigger] self.entries()[j]).0 as int)
                            < disk.len()
                        &&& self.entries()[j].1 == block_bytes(disk, self.entries()[j].0 as int)
                    } by {
                        if j < i {
                            assert(self.entries()[j] == e[j]);
                        } else if j < e.len() - 1 {
                            assert(self.entries()[j] == e[j + 1]);
                        } else {
                            assert(self.entries()[j] == e[i]);
                        }
                    }
                }
                self.hits = self.hits.wrapping_add(1);
                return Ok(data);
            },
            None => {},
        }
        self.misses = self.misses.wrapping_add(1);
        let size: u64 = self.inner.size_bytes();
        let start: u64 = blk * BLOCK;
        let blen: usize = if size - start < BLOCK { (size - start) as usize } else { BLOCK as usize };
        let mut data: Vec<u8> = wire::zeroed(blen);
        match self.inner.read_at(start, data.as_mut_slice()) {
            Ok(_) => {},
            Err(e) => {
                assert(forall|i: int| #[trigger] self.inner.readable(i) == old(self).readable(i));
                return Err(e);
            },
        }
        if blen as u64 > self.budget {
            return Ok(data);
        }
        self.trim(self.budget - blen as u64);
        let ghost room = self.entries();
        if lru_list::len(&self.cache) < usize::MAX {
            proof {
                absent_after_trim(e, self.budget - blen, blk);
                total_push(room, (blk, data@));
                place_bounds(room, blk);
            }
            lru_list::put(&mut self.cache, blk, wire::sub_vec(data.as_slice(), 0, blen));
            assert(data@.subrange(0, blen as int) =~= data@);
            self.current_bytes = self.current_bytes + blen as u64;
            assert forall|j: int| 0 <= j < self.entries().len() implies {
                &&& volume::block_start((#[trigger] self.entries()[j]).0 as int) < disk.len()
                &&& self.entries()[j].1 == block_bytes(disk, self.entries()[j].0 as int)
            } by {
                if j < room.len() {
                    assert(self.entries()[j] == room[j]);
                }
            }
        }
        Ok(data)
    }

    /// Read exactly `buf.len()` bytes starting at byte `offset`, block by block
    /// through the cache. Fails only on a block that is not cached and of which
    /// the master fails to give a byte.
    #[verifier::rlimit(60)]
    pub fn read_at(&mut self, offset: u64, buf: &mut [u8]) -> (r: Result<(), StorageError>)
        requires
            old(self).wf(),
            offset + old(buf)@.len() <= old(self).content().len(),
        ensures
            final(self).wf(),
            final(self).master() == old(self).master(),
            final(self).content() == old(self).content(),
            forall|i: int| #[trigger] final(self).readable(i) == old(self).readable(i),
            final(self).budget() == old(self).budget(),
            final(buf)@.len() == old(buf)@.len(),
            ({
                let e = old(self).entries();
                let disk = old(self).content();
                let budget = old(self).budget() as int;
                let first = offset as int / (BLOCK as int);
                let n = blocks_touched(offset as int, old(buf)@.len() as int);
                match r {
                    Ok(_) => {
                        &&& final(buf)@ == disk.subrange(
                            offset as int,
                            offset + old(buf)@.len(),
                        )
                        &&& final(self).entries() == accessed_all(e, disk, budget, first, n)
                        &&& counts(
                            hits_among(e, disk, budget, first, n),
                            n,
                            (old(self).hits(), old(self).misses()),
                            (final(self).hits(), final(self).misses()),
                        )
                    },
                    Err(_) => exists|k: int|
                        0 <= k < n && final(self).entries() == #[trigger] accessed_all(
                            e,
                            disk,
                            budget,
                            first,
                            k,
                        ) && !cached(final(self).entries(), first + k) && !old(
                            self,
                        ).block_readable(first + k),
                }
            }),
    {
        let n: usize = buf.len();
        let mut done: usize = 0;
        let ghost e = self.entries();
        let ghost disk = self.content();
        let ghost budget = self.budget as int;
        let ghost first = offset as int / (BLOCK as int);
        let ghost mut nb: int = 0;
        while done < n
            invariant
                self.wf(),
                self.same_but_entries(old(self)),
                e == old(self).entries(),
                disk == old(self).content(),
                disk == self.content(),
                budget == old(self).budget(),
                budget == self.budget,
                first == offset as int / (BLOCK as int),
                done <= n,
                n == old(buf)@.len(),
                buf@.len() == n,
                offset + n <= disk.len(),
                forall|i: int| 0 <= i < done ==> buf@[i] == disk[offset + i],
                0 <= hits_among(e, disk, budget, first, nb) <= nb,
                done == 0 ==> nb == 0,
                done > 0 ==> (offset + done - 1) / (BLOCK as int) == first + nb - 1,
                0 < done < n ==> (offset + done) % (BLOCK as int) == 0,
                self.entries() == accessed_all(e, disk, budget, first, nb),
                self.hits == counted(old(self).hits(), hits_among(e, disk, budget, first, nb)),
                self.misses == counted(
                    old(self).misses(),
                    nb - hits_among(e, disk, budget, first, nb),
                ),
            decreases n - done,
        {
            let size: u64 = self.inner.size_bytes();
            let pos: u64 = offset + done as u64;
            let blk: u64 = pos / BLOCK;
            let within: usize = (pos % BLOCK) as usize;
            assert(blk == first + nb);
            let ghost before = buf@;
            let ghost here = *self;
            let data = match self.fetch(blk) {
                Ok(d) => d,
                Err(err) => {
                    proof {
                        let all = blocks_touched(offset as int, n as int);
                        assert((offset + n - 1) / (BLOCK as int) >= blk);
                        assert(0 <= nb < all);
                        assert(self.entries() == accessed_all(e, disk, budget, first, nb));
                        assert(forall|i: int| #[trigger] here.readable(i) == old(self).readable(i));
                        assert(!here.block_readable(first + nb));
                        assert(!old(self).block_readable(first + nb));
                    }
                    return Err(err);
                },
            };
            let left: usize = n - done;
            let take: usize = if data.len() - within < left { data.len() - within } else { left };
            wire::copy_into(
                buf,
                done,
                vstd::slice::slice_subrange(data.as_slice(), within, within + take),
            );
            proof {
                assert forall|i: int| 0 <= i < done + take implies buf@[i] == disk[offset + i] by {
                    if i < done {
                        assert(buf@[i] == before[i]);
                    } else {
                        assert(buf@[i] == data@[within + (i - done)]);
                    }
                }
                assert((pos + take - 1) / (BLOCK as int) == blk);
                assert(done + take < n ==> (pos + take) % (BLOCK as int) == 0);
                let h = hits_among(e, disk, budget, first, nb);
                counted_step(old(self).hits(), h);
                counted_step(old(self).misses(), nb - h);
                assert(accessed_all(e, disk, budget, first, nb + 1) == accessed(
                    accessed_all(e, disk, budget, first, nb),
                    disk,
                    budget,
                    first + nb,
                ));
                assert(hits_among(e, disk, budget, first, nb + 1) == h + if cached(
                    accessed_all(e, disk, budget, first, nb),
                    first + nb,
                ) {
                    1int
                } else {
                    0
                });
                nb = nb + 1;
            }
            done += take;
        }
        assert(buf@ =~= disk.subrange(offset as int, offset + n));
        Ok(())
    }
}

/// What a cache serves is what its master holds.
pub proof fn cache_serves_its_master<B: BackingStore>(c: &CachedStore<B>)
    ensures
        c.content() == c.master().content(),
        forall|i: int| #[trigger] c.readable(i) == c.master().readable(i),
{
}

/// A hot block is held once: the cached blocks are blocks of the master as it
/// holds them, no two of them the same, and together within the budget.
pub proof fn cache_holds_each_block_once<B: BackingStore>(c: &CachedStore<B>)
    requires
        c.wf(),
    ensures
        faithful(c.entries(), c.content()),
        distinct(c.entries()),
        total(c.entries()) <= c.budget(),
{
}

/// A read of cached blocks alone succeeds without the master.
pub proof fn all_cached_is_all_hits(
    e: Seq<(u64, Seq<u8>)>,
    disk: Seq<u8>,
    budget: int,
    first: int,
    n: int,
)
    requires
        0 <= first,
        0 <= n,
        first + n <= u64::MAX,
        forall|blk: int| first <= blk < first + n ==> #[trigger] cached(e, blk),
    ensures
        hits_among(e, disk, budget, first, n) == n,
        forall|blk: int| first <= blk < first + n ==> #[trigger] cached(
            accessed_all(e, disk, budget, first, n),
            blk,
        ),
    decreases n,
{
    if n > 0 {
        keeps_cached(e, disk, budget, first, n, n - 1);
        keeps_cached(e, disk, budget, first, n, n);
        all_cached_is_all_hits(e, disk, budget, first, n - 1);
    }
}

/// Hits drop nothing.
proof fn keeps_cached(
    e: Seq<(u64, Seq<u8>)>,
    disk: Seq<u8>,
    budget: int,
    first: int,
    n: int,
    k: int,
)
    requires
        0 <= first,
        0 <= k <= n,
        first + n <= u64::MAX,
        forall|blk: int| first <= blk < first + n ==> #[trigger] cached(e, blk),
    ensures
        forall|blk: int| first <= blk < first + n ==> #[trigger] cached(
            accessed_all(e, disk, budget, first, k),
            blk,
        ),
    decreases k,
{
    if k > 0 {
        keeps_cached(e, disk, budget, first, n, k - 1);
        let a = accessed_all(e, disk, budget, first, k - 1);
        let hit = first + k - 1;
        assert(cached(a, hit));
        let i = lru_list::place(a, hit as u64);
        place_bounds(a, hit as u64);
        let b = lru_list::promoted(a, i);
        assert forall|blk: int| first <= blk < first + n implies #[trigger] cached(b, blk) by {
            assert(cached(a, blk));
            place_bounds(a, blk as u64);
            let j = lru_list::place(a, blk as u64);
            let to = if j < i {
                j
            } else if j > i {
                j - 1
            } else {
                a.len() - 1
            };
            assert(b[to] == a[j]);
            place_bounds(b, blk as u64);
        }
    }
}

proof fn distinct_promoted(e: Seq<(u64, Seq<u8>)>, i: int)
    requires
        distinct(e),
        0 <= i < e.len(),
    ensures
        distinct(lru_list::promoted(e, i)),
{
    let p = lru_list::promoted(e, i);
    assert forall|a: int, b: int| #![trigger p[a], p[b]] 0 <= a < b < p.len() implies p[a].0
        != p[b].0 by {
        let x = if a < i {
            a
        } else {
            a + 1
        };
        let y = if b == p.len() - 1 {
            i
        } else if b < i {
            b
        } else {
            b + 1
        };
        assert(p[a] == e[x]);
        assert(p[b] == e[y]);
    }
}

/// A counter that started at `from` after `n` more events, wrapping around.
pub open spec fn counted(from: u64, n: int) -> u64 {
    ((from + n) % 0x1_0000_0000_0000_0000) as u64
}

proof fn counted_step(from: u64, n: int)
    requires
        0 <= n,
    ensures
        counted(from, n + 1) == counted(from, n).wrapping_add(1),
{
}

proof fn place_bounds(e: Seq<(u64, Seq<u8>)>, key: u64)
    ensures
        0 <= lru_list::place(e, key) <= e.len(),
        lru_list::place(e, key) < e.len() ==> e[lru_list::place(e, key)].0 == key,
        lru_list::place(e, key) == e.len() ==> forall|i: int|
            0 <= i < e.len() ==> (#[trigger] e[i]).0 != key,
    decreases e.len(),
{
    if e.len() > 0 && e[0].0 != key {
        place_bounds(e.drop_first(), key);
        if lru_list::place(e, key) == e.len() {
            assert forall|i: int| 0 <= i < e.len() implies (#[trigger] e[i]).0 != key by {
                if i > 0 {
                    assert(e.drop_first()[i - 1] == e[i]);
                }
            }
        }
    }
}

/// Without an entry for `key`, its place is the end.
proof fn place_absent(e: Seq<(u64, Seq<u8>)>, key: u64)
    requires
        forall|i: int| 0 <= i < e.len() ==> (#[trigger] e[i]).0 != key,
    ensures
        lru_list::place(e, key) == e.len(),
    decreases e.len(),
{
    if e.len() > 0 {
        assert(e[0].0 != key);
        assert forall|i: int| 0 <= i < e.drop_first().len() implies (
        #[trigger] e.drop_first()[i]).0 != key by {
            assert(e[i + 1].0 != key);
        }
        place_absent(e.drop_first(), key);
    }
}

/// Trimming adds no entry.
proof fn absent_after_trim(e: Seq<(u64, Seq<u8>)>, limit: int, key: u64)
    requires
        lru_list::place(e, key) == e.len(),
    ensures
        lru_list::place(trimmed(e, limit), key) == trimmed(e, limit).len(),
    decreases e.len(),
{
    if e.len() > 0 && total(e) > limit {
        place_bounds(e, key);
        assert forall|i: int| 0 <= i < e.drop_first().len() implies (
        #[trigger] e.drop_first()[i]).0 != key by {
            assert(e[i + 1].0 != key);
        }
        place_absent(e.drop_first(), key);
        absent_after_trim(e.drop_first(), limit, key);
    }
}

proof fn total_is_positive(e: Seq<(u64, Seq<u8>)>)
    ensures
        total(e) >= 0,
    decreases e.len(),
{
    if e.len() > 0 {
        total_is_positive(e.drop_first());
    }
}

proof fn total_push(e: Seq<(u64, Seq<u8>)>, x: (u64, Seq<u8>))
    ensures
        total(e.push(x)) == total(e) + x.1.len(),
    decreases e.len(),
{
    if e.len() == 0 {
        assert(e.push(x).drop_first() =~= Seq::empty());
        assert(total(e.push(x).drop_first()) == 0);
    } else {
        total_push(e.drop_first(), x);
        assert(e.push(x).drop_first() =~= e.drop_first().push(x));
    }
}

proof fn total_remove(e: Seq<(u64, Seq<u8>)>, i: int)
    requires
        0 <= i < e.len(),
    ensures
        total(e.remove(i)) == total(e) - e[i].1.len(),
    decreases e.len(),
{
    if i == 0 {
        assert(e.remove(0) =~= e.drop_first());
    } else {
        total_remove(e.drop_first(), i - 1);
        assert(e.remove(i).drop_first() =~= e.drop_first().remove(i - 1));
        assert(e.remove(i)[0] == e[0]);
    }
}

proof fn total_promoted(e: Seq<(u64, Seq<u8>)>, i: int)
    requires
        0 <= i < e.len(),
    ensures
        total(lru_list::promoted(e, i)) == total(e),
{
    total_remove(e, i);
    total_push(e.remove(i), e[i]);
}

} // verus!
