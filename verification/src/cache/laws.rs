//! What an access does to a cache.
use vstd::prelude::*;
use super::lru_list;
use crate::volume;
use crate::volume::BLOCK;

verus! {

/// Some entry is that of block `blk`.
pub open spec fn holds(e: Seq<(u64, Seq<u8>)>, blk: u64) -> bool {
    exists|i: int| 0 <= i < e.len() && (#[trigger] e[i]).0 == blk
}

proof fn place_is(e: Seq<(u64, Seq<u8>)>, blk: u64)
    ensures
        0 <= lru_list::place(e, blk) <= e.len(),
        (lru_list::place(e, blk) < e.len()) == holds(e, blk),
        lru_list::place(e, blk) < e.len() ==> e[lru_list::place(e, blk)].0 == blk,
    decreases e.len(),
{
    if e.len() > 0 && e[0].0 != blk {
        let rest = e.drop_first();
        place_is(rest, blk);
        let p = lru_list::place(rest, blk);
        if p < rest.len() {
            assert(e[p + 1].0 == blk);
        }
        if holds(e, blk) {
            let i = choose|i: int| 0 <= i < e.len() && (#[trigger] e[i]).0 == blk;
            assert(rest[i - 1].0 == blk);
        }
    } else if e.len() > 0 {
        assert(e[0].0 == blk);
    }
}

/// The block that is accessed becomes the last to go, with the bytes of the
/// master. A block that was there keeps the others in order; another one takes
/// the place of the first ones, no more of them than it needs, and of none where
/// the budget has room. A block larger than the budget changes nothing.
pub proof fn access_makes_a_block_the_last_to_go(
    e: Seq<(u64, Seq<u8>)>,
    disk: Seq<u8>,
    budget: int,
    blk: u64,
)
    requires
        blk * 4096 < disk.len(),
        e.len() < usize::MAX,
    ensures
        ({
            let after = super::accessed(e, disk, budget, blk as int);
            let end = if blk * 4096 + 4096 < disk.len() {
                blk * 4096 + 4096
            } else {
                disk.len() as int
            };
            let data = disk.subrange(blk * 4096, end);
            &&& holds(e, blk) ==> exists|i: int|
                0 <= i < e.len() && (#[trigger] e[i]).0 == blk && after == e.take(i) + e.skip(i + 1)
                    + seq![e[i]]
            &&& !holds(e, blk) && data.len() > budget ==> after == e
            &&& !holds(e, blk) && data.len() <= budget ==> exists|k: int|
                0 <= k <= e.len() && after == #[trigger] e.skip(k) + seq![(blk, data)]
                    && super::total(e.skip(k)) + data.len() <= budget && (k > 0 ==> super::total(
                    e.skip(k - 1),
                ) + data.len() > budget)
        }),
{
    let after = super::accessed(e, disk, budget, blk as int);
    let end = if blk * 4096 + 4096 < disk.len() {
        blk * 4096 + 4096
    } else {
        disk.len() as int
    };
    let data = disk.subrange(blk * 4096, end);
    assert(BLOCK == 4096);
    assert(super::block_bytes(disk, blk as int) =~= data);
    place_is(e, blk);
    if holds(e, blk) {
        let i = lru_list::place(e, blk);
        assert(e[i].0 == blk);
        assert(after =~= e.take(i) + e.skip(i + 1) + seq![e[i]]);
    } else if data.len() <= budget {
        let limit = budget - data.len();
        let k = trim_point(e, limit);
        assert(e.skip(k).len() <= e.len());
        assert(after =~= e.skip(k) + seq![(blk, data)]);
    }
}

proof fn trim_point(e: Seq<(u64, Seq<u8>)>, limit: int) -> (k: int)
    requires
        0 <= limit,
    ensures
        0 <= k <= e.len(),
        super::trimmed(e, limit) == e.skip(k),
        super::total(e.skip(k)) <= limit,
        k > 0 ==> super::total(e.skip(k - 1)) > limit,
    decreases e.len(),
{
    assert(e.skip(0) =~= e);
    if e.len() > 0 && super::total(e) > limit {
        let rest = e.drop_first();
        let k = trim_point(rest, limit);
        assert(rest.skip(k) =~= e.skip(k + 1));
        if k > 0 {
            assert(rest.skip(k - 1) =~= e.skip(k));
        }
        k + 1
    } else {
        0
    }
}

/// What the entries come to is counted entry by entry.
pub proof fn entries_are_counted(e: Seq<(u64, Seq<u8>)>, blk: u64, data: Seq<u8>)
    ensures
        super::total(Seq::empty()) == 0,
        super::total(e.push((blk, data))) == super::total(e) + data.len(),
    decreases e.len(),
{
    let more = e.push((blk, data));
    if e.len() == 0 {
        assert(more.drop_first() =~= Seq::empty());
    } else {
        entries_are_counted(e.drop_first(), blk, data);
        assert(more.drop_first() =~= e.drop_first().push((blk, data)));
    }
}

/// A read touches the blocks from that of its first byte to that of its last,
/// one after the other, each once; accesses to cached blocks are the hits.
pub proof fn blocks_are_touched_in_order(
    e: Seq<(u64, Seq<u8>)>,
    disk: Seq<u8>,
    budget: int,
    first: int,
    n: int,
    offset: int,
    len: int,
)
    requires
        0 <= n,
        0 <= offset,
        0 < len,
    ensures
        super::blocks_touched(offset, 0) == 0,
        ({
            let k = super::blocks_touched(offset, len);
            let b = offset / 4096;
            b * 4096 <= offset < (b + 1) * 4096 && (b + k - 1) * 4096 < offset + len <= (b + k)
                * 4096
        }),
        super::accessed_all(e, disk, budget, first, 0) == e,
        super::accessed_all(e, disk, budget, first, n + 1) == super::accessed(
            super::accessed_all(e, disk, budget, first, n),
            disk,
            budget,
            first + n,
        ),
        super::hits_among(e, disk, budget, first, 0) == 0,
        0 <= first + n <= u64::MAX ==> super::hits_among(e, disk, budget, first, n + 1)
            == super::hits_among(e, disk, budget, first, n) + if holds(
            super::accessed_all(e, disk, budget, first, n),
            (first + n) as u64,
        ) {
            1int
        } else {
            0int
        },
{
    assert(BLOCK == 4096);
    place_is(super::accessed_all(e, disk, budget, first, n), (first + n) as u64);
}

/// The blocks of a disk are its bytes by 4096, the last with what is left.
pub proof fn blocks_cut_the_disk(size: int, i: int)
    requires
        0 <= i < size,
    ensures
        ({
            let blk = i / 4096;
            &&& volume::block_start(blk) <= i < volume::block_start(blk) + volume::block_len_of(
                size,
                blk,
            )
            &&& volume::block_start(blk) == blk * 4096
            &&& volume::block_len_of(size, blk) == if blk * 4096 + 4096 <= size {
                4096
            } else {
                size - blk * 4096
            }
        }),
{
    assert(BLOCK == 4096);
}

/// Every access is counted once, as a hit or as a miss, until a counter has run
/// through all its numbers.
pub proof fn every_access_is_counted(h: int, n: int, before: (u64, u64), after: (u64, u64))
    requires
        0 <= h <= n,
        super::counts(h, n, before, after),
    ensures
        before.0 + h < 0x1_0000_0000_0000_0000 ==> after.0 - before.0 == h,
        before.1 + (n - h) < 0x1_0000_0000_0000_0000 ==> after.1 - before.1 == n - h,
{
}

} // verus!
