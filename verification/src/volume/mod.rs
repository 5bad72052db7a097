//! A client's virtual disk.
pub mod overlay;

pub use overlay::{OverlayStore, RamOverlay, BLOCK};

use vstd::prelude::*;
use crate::storage::{BackingStore, StorageError};
use crate::wire;

verus! {

/// The first byte of block `blk`.
pub open spec fn block_start(blk: int) -> int {
    blk * BLOCK
}

/// Length of block `blk` of a disk of `size` bytes: `BLOCK`, or less for the
/// tail block.
pub open spec fn block_len_of(size: int, blk: int) -> int {
    if size - block_start(blk) < BLOCK {
        size - block_start(blk)
    } else {
        BLOCK as int
    }
}

/// Every overlay block lies on a disk of `size` bytes and has that block's
/// length.
pub open spec fn fits(blocks: Map<u64, Seq<u8>>, size: int) -> bool {
    forall|blk: u64| #[trigger]
        blocks.contains_key(blk) ==> {
            &&& block_start(blk as int) < size
            &&& blocks[blk].len() == block_len_of(size, blk as int)
        }
}

/// The disk a client sees: overlay blocks where there are any, the master
/// elsewhere.
pub open spec fn overlaid(master: Seq<u8>, blocks: Map<u64, Seq<u8>>) -> Seq<u8> {
    Seq::new(
        master.len(),
        |i: int|
            if blocks.contains_key((i / BLOCK as int) as u64) {
                blocks[(i / BLOCK as int) as u64][i % BLOCK as int]
            } else {
                master[i]
            },
    )
}

/// Every block that `from..to` touches is in the overlay.
pub open spec fn covered(blocks: Map<u64, Seq<u8>>, from: int, to: int) -> bool {
    forall|i: int| from <= i < to ==> #[trigger] blocks.contains_key((i / BLOCK as int) as u64)
}

/// `from..to` touches block `blk` of a disk of `size` bytes, but does not take in
/// all of it.
pub open spec fn cuts(from: int, to: int, size: int, blk: int) -> bool {
    let start = block_start(blk);
    let end = start + block_len_of(size, blk);
    &&& from < end
    &&& start < to
    &&& from > start || end > to
}

/// The error for a range that leaves a disk of `size` bytes.
pub open spec fn bounds_error(offset: u64, len: usize, size: int) -> StorageError {
    if offset + len > u64::MAX {
        StorageError::RangeOverflow
    } else {
        StorageError::OutOfRange { end: (offset + len) as u64, size: size as u64 }
    }
}

/// `after` is `before` with `data` stored at `offset`, and the overlay holds
/// all of it.
pub open spec fn written(
    before: Seq<u8>,
    offset: int,
    data: Seq<u8>,
    after: Seq<u8>,
    blocks: Map<u64, Seq<u8>>,
) -> bool {
    &&& offset + data.len() <= before.len()
    &&& after == wire::splice(before, offset, data)
    &&& covered(blocks, offset, offset + data.len())
}

/// A client's virtual disk: a read-only master plus a volatile COW overlay.
/// Reads consult the overlay then the master. Writes always land in the
/// overlay; the master is never modified.
pub struct Volume<M, O> {
    master: M,
    overlay: O,
}

impl<M: BackingStore, O: OverlayStore> Volume<M, O> {
    /// The bytes of the master image.
    pub closed spec fn master_content(&self) -> Seq<u8> {
        self.master.content()
    }

    /// Byte `i` of the master can be read.
    pub closed spec fn master_readable(&self, i: int) -> bool {
        self.master.readable(i)
    }

    /// Byte `i` can be read: from the overlay, or else from the master.
    pub open spec fn readable(&self, i: int) -> bool {
        self.blocks().contains_key((i / BLOCK as int) as u64) || self.master_readable(i)
    }

    /// Every byte of `from..to` can be read.
    pub open spec fn span_readable(&self, from: int, to: int) -> bool {
        forall|i: int| from <= i < to ==> #[trigger] self.readable(i)
    }

    /// Every byte can be read of the blocks that overwriting `from..to` leaves
    /// a part of.
    pub open spec fn rest_readable(&self, from: int, to: int) -> bool {
        forall|i: int|
            0 <= i < self.content().len() && cuts(
                from,
                to,
                self.content().len() as int,
                i / BLOCK as int,
            ) ==> #[trigger] self.readable(i)
    }

    /// The overwritten blocks.
    pub closed spec fn blocks(&self) -> Map<u64, Seq<u8>> {
        self.overlay.blocks()
    }

    /// The bytes of the disk as the client sees it.
    pub open spec fn content(&self) -> Seq<u8> {
        overlaid(self.master_content(), self.blocks())
    }

    /// The overlay's blocks belong to this disk.
    pub open spec fn wf(&self) -> bool {
        &&& fits(self.blocks(), self.master_content().len() as int)
        &&& self.master_content().len() <= u64::MAX
    }

    pub fn new(master: M, overlay: O) -> (v: Self)
        requires
            fits(overlay.blocks(), master.content().len() as int),
        ensures
            v.wf(),
            v.master_content() == master.content(),
            v.blocks() == overlay.blocks(),
            forall|i: int| #[trigger] v.master_readable(i) == master.readable(i),
    {
        let _size: u64 = master.size_bytes();
        Volume { master, overlay }
    }

    /// Virtual size of the volume = the master's size (the overlay never grows it).
    pub fn size_bytes(&self) -> (n: u64)
        ensures
            n == self.content().len(),
            n == self.master_content().len(),
    {
        self.master.size_bytes()
    }

    /// Actual length of block `blk`, accounting for a short tail block.
    fn block_len(&self, blk: u64) -> (n: usize)
        requires
            block_start(blk as int) < self.master_content().len(),
        ensures
            n == block_len_of(self.master_content().len() as int, blk as int),
            0 < n <= BLOCK,
    {
        let size: u64 = self.size_bytes();
        let start: u64 = blk * BLOCK;
        let left: u64 = size - start;
        if left < BLOCK {
            left as usize
        } else {
            BLOCK as usize
        }
    }

    /// Reject ranges that overflow or run past the end of the volume.
    fn check_bounds(&self, offset: u64, len: usize) -> (r: Result<(), StorageError>)
        ensures
            r is Ok <==> offset + len <= self.master_content().len(),
            r matches Err(e) ==> e == bounds_error(offset, len, self.master_content().len() as int),
    {
        let size: u64 = self.size_bytes();
        if len as u64 > u64::MAX - offset {
            return Err(StorageError::RangeOverflow);
        }
        let end: u64 = offset + len as u64;
        if end > size {
            return Err(StorageError::OutOfRange { end, size });
        }
        Ok(())
    }

    /// Read exactly `buf.len()` bytes starting at byte `offset`. Fails on a
    /// range that leaves the volume, and otherwise only where the master
    /// itself fails, on a byte that the overlay does not hold.
    pub fn read_at(&self, offset: u64, buf: &mut [u8]) -> (r: Result<(), StorageError>)
        requires
            self.wf(),
        ensures
            final(buf)@.len() == old(buf)@.len(),
            offset + old(buf)@.len() > self.content().len() ==> r == Err::<(), StorageError>(
                bounds_error(offset, old(buf)@.len() as usize, self.content().len() as int),
            ),
            r is Ok ==> {
                &&& offset + old(buf)@.len() <= self.content().len()
                &&& final(buf)@ == self.content().subrange(
                    offset as int,
                    offset + old(buf)@.len(),
                )
            },
            offset + old(buf)@.len() <= self.content().len() && self.span_readable(
                offset as int,
                offset + old(buf)@.len(),
            ) ==> r is Ok,
    {
        let n: usize = buf.len();
        match self.check_bounds(offset, n) {
            Ok(_) => {},
            Err(e) => return Err(e),
        }
        let mut pos: usize = 0;
        while pos < n
            invariant
                self.wf(),
                pos <= n,
                buf@.len() == n,
                n == old(buf)@.len(),
                offset + n <= self.content().len(),
                forall|i: int| 0 <= i < pos ==> buf@[i] == self.content()[offset + i],
            decreases n - pos,
        {
            let size: u64 = self.size_bytes();
            let at: u64 = offset + pos as u64;
            let blk: u64 = at / BLOCK;
            let within: usize = (at % BLOCK) as usize;
            let blen: usize = self.block_len(blk);
            let left: usize = n - pos;
            let take: usize = if blen - within < left { blen - within } else { left };
            let ghost before = buf@;
            let mut block: Vec<u8> = wire::zeroed(blen);
            if self.overlay.read_block(blk, block.as_mut_slice()) {
                wire::copy_into(buf, pos, vstd::slice::slice_subrange(block.as_slice(), within, within + take));
                assert forall|i: int| 0 <= i < pos + take implies buf@[i] == self.content()[offset
                    + i] by {
                    if pos <= i {
                        assert((offset + i) / (BLOCK as int) == blk);
                        assert((offset + i) % (BLOCK as int) == within + (i - pos));
                    }
                }
            } else {
                let (_head, rest) = buf.split_at_mut(pos);
                let (seg, _tail) = rest.split_at_mut(take);
                let r = self.master.read_at(at, seg);
                if r.is_err() {
                    proof {
                        if self.span_readable(offset as int, offset + n) {
                            assert forall|i: int| at <= i < at + take implies #[trigger]
                                self.master.readable(i) by {
                                assert(i / (BLOCK as int) == blk);
                                assert(self.readable(i));
                            }
                        }
                    }
                    return r;
                }
                assert forall|i: int| 0 <= i < pos + take implies buf@[i] == self.content()[offset
                    + i] by {
                    if pos <= i {
                        assert((offset + i) / (BLOCK as int) == blk);
                        assert(buf@[i] == self.master.content().subrange(at as int, at + take)[i
                            - pos]);
                    }
                }
            }
            pos += take;
        }
        assert(buf@ =~= self.content().subrange(offset as int, offset + n));
        Ok(())
    }

    /// Write `data` starting at byte `offset`: into the overlay, never into
    /// the master. Fails on a range that leaves the volume; otherwise only
    /// where a block is overwritten in part, is not in the overlay yet, and
    /// the master fails to give the rest of it. A failed write may have
    /// stored a leading part of `data`, and nothing else.
    #[verifier::rlimit(50)]
    pub fn write_at(&mut self, offset: u64, data: &[u8]) -> (r: Result<(), StorageError>)
        requires
            old(self).wf(),
        ensures
            final(self).wf(),
            final(self).master_content() == old(self).master_content(),
            offset + data@.len() > old(self).content().len() ==> {
                &&& r == Err::<(), StorageError>(
                    bounds_error(offset, data@.len() as usize, old(self).content().len() as int),
                )
                &&& final(self).blocks() == old(self).blocks()
            },
            r is Ok ==> written(
                old(self).content(),
                offset as int,
                data@,
                final(self).content(),
                final(self).blocks(),
            ),
            r is Err ==> exists|k: int|
                0 <= k <= data@.len() && final(self).content() == #[trigger] wire::splice(
                    old(self).content(),
                    offset as int,
                    data@.take(k),
                ),
            forall|blk: u64| #[trigger] old(self).blocks().contains_key(blk)
                ==> final(self).blocks().contains_key(blk),
            forall|i: int| #[trigger]
                final(self).master_readable(i) == old(self).master_readable(i),
            offset + data@.len() <= old(self).content().len() && old(self).rest_readable(
                offset as int,
                offset + data@.len(),
            ) ==> r is Ok,
    {
        let n: usize = data.len();
        match self.check_bounds(offset, n) {
            Ok(_) => {},
            Err(e) => {
                assert(self.content() =~= wire::splice(
                    old(self).content(),
                    offset as int,
                    data@.take(0),
                ));
                return Err(e);
            },
        }
        let mut pos: usize = 0;
        assert(data@.take(0) =~= Seq::<u8>::empty());
        assert(self.content() =~= wire::splice(old(self).content(), offset as int, data@.take(0)));
        while pos < n
            invariant
                self.wf(),
                self.master_content() == old(self).master_content(),
                pos <= n,
                n == data@.len(),
                offset + n <= self.master_content().len(),
                self.content() == wire::splice(old(self).content(), offset as int, data@.take(pos as int)),
                covered(self.blocks(), offset as int, offset + pos),
                forall|blk: u64| #[trigger] old(self).blocks().contains_key(blk)
                    ==> self.blocks().contains_key(blk),
                self.master == old(self).master,
                pos == 0 || pos == n || (offset + pos) % (BLOCK as int) == 0,
            decreases n - pos,
        {
            let size: u64 = self.size_bytes();
            let at: u64 = offset + pos as u64;
            let blk: u64 = at / BLOCK;
            let within: usize = (at % BLOCK) as usize;
            let blen: usize = self.block_len(blk);
            let left: usize = n - pos;
            let take: usize = if blen - within < left { blen - within } else { left };
            let mut block: Vec<u8> = wire::zeroed(blen);
            if take < blen && !self.overlay.read_block(blk, block.as_mut_slice()) {
                let r = self.master.read_at(blk * BLOCK, block.as_mut_slice());
                if r.is_err() {
                    proof {
                        let size = old(self).content().len() as int;
                        assert(!old(self).blocks().contains_key(blk));
                        assert(cuts(offset as int, offset + n, size, blk as int));
                        if old(self).rest_readable(offset as int, offset + n) {
                            assert forall|i: int|
                                blk * BLOCK <= i < blk * BLOCK + blen implies #[trigger] self.master.readable(
                                i,
                            ) by {
                                assert(i / (BLOCK as int) == blk);
                                assert(old(self).readable(i));
                                assert(self.master_readable(i));
                            }
                        }
                    }
                    return r;
                }
            }
            let ghost base = block@;
            let ghost before = self.content();
            assert(take < blen ==> forall|j: int| 0 <= j < blen ==> base[j] == before[blk * BLOCK + j]) by {
                if take < blen {
                    assert forall|j: int| 0 <= j < blen implies base[j] == before[blk * BLOCK + j] by {
                        assert((blk * BLOCK + j) / (BLOCK as int) == blk);
                        assert((blk * BLOCK + j) % (BLOCK as int) == j);
                        if !self.blocks().contains_key(blk) {
                            assert(base[j] == self.master.content().subrange(blk * BLOCK, blk * BLOCK + blen)[j]);
                        }
                    }
                }
            }
            wire::copy_into(block.as_mut_slice(), within, vstd::slice::slice_subrange(data, pos, pos + take));
            let ghost blocks_before = self.blocks();
            self.overlay.write_block(blk, block.as_slice());
            proof {
                let full = wire::splice(old(self).content(), offset as int, data@.take(pos + take));
                assert forall|i: int| 0 <= i < full.len() implies self.content()[i] == full[i] by {
                    if i / (BLOCK as int) == blk {
                        let j = i % (BLOCK as int);
                        assert(i == blk * BLOCK + j);
                        assert(j < blen);
                        assert(self.content()[i] == block@[j]);
                    } else {
                        assert(self.content()[i] == before[i]);
                    }
                }
                assert(self.content() =~= full);
                assert forall|i: int| offset <= i < offset + pos + take implies
                    #[trigger] self.blocks().contains_key((i / (BLOCK as int)) as u64) by {
                    if i >= offset + pos {
                        assert(i / (BLOCK as int) == blk);
                    } else {
                        assert(blocks_before.contains_key((i / (BLOCK as int)) as u64));
                    }
                }
            }
            pos += take;
        }
        assert(data@.take(n as int) =~= data@);
        Ok(())
    }
}

/// What a read gives back of a write: the bytes written, and around them the
/// bytes that were there before.
pub proof fn read_after_write(
    before: Seq<u8>,
    offset: int,
    data: Seq<u8>,
    after: Seq<u8>,
    blocks: Map<u64, Seq<u8>>,
)
    requires
        0 <= offset,
        written(before, offset, data, after, blocks),
    ensures
        after.len() == before.len(),
        after.subrange(offset, offset + data.len()) == data,
        after.subrange(0, offset) == before.subrange(0, offset),
        after.subrange(offset + data.len(), after.len() as int) == before.subrange(
            offset + data.len(),
            before.len() as int,
        ),
        covered(blocks, offset, offset + data.len()),
{
    assert(after.subrange(offset, offset + data.len()) =~= data);
    assert(after.subrange(0, offset) =~= before.subrange(0, offset));
    assert(after.subrange(offset + data.len(), after.len() as int) =~= before.subrange(
        offset + data.len(),
        before.len() as int,
    ));
}

/// With nothing overwritten the client sees the master itself: a fresh volume
/// does, and so does one whose overlay was reset.
pub proof fn empty_overlay_shows_master(master: Seq<u8>)
    ensures
        overlaid(master, Map::<u64, Seq<u8>>::empty()) == master,
{
    assert(overlaid(master, Map::<u64, Seq<u8>>::empty()) =~= master);
}

/// Byte `j` of a block of 4096 bytes is the overlay's where the overlay has the
/// block, and the master's where it has not.
pub proof fn overlay_blocks_are_seen(
    master: Seq<u8>,
    blocks: Map<u64, Seq<u8>>,
    blk: u64,
    j: int,
)
    requires
        0 <= j < 4096,
        blk * 4096 + j < master.len(),
    ensures
        overlaid(master, blocks).len() == master.len(),
        blocks.contains_key(blk) ==> overlaid(master, blocks)[blk * 4096 + j] == blocks[blk][j],
        !blocks.contains_key(blk) ==> overlaid(master, blocks)[blk * 4096 + j] == master[blk * 4096
            + j],
{
    let i = blk * 4096 + j;
    assert(i / 4096 == blk && i % 4096 == j);
}

/// What an access that leaves the disk is told: where it would have ended and how
/// large the disk is, or, where no number says where, that it overflows.
pub proof fn bounds_errors_say_where(offset: u64, len: usize, size: u64)
    ensures
        offset + len < 0x1_0000_0000_0000_0000 ==> (bounds_error(offset, len, size as int) matches
            StorageError::OutOfRange { end, size: s } && end == offset + len && s == size),
        offset + len >= 0x1_0000_0000_0000_0000 ==> bounds_error(offset, len, size as int)
            is RangeOverflow,
{
}

} // verus!
