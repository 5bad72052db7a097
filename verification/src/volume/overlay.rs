//! Where a client's overwritten blocks live.
use std::collections::HashMap;
use vstd::prelude::*;
use crate::wire;

verus! {

broadcast use vstd::std_specs::hash::group_hash_axioms;

/// COW block size in bytes. The overlay stores data in blocks of this size
/// (the disk's tail block may be shorter).
pub const BLOCK: u64 = 4096;

/// Per-client store of overwritten blocks. Volatile: `reset` discards
/// everything.
pub trait OverlayStore: Send + Sync {
    /// The overwritten blocks, by block number.
    open spec fn blocks(&self) -> Map<u64, Seq<u8>> {
        arbitrary()
    }

    /// If block `blk` exists, fill `buf` with its data and return true.
    /// `buf.len()` must equal the stored block's length.
    fn read_block(&self, blk: u64, buf: &mut [u8]) -> (hit: bool)
        requires
            self.blocks().contains_key(blk) ==> old(buf)@.len() == self.blocks()[blk].len(),
        ensures
            hit == self.blocks().contains_key(blk),
            final(buf)@ == if hit { self.blocks()[blk] } else { old(buf)@ },
    ;

    /// Store/overwrite block `blk` with exactly `data`.
    fn write_block(&mut self, blk: u64, data: &[u8])
        ensures
            final(self).blocks() == old(self).blocks().insert(blk, data@),
    ;

    /// Discard all overlay contents (volatile "reboot").
    fn reset(&mut self)
        ensures
            final(self).blocks() == Map::<u64, Seq<u8>>::empty(),
    ;
}

/// RAM implementation of `OverlayStore` backed by a `HashMap`.
pub struct RamOverlay {
    blocks: HashMap<u64, Vec<u8>>,
}

impl RamOverlay {
    /// An overlay that holds no block.
    pub fn new() -> (ov: Self)
        ensures
            ov.blocks() == Map::<u64, Seq<u8>>::empty(),
    {
        let ov = RamOverlay { blocks: HashMap::new() };
        assert(ov.blocks() =~= Map::<u64, Seq<u8>>::empty());
        ov
    }
}

impl OverlayStore for RamOverlay {
    closed spec fn blocks(&self) -> Map<u64, Seq<u8>> {
        self.blocks@.map_values(|v: Vec<u8>| v@)
    }

    fn read_block(&self, blk: u64, buf: &mut [u8]) -> (hit: bool) {
        match self.blocks.get(&blk) {
            Some(data) => {
                wire::copy_into(buf, 0, data.as_slice());
                assert(buf@ =~= data@);
                true
            },
            None => false,
        }
    }

    fn write_block(&mut self, blk: u64, data: &[u8]) {
        self.blocks.insert(blk, wire::sub_vec(data, 0, data.len()));
        assert(data@.subrange(0, data@.len() as int) =~= data@);
        assert(self.blocks() =~= old(self).blocks().insert(blk, data@));
    }

    fn reset(&mut self) {
        self.blocks.clear();
        assert(self.blocks() =~= Map::<u64, Seq<u8>>::empty());
    }
}

impl<T: OverlayStore + ?Sized> OverlayStore for Box<T> {
    open spec fn blocks(&self) -> Map<u64, Seq<u8>> {
        (**self).blocks()
    }

    fn read_block(&self, blk: u64, buf: &mut [u8]) -> (hit: bool) {
        (**self).read_block(blk, buf)
    }

    fn write_block(&mut self, blk: u64, data: &[u8]) {
        (**self).write_block(blk, data)
    }

    fn reset(&mut self) {
        (**self).reset()
    }
}

} // verus!
