//! Copy-on-write volumes and the block cache.
use std::sync::Arc;
use xboot_core::cache::{CachedStore, SharedCache};
use xboot_core::manager::ArcStore;
use xboot_core::storage::{BackingStore, StorageError};
use xboot_core::volume::{OverlayStore, RamOverlay, Volume, BLOCK};

/// The bytes are the disk. Reads in `bad` fail.
struct Mem {
    bytes: Vec<u8>,
    bad: Option<u64>,
}

impl BackingStore for Mem {
    fn size_bytes(&self) -> u64 {
        self.bytes.len() as u64
    }
    fn read_at(&self, offset: u64, buf: &mut [u8]) -> Result<(), StorageError> {
        if let Some(at) = self.bad {
            if offset <= at && at < offset + buf.len() as u64 {
                return Err(StorageError::Io("bad sector".to_string()));
            }
        }
        let s = offset as usize;
        buf.copy_from_slice(&self.bytes[s..s + buf.len()]);
        Ok(())
    }
}

fn mem(bytes: Vec<u8>) -> Mem {
    Mem { bytes, bad: None }
}

fn vol(master_bytes: Vec<u8>) -> Volume<Mem, RamOverlay> {
    Volume::new(mem(master_bytes), RamOverlay::new())
}

#[test]
fn size_is_master_size() {
    let v = vol(vec![0u8; 10_000]);
    assert_eq!(v.size_bytes(), 10_000);
}

#[test]
fn reads_fall_through_to_the_master() {
    let v = vol(ramp(10_000));
    let mut buf = [0u8; 4];
    v.read_at(4094, &mut buf).unwrap();
    assert_eq!(buf, [254, 255, 0, 1]);
}

#[test]
fn writes_read_back_and_leave_the_rest() {
    let mut v = vol(ramp(10_000));
    let data: Vec<u8> = vec![0xEE; 5000];
    v.write_at(4000, &data).unwrap();
    let mut all = vec![0u8; 10_000];
    v.read_at(0, &mut all).unwrap();
    let mut want = ramp(10_000);
    want[4000..9000].copy_from_slice(&data);
    assert!(all == want);
}

#[test]
fn a_write_may_end_with_the_disk() {
    let mut v = vol(ramp(10_000));
    v.write_at(9_990, &[7u8; 10]).unwrap();
    let mut buf = [0u8; 12];
    v.read_at(9_988, &mut buf).unwrap();
    assert_eq!(&buf[2..], &[7u8; 10]);
    assert_eq!(buf[0], (9_988 % 256) as u8);
}

#[test]
fn ranges_outside_the_volume_are_refused() {
    let mut v = vol(vec![0u8; 100]);
    let mut buf = [0u8; 2];
    assert!(v.read_at(99, &mut buf).is_err());
    assert!(v.write_at(99, &buf).is_err());
    assert!(v.read_at(u64::MAX, &mut buf).is_err());
    assert!(v.write_at(u64::MAX, &buf).is_err());
    v.read_at(98, &mut buf).unwrap();
}

#[test]
fn a_partial_write_needs_the_master_and_a_whole_block_does_not() {
    let bad = Mem { bytes: ramp(3 * BLOCK as usize), bad: Some(BLOCK) };
    let mut v = Volume::new(bad, RamOverlay::new());
    assert!(v.write_at(BLOCK + 1, &[1]).is_err());
    let whole = vec![9u8; BLOCK as usize];
    v.write_at(BLOCK, &whole).unwrap();
    v.write_at(BLOCK + 1, &[1]).unwrap();
    let mut buf = [0u8; 3];
    v.read_at(BLOCK, &mut buf).unwrap();
    assert_eq!(buf, [9, 1, 9]);
}

#[test]
fn volumes_of_one_overlay_type_may_be_boxed() {
    let master: Box<dyn BackingStore> = Box::new(mem(vec![1, 2, 3]));
    let overlay: Box<dyn OverlayStore> = Box::new(RamOverlay::new());
    let mut v = Volume::new(master, overlay);
    v.write_at(1, &[9]).unwrap();
    let mut buf = [0u8; 3];
    v.read_at(0, &mut buf).unwrap();
    assert_eq!(buf, [1, 9, 3]);
}

// --- Overlay ---

#[test]
fn miss_returns_false_and_leaves_buf() {
    let ov = RamOverlay::new();
    let mut buf = [9u8; 4];
    assert!(!ov.read_block(0, &mut buf));
    assert_eq!(buf, [9, 9, 9, 9]);
}

#[test]
fn write_then_read_roundtrips() {
    let mut ov = RamOverlay::new();
    ov.write_block(7, &[1, 2, 3, 4]);
    let mut buf = [0u8; 4];
    assert!(ov.read_block(7, &mut buf));
    assert_eq!(buf, [1, 2, 3, 4]);
}

#[test]
fn write_overwrites_existing() {
    let mut ov = RamOverlay::new();
    ov.write_block(7, &[1, 2, 3, 4]);
    ov.write_block(7, &[5, 6, 7, 8]);
    let mut buf = [0u8; 4];
    assert!(ov.read_block(7, &mut buf));
    assert_eq!(buf, [5, 6, 7, 8]);
}

#[test]
fn reset_clears_all() {
    let mut ov = RamOverlay::new();
    ov.write_block(0, &[1; 4]);
    ov.write_block(1, &[2; 4]);
    ov.reset();
    let mut buf = [0u8; 4];
    assert!(!ov.read_block(0, &mut buf));
    assert!(!ov.read_block(1, &mut buf));
}

// --- Cache ---

/// 0,1,2,...,255,0,1,... over `n` bytes.
fn ramp(n: usize) -> Vec<u8> {
    (0..n).map(|i| (i % 256) as u8).collect()
}

fn cached(n: usize, budget: u64) -> CachedStore<Mem> {
    CachedStore::new(mem(ramp(n)), budget)
}

#[test]
fn size_passes_through_to_master() {
    let c = cached(10_000, 1 << 20);
    assert_eq!(c.size_bytes(), 10_000);
}

#[test]
fn cold_read_returns_master_bytes_and_counts_miss() {
    let mut c = cached(10_000, 1 << 20);
    let mut buf = [0u8; 5];
    c.read_at(100, &mut buf).unwrap();
    assert_eq!(buf, [100, 101, 102, 103, 104]);
    assert_eq!(c.stats().misses, 1); // single block touched
}

#[test]
fn read_is_byte_correct_across_boundaries_and_tail() {
    // 3 full blocks + a short tail.
    let n = 3 * BLOCK as usize + 123;
    let master = ramp(n);
    let mut c = CachedStore::new(mem(master.clone()), 1 << 20);
    // Offsets/lengths that cross block boundaries and land in the tail.
    let cases = [
        (0usize, 10usize),
        (BLOCK as usize - 4, 8),
        (BLOCK as usize - 1, 2 * BLOCK as usize + 5),
        (3 * BLOCK as usize, 123),
        (3 * BLOCK as usize + 100, 23),
    ];
    for (off, len) in cases {
        let mut got = vec![0u8; len];
        c.read_at(off as u64, &mut got).unwrap();
        assert_eq!(got, master[off..off + len], "off={off} len={len}");
    }
}

#[test]
fn warm_reads_hit() {
    let mut c = cached(10_000, 1 << 20);
    let mut buf = [0u8; 5];
    c.read_at(100, &mut buf).unwrap();
    c.read_at(200, &mut buf).unwrap();
    assert_eq!(buf, [200, 201, 202, 203, 204]);
    let s = c.stats();
    assert_eq!((s.hits, s.misses, s.blocks, s.bytes), (1, 1, 1, 4096));
}

#[test]
fn the_least_recently_used_block_leaves() {
    // Room for two blocks.
    let mut c = cached(5 * BLOCK as usize, 2 * BLOCK);
    let mut b = [0u8; 1];
    c.read_at(0, &mut b).unwrap(); // 0
    c.read_at(BLOCK, &mut b).unwrap(); // 0 1
    c.read_at(0, &mut b).unwrap(); // 1 0
    c.read_at(2 * BLOCK, &mut b).unwrap(); // 0 2
    assert_eq!((c.stats().hits, c.stats().misses), (1, 3));
    c.read_at(0, &mut b).unwrap(); // still there
    assert_eq!((c.stats().hits, c.stats().misses), (2, 3));
    c.read_at(BLOCK, &mut b).unwrap(); // gone
    assert_eq!((c.stats().hits, c.stats().misses), (2, 4));
    assert_eq!(c.stats().bytes, 2 * BLOCK);
}

#[test]
fn a_budget_below_a_block_caches_nothing() {
    let mut c = cached(10_000, 100);
    let mut b = [0u8; 1];
    c.read_at(5, &mut b).unwrap();
    c.read_at(5, &mut b).unwrap();
    assert_eq!(b, [5]);
    let s = c.stats();
    assert_eq!((s.hits, s.misses, s.blocks, s.bytes), (0, 2, 0, 0));
}

#[test]
fn a_failing_master_fails_the_read() {
    let bad = Mem { bytes: ramp(10_000), bad: Some(5000) };
    let mut c = CachedStore::new(bad, 1 << 20);
    let mut b = [0u8; 10];
    c.read_at(0, &mut b).unwrap();
    assert_eq!(c.read_at(4100, &mut b).unwrap_err().message(), "bad sector");
}

/// A shared cache is the master of many volumes, and holds a hot block once.
#[test]
fn a_shared_cache_is_a_master() {
    let shared = Arc::new(SharedCache::new(mem(ramp(10_000)), 1 << 20));
    assert_eq!(shared.size_bytes(), 10_000);
    let mut buf = [0u8; 4];
    for _ in 0..3 {
        let v = Volume::new(ArcStore(shared.clone()), RamOverlay::new());
        v.read_at(100, &mut buf).unwrap();
        assert_eq!(buf, [100, 101, 102, 103]);
    }
    let s = shared.stats();
    assert_eq!((s.hits, s.misses, s.blocks, s.bytes), (2, 1, 1, 4096));
    let e = shared.read_at(9_999, &mut buf).unwrap_err();
    assert_eq!(e.message(), "read past end of image: 10003 > 10000");
    let store: Arc<dyn BackingStore> = shared;
    store.read_at(9_996, &mut buf).unwrap();
    assert_eq!(buf, [12, 13, 14, 15]);
}
