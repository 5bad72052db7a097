//! Hyper-V virtual hard disks (VHDX).
pub mod crc32c;
pub mod laws;
pub mod metadata;
pub mod structs;

use vstd::prelude::*;
use crate::storage::blockmap;
use crate::storage::blockmap::{read_units, Unit};
use crate::storage;
use crate::storage::raw;
use crate::storage::vhd::dynamic::read_part;
use crate::storage::{BackingStore, StorageError};
use crate::wire;
use metadata::{parse_metadata, VhdxMetadata};
use structs::{parse_best_header, parse_region_table, Regions, HEADER_LEN, REGION_TABLE_LEN};

verus! {

pub const HEADER1_OFFSET: u64 = 0x1_0000;

pub const HEADER2_OFFSET: u64 = 0x2_0000;

pub const REGION_TABLE_OFFSET: u64 = 0x3_0000;

/// BAT state of a block that is stored in full.
pub const FULLY_PRESENT: u64 = 6;

/// How a VHDX lays out its disk: block size, payload blocks per sector-bitmap
/// entry of the BAT, virtual size, and the BAT.
#[verifier::ext_equal]
pub struct VhdxLayout {
    pub block_size: u64,
    pub chunk_ratio: u64,
    pub virtual_size: u64,
    pub bat: Seq<u64>,
}

impl VhdxLayout {
    /// The BAT entry of payload block `block`: after every `chunk_ratio`
    /// payload entries one sector-bitmap entry is interleaved.
    pub open spec fn entry_index(&self, block: int) -> int {
        block + block / (self.chunk_ratio as int)
    }

    /// The BAT has an entry for `block`.
    pub open spec fn lists(&self, block: int) -> bool {
        self.entry_index(block) < self.bat.len()
    }

    /// Where `block` is stored, if it is: a fully present block's entry holds
    /// its offset in whole MiB.
    pub open spec fn block_at(&self, block: int) -> Option<int> {
        let entry = self.bat[self.entry_index(block)];
        if entry % 8 == FULLY_PRESENT {
            Some(entry as int / 0x10_0000 * 0x10_0000)
        } else {
            None
        }
    }

    /// The BAT has an entry for `block`, and the block ends within 64 bits.
    pub open spec fn reaches(&self, block: int) -> bool {
        self.lists(block) && (self.block_at(block) matches Some(at) ==> at + self.block_size
            <= u64::MAX)
    }

    /// Why `block` is out of reach, if it is.
    pub open spec fn refusal(&self, block: int) -> Option<StorageError> {
        if !self.lists(block) {
            Some(StorageError::VhdxBatShort)
        } else if !self.reaches(block) {
            Some(StorageError::RangeOverflow)
        } else {
            None
        }
    }

    /// Byte `i` of the disk: zero where its block is not stored.
    pub open spec fn byte(&self, img: Seq<u8>, i: int) -> u8 {
        match self.block_at(i / (self.block_size as int)) {
            Some(at) => img[at + i % (self.block_size as int)],
            None => 0,
        }
    }

    /// The disk.
    pub open spec fn disk(&self, img: Seq<u8>) -> Seq<u8> {
        Seq::new(self.virtual_size as nat, |i: int| self.byte(img, i))
    }
}

/// The BAT with `n` entries at `at`.
pub open spec fn bat_at(img: Seq<u8>, at: int, n: int) -> Seq<u64> {
    Seq::new(n as nat, |i: int| wire::le64_at(img, at + 8 * i))
}

/// Payload blocks per sector-bitmap block: as many as 2^23 sectors hold.
pub open spec fn chunk_ratio(m: VhdxMetadata) -> int {
    0x80_0000 * m.logical_sector_size as int / (m.block_size as int)
}

/// `len` bytes at `at` are within the image; no bytes always are.
pub open spec fn within(img: Seq<u8>, at: int, len: int) -> bool {
    len == 0 || at + len <= img.len()
}

/// The `len` bytes at `at`.
pub open spec fn part_at(img: Seq<u8>, at: int, len: int) -> Seq<u8> {
    if len == 0 {
        Seq::empty()
    } else {
        img.subrange(at, at + len)
    }
}

/// The layout of a VHDX image. `Err(Some(e))`: it is none, for the reason `e`.
/// `Err(None)`: its structures lead outside the image.
pub open spec fn layout_of(img: Seq<u8>) -> Result<VhdxLayout, Option<StorageError>> {
    let h1 = img.subrange(HEADER1_OFFSET as int, HEADER1_OFFSET + HEADER_LEN);
    let h2 = img.subrange(HEADER2_OFFSET as int, HEADER2_OFFSET + HEADER_LEN);
    let rt = img.subrange(REGION_TABLE_OFFSET as int, REGION_TABLE_OFFSET + REGION_TABLE_LEN);
    if !within(img, HEADER2_OFFSET as int, HEADER_LEN as int) {
        Err(None)
    } else {
        match structs::best_header(h1, h2) {
            Err(e) => Err(Some(e)),
            Ok(_) => if !within(img, REGION_TABLE_OFFSET as int, REGION_TABLE_LEN as int) {
                Err(None)
            } else {
                match structs::regions_of(rt) {
                    Err(e) => Err(Some(e)),
                    Ok(regions) => layout_in(img, regions),
                }
            },
        }
    }
}

/// The layout that the metadata and BAT in `regions` give.
pub open spec fn layout_in(img: Seq<u8>, regions: Regions) -> Result<
    VhdxLayout,
    Option<StorageError>,
> {
    match (regions.bat, regions.metadata) {
        (Some((bat_off, bat_len)), Some((md_off, md_len))) => if !within(
            img,
            md_off as int,
            md_len as int,
        ) {
            Err(None)
        } else {
            match metadata::metadata_of(part_at(img, md_off as int, md_len as int)) {
                Err(e) => Err(Some(e)),
                Ok(m) => if chunk_ratio(m) == 0 {
                    Err(Some(StorageError::VhdxBlockSize))
                } else if !within(img, bat_off as int, bat_len / 8 * 8) {
                    Err(None)
                } else {
                    Ok(
                        VhdxLayout {
                            block_size: m.block_size,
                            chunk_ratio: chunk_ratio(m) as u64,
                            virtual_size: m.virtual_size,
                            bat: bat_at(img, bat_off as int, bat_len as int / 8),
                        },
                    )
                },
            }
        },
        _ => Err(Some(StorageError::RegionMissing)),
    }
}

/// A standalone VHDX, fixed or dynamic.
pub struct Vhdx<S: BackingStore> {
    image: S,
    block_size: u64,
    chunk_ratio: u64,
    virtual_size: u64,
    bat: Vec<u64>,
}

/// `e` is why `image` is no VHDX, or why it cannot be read as one.
pub open spec fn refuses<S: BackingStore>(image: S, e: StorageError) -> bool {
    ||| e is Unreadable && (!storage::all_readable(&image) || image.content().len() > usize::MAX)
    ||| match layout_of(image.content()) {
        Ok(_) => false,
        Err(Some(reason)) => e == reason,
        Err(None) => e is Unreadable,
    }
}

impl<S: BackingStore> Vhdx<S> {
    #[verifier::type_invariant]
    spec fn inv(self) -> bool {
        self.block_size > 0 && self.chunk_ratio > 0
    }

    /// The image file.
    pub closed spec fn image(&self) -> S {
        self.image
    }

    /// How the disk is laid out in the image.
    pub closed spec fn layout(&self) -> VhdxLayout {
        VhdxLayout {
            block_size: self.block_size,
            chunk_ratio: self.chunk_ratio,
            virtual_size: self.virtual_size,
            bat: self.bat@,
        }
    }

    /// Open a VHDX read-only. Validates the headers and the region table, and
    /// reads the metadata and the BAT.
    pub fn open(image: S) -> (r: Result<Self, StorageError>)
        ensures
            match r {
                Ok(v) => {
                    &&& v.image() == image
                    &&& layout_of(image.content()) == Ok::<VhdxLayout, Option<StorageError>>(
                        v.layout(),
                    )
                },
                Err(e) => refuses(image, e),
            },
    {
        let h1 = match read_part(&image, HEADER1_OFFSET, HEADER_LEN) {
            Ok(h) => h,
            Err(e) => {
                return Err(e);
            },
        };
        let h2 = match read_part(&image, HEADER2_OFFSET, HEADER_LEN) {
            Ok(h) => h,
            Err(e) => {
                return Err(e);
            },
        };
        match parse_best_header(h1.as_slice(), h2.as_slice()) {
            Ok(_) => {},
            Err(e) => {
                return Err(e);
            },
        }
        let rt = match read_part(&image, REGION_TABLE_OFFSET, REGION_TABLE_LEN) {
            Ok(t) => t,
            Err(e) => {
                return Err(e);
            },
        };
        let regions = match parse_region_table(rt.as_slice()) {
            Ok(r) => r,
            Err(e) => {
                return Err(e);
            },
        };
        let (bat_off, bat_len) = match regions.bat {
            Some(r) => r,
            None => {
                return Err(StorageError::RegionMissing);
            },
        };
        let (md_off, md_len) = match regions.metadata {
            Some(r) => r,
            None => {
                return Err(StorageError::RegionMissing);
            },
        };
        let md = match read_region(&image, md_off, md_len) {
            Ok(b) => b,
            Err(e) => {
                return Err(e);
            },
        };
        let m = match parse_metadata(md.as_slice()) {
            Ok(m) => m,
            Err(e) => {
                return Err(e);
            },
        };
        proof {
            metadata_bounds(md@, m);
        }
        let ratio: u64 = 0x80_0000 * m.logical_sector_size / m.block_size;
        if ratio == 0 {
            return Err(StorageError::VhdxBlockSize);
        }
        let bat = match read_bat(&image, bat_off, bat_len / 8) {
            Ok(b) => b,
            Err(e) => {
                return Err(e);
            },
        };
        Ok(
            Vhdx {
                image,
                block_size: m.block_size,
                chunk_ratio: ratio,
                virtual_size: m.virtual_size,
                bat,
            },
        )
    }

    /// Reading byte `i` gives the error `e`: its block is out of reach, or stored
    /// where the byte cannot be read.
    pub open spec fn fails(&self, i: int, e: StorageError) -> bool {
        match self.layout().refusal(i / (self.layout().block_size as int)) {
            Some(reason) => e == reason,
            None => !self.readable(i),
        }
    }

    /// Where payload block `block` is stored.
    fn locate(&self, block: u64) -> (r: Result<Unit, StorageError>)
        ensures
            r matches Ok(Unit::Zero) ==> self.layout().lists(block as int)
                && self.layout().block_at(block as int) is None,
            r matches Ok(Unit::At(at)) ==> {
                &&& self.layout().lists(block as int)
                &&& self.layout().block_at(block as int) == Some(at as int)
                &&& at + self.layout().block_size <= u64::MAX
            },
            r matches Err(e) ==> self.layout().refusal(block as int) == Some(e),
    {
        proof {
            use_type_invariant(self);
        }
        let interleaved: u64 = block / self.chunk_ratio;
        if block >= self.bat.len() as u64 || interleaved >= self.bat.len() as u64 - block {
            return Err(StorageError::VhdxBatShort);
        }
        let entry: u64 = self.bat[(block + interleaved) as usize];
        if entry % 8 != FULLY_PRESENT {
            return Ok(Unit::Zero);
        }
        let at: u64 = entry / 0x10_0000 * 0x10_0000;
        if at > u64::MAX - self.block_size {
            return Err(StorageError::RangeOverflow);
        }
        Ok(Unit::At(at))
    }
}

/// A power of two is not zero.
proof fn power_is_positive(x: int)
    requires
        wire::power_of_two(x),
    ensures
        x > 0,
{
    let k = choose|k: nat| x == #[trigger] vstd::arithmetic::power2::pow2(k);
    vstd::arithmetic::power2::lemma_pow2_pos(k);
}

/// Block and sector sizes are not zero and fit in 32 bits.
pub(crate) proof fn metadata_bounds(region: Seq<u8>, m: VhdxMetadata)
    requires
        metadata::metadata_of(region) == Ok::<VhdxMetadata, StorageError>(m),
    ensures
        0 < m.block_size <= u32::MAX,
        0 < m.logical_sector_size <= u32::MAX,
{
    let count = wire::le16_at(region, 10) as int;
    items_bounds(region, count);
    power_is_positive(m.block_size as int);
    power_is_positive(m.logical_sector_size as int);
}

proof fn items_bounds(region: Seq<u8>, k: int)
    ensures
        metadata::items_in(region, k) matches Ok(items) ==> {
            &&& items.block_size matches Some(b) ==> b <= u32::MAX
            &&& items.logical_sector_size matches Some(b) ==> b <= u32::MAX
        },
    decreases k,
{
    if k > 0 {
        items_bounds(region, k - 1);
    }
}

/// Read a region of the image; one that does not fit in memory addresses is
/// not read at all.
fn read_region<S: BackingStore>(image: &S, at: u64, len: u64) -> (r: Result<Vec<u8>, StorageError>)
    ensures
        match r {
            Ok(part) => within(image.content(), at as int, len as int) && part@ == part_at(
                image.content(),
                at as int,
                len as int,
            ),
            Err(e) => e is Unreadable && len > 0 && (len > usize::MAX || !storage::span_readable(
                image,
                at as int,
                at + len,
            )),
        },
{
    if len > usize::MAX as u64 {
        return Err(StorageError::Unreadable(Box::new(StorageError::RangeOverflow)));
    }
    read_part(image, at, len as usize)
}

/// Read `entries` BAT entries.
fn read_bat<S: BackingStore>(image: &S, at: u64, entries: u64) -> (r: Result<
    Vec<u64>,
    StorageError,
>)
    requires
        entries * 8 <= u64::MAX,
    ensures
        match r {
            Ok(bat) => {
                &&& within(image.content(), at as int, entries * 8)
                &&& bat@ == bat_at(image.content(), at as int, entries as int)
            },
            Err(e) => e is Unreadable && entries > 0 && (entries * 8 > usize::MAX || !storage::span_readable(
                image,
                at as int,
                at + entries * 8,
            )),
        },
{
    let raw = match read_region(image, at, entries * 8) {
        Ok(r) => r,
        Err(e) => {
            return Err(e);
        },
    };
    let n: usize = raw.len() / 8;
    let mut bat: Vec<u64> = Vec::new();
    let mut i: usize = 0;
    while i < n
        invariant
            i <= n,
            n == entries,
            raw@.len() == entries * 8,
            raw@.len() == raw.len(),
            entries > 0 ==> at + entries * 8 <= image.content().len() && raw@
                == image.content().subrange(at as int, at + entries * 8),
            bat@ == bat_at(image.content(), at as int, i as int),
        decreases n - i,
    {
        let ghost img = image.content();
        proof {
            assert(raw@[8 * i as int] == img[at + 8 * i]);
            assert(raw@[8 * i + 1] == img[at + 8 * i + 1]);
            assert(raw@[8 * i + 2] == img[at + 8 * i + 2]);
            assert(raw@[8 * i + 3] == img[at + 8 * i + 3]);
            assert(raw@[8 * i + 4] == img[at + 8 * i + 4]);
            assert(raw@[8 * i + 5] == img[at + 8 * i + 5]);
            assert(raw@[8 * i + 6] == img[at + 8 * i + 6]);
            assert(raw@[8 * i + 7] == img[at + 8 * i + 7]);
        }
        bat.push(wire::get_le64(raw.as_slice(), i * 8));
        i += 1;
        assert(bat@ =~= bat_at(img, at as int, i as int));
    }
    Ok(bat)
}

impl<S: BackingStore> BackingStore for Vhdx<S> {
    open spec fn content(&self) -> Seq<u8> {
        self.layout().disk(self.image().content())
    }

    /// The block of the byte is within reach, and the byte can be read where
    /// the block is stored.
    open spec fn readable(&self, i: int) -> bool {
        let bs = self.layout().block_size as int;
        &&& self.layout().reaches(i / bs)
        &&& self.layout().block_at(i / bs) matches Some(at) ==> at + i % bs
            < self.image().content().len() && self.image().readable(at + i % bs)
    }

    fn size_bytes(&self) -> (n: u64) {
        self.virtual_size
    }

    fn read_at(&self, offset: u64, buf: &mut [u8]) -> (r: Result<(), StorageError>)
        ensures
            offset + old(buf)@.len() > self.content().len() ==> r == Err::<(), StorageError>(
                raw::range_error(offset, old(buf)@.len() as int, self.content().len() as u64),
            ),
            r matches Err(e) ==> offset + old(buf)@.len() <= self.content().len() ==> exists|i: int|
                offset <= i < offset + old(buf)@.len() && #[trigger] self.fails(i, e),
    {
        proof {
            use_type_invariant(self);
        }
        // Allocation unit = one payload block.
        let locate = |block: u64| -> (u: Result<Unit, StorageError>)
            ensures
                u matches Ok(Unit::Zero) ==> self.layout().block_at(block as int) is None,
                u matches Ok(Unit::At(at)) ==> at + self.layout().block_size <= u64::MAX
                    && self.layout().block_at(block as int) == Some(at as int),
                u is Ok ==> self.layout().lists(block as int),
                u matches Err(e) ==> self.layout().refusal(block as int) == Some(e),
            { self.locate(block) };
        let r = read_units(offset, buf, self.virtual_size, self.block_size, locate, &self.image);
        proof {
            let n = old(buf)@.len() as int;
            assert forall|pos: int| offset <= pos < offset + n <= self.virtual_size && self.readable(
                pos,
            ) implies #[trigger] blockmap::surely_located(
                locate,
                &self.image,
                self.block_size as int,
                pos,
            ) by {
                let block = pos / (self.block_size as int);
                assert(0 <= block <= pos) by (nonlinear_arith)
                    requires
                        block == pos / (self.block_size as int),
                        self.block_size > 0,
                        0 <= pos,
                ;
            }
            if r is Err && offset + n <= self.virtual_size {
                let e = r->Err_0;
                let pos = choose|pos: int|
                    offset <= pos < offset + n && #[trigger] blockmap::fails_at(
                        locate,
                        &self.image,
                        self.block_size as int,
                        pos,
                        e,
                    );
                let block = pos / (self.block_size as int);
                assert(0 <= block <= pos) by (nonlinear_arith)
                    requires
                        block == pos / (self.block_size as int),
                        self.block_size > 0,
                        0 <= pos,
                ;
                assert(self.fails(pos, e));
            }
            if r is Ok {
                assert forall|i: int| 0 <= i < n implies buf@[i] == self.content()[offset + i] by {
                    assert(blockmap::located(
                        locate,
                        self.image().content(),
                        self.block_size as int,
                        offset + i,
                        buf@[i],
                    ));
                    let block = (offset + i) / (self.block_size as int);
                    assert(0 <= block <= offset + i) by (nonlinear_arith)
                        requires
                            block == (offset + i) / (self.block_size as int),
                            self.block_size > 0,
                            0 <= offset + i,
                    ;
                }
                assert(buf@ =~= self.content().subrange(offset as int, offset + n));
            }
        }
        r
    }
}

} // verus!
