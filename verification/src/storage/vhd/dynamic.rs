//! Dynamic VHDs.
use vstd::prelude::*;
use super::fixed;
use super::footer::{DISK_TYPE_DYNAMIC, SECTOR};
use crate::storage::blockmap;
use crate::storage::blockmap::{read_units, Unit};
use crate::storage;
use crate::storage::raw;
use crate::storage::{BackingStore, StorageError};
use crate::wire;

verus! {

/// Length of the dynamic disk header.
pub const HEADER_LEN: usize = 1024;

/// BAT entry of a block that is not stored.
pub const HOLE: u32 = 0xffff_ffff;

/// The cookie `cxsparse`.
pub open spec fn header_cookie() -> Seq<u8> {
    seq![0x63, 0x78, 0x73, 0x70, 0x61, 0x72, 0x73, 0x65]
}

/// How a dynamic VHD lays out its disk: virtual size, block size, and for each
/// block the sector it is stored at.
#[verifier::ext_equal]
pub struct Layout {
    pub size: u64,
    pub block_size: u64,
    pub bat: Seq<u32>,
}

/// Sectors per block.
pub open spec fn sectors_per_block(block_size: int) -> int {
    block_size / (SECTOR as int)
}

/// Bytes of a block's sector bitmap, padded to whole sectors.
pub open spec fn bitmap_len(block_size: int) -> int {
    ((sectors_per_block(block_size) + 7) / 8 + (SECTOR - 1)) / (SECTOR as int) * SECTOR
}

/// Bit `k` of a bitmap byte, most significant bit first.
pub open spec fn bit_set(byte: u8, k: int) -> bool {
    byte & (0x80u8 >> (k as u8)) != 0
}

impl Layout {
    /// The allocation table lists the block of `sector`.
    pub open spec fn lists(&self, sector: int) -> bool {
        sector / sectors_per_block(self.block_size as int) < self.bat.len()
    }

    /// Where the block of `sector` is stored, bitmap first.
    pub open spec fn entry(&self, sector: int) -> Option<int> {
        let block = sector / sectors_per_block(self.block_size as int);
        if 0 <= block < self.bat.len() && self.bat[block] != HOLE {
            Some(self.bat[block] * SECTOR)
        } else {
            None
        }
    }

    /// Number of `sector` within its block.
    pub open spec fn in_block(&self, sector: int) -> int {
        sector % sectors_per_block(self.block_size as int)
    }

    /// Where the data of `sector` is stored if its block is, whatever the
    /// bitmap says.
    pub open spec fn block_data(&self, sector: int) -> Option<int> {
        match self.entry(sector) {
            Some(at) => Some(
                at + bitmap_len(self.block_size as int) + self.in_block(sector) * SECTOR,
            ),
            None => None,
        }
    }

    /// The bitmap claims `sector`, whose block is stored at `at`.
    pub open spec fn claims(&self, img: Seq<u8>, at: int, sector: int) -> bool {
        bit_set(img[at + self.in_block(sector) / 8], self.in_block(sector) % 8)
    }

    /// Where the data of `sector` is stored if its block is and the bitmap
    /// claims it.
    pub open spec fn sector_data(&self, img: Seq<u8>, sector: int) -> Option<int> {
        match self.entry(sector) {
            Some(at) => if self.claims(img, at, sector) {
                self.block_data(sector)
            } else {
                None
            },
            None => None,
        }
    }

    /// Byte `i` of the disk: zero where its sector is not stored.
    pub open spec fn byte(&self, img: Seq<u8>, i: int) -> u8 {
        match self.sector_data(img, i / (SECTOR as int)) {
            Some(at) => img[at + i % (SECTOR as int)],
            None => 0,
        }
    }

    /// The disk.
    pub open spec fn disk(&self, img: Seq<u8>) -> Seq<u8> {
        Seq::new(self.size as nat, |i: int| self.byte(img, i))
    }

    /// The block size makes whole sectors.
    pub open spec fn wf(&self) -> bool {
        &&& 0 < self.block_size <= u32::MAX
        &&& self.block_size % SECTOR == 0
    }
}

/// The block allocation table with `entries` entries at `at`.
pub open spec fn bat_at(img: Seq<u8>, at: int, entries: int) -> Seq<u32> {
    Seq::new(entries as nat, |i: int| wire::be32_at(img, at + 4 * i))
}

/// Every stored block has its bitmap within an image of `len` bytes.
pub open spec fn bitmaps_fit(bat: Seq<u32>, block_size: int, len: int) -> bool {
    forall|i: int| 0 <= i < bat.len() && bat[i] != HOLE ==> (#[trigger] bat[i]) * SECTOR
        + bitmap_len(block_size) <= len
}

/// The layout of a dynamic VHD image. `Err(Some(e))`: it is none, for the
/// reason `e`. `Err(None)`: its structures lead outside the image.
pub open spec fn layout_of(img: Seq<u8>) -> Result<Layout, Option<StorageError>> {
    match fixed::trailing_footer(img) {
        Err(e) => Err(Some(e)),
        Ok(f) => if f.disk_type != DISK_TYPE_DYNAMIC {
            Err(Some(StorageError::NotDynamic))
        } else if f.data_offset + HEADER_LEN > img.len() {
            Err(None)
        } else {
            layout_under(img, img.subrange(f.data_offset as int, f.data_offset + HEADER_LEN), f.current_size)
        },
    }
}

/// What a dynamic header says: where the BAT is, its number of entries, and
/// the block size.
pub struct Header {
    pub table: u64,
    pub entries: u32,
    pub block_size: u32,
}

/// The dynamic header `h`, or why it is none.
pub open spec fn header_of(h: Seq<u8>) -> Result<Header, StorageError> {
    let entries = wire::be32_at(h, 28);
    let block_size = wire::be32_at(h, 32);
    if h.take(8) != header_cookie() {
        Err(StorageError::HeaderCookie)
    } else if block_size % (SECTOR as u32) != 0 || !wire::power_of_two(block_size as int) {
        Err(StorageError::BlockSize)
    } else if entries * 4 > usize::MAX {
        Err(StorageError::BatTooLarge)
    } else {
        Ok(Header { table: wire::be64_at(h, 16), entries, block_size })
    }
}

/// The layout that the dynamic header `h` gives a disk of `size` bytes.
pub open spec fn layout_under(
    img: Seq<u8>,
    h: Seq<u8>,
    size: u64,
) -> Result<Layout, Option<StorageError>> {
    match header_of(h) {
        Err(e) => Err(Some(e)),
        Ok(header) => {
            let bat = bat_at(img, header.table as int, header.entries as int);
            if header.entries > 0 && header.table + header.entries * 4 > img.len() || !bitmaps_fit(
                bat,
                header.block_size as int,
                img.len() as int,
            ) {
                Err(None)
            } else {
                Ok(Layout { size, block_size: header.block_size as u64, bat })
            }
        },
    }
}

/// The offset of a stored sector is not negative.
pub proof fn stored_data_has_an_offset(img: Seq<u8>, sector: int)
    requires
        0 <= sector,
    ensures
        layout_of(img) matches Ok(l) ==> l.wf() && (l.block_data(sector) matches Some(at) ==> 0
            <= at),
{
    if let Ok(l) = layout_of(img) {
        let k = choose|k: nat| l.block_size == #[trigger] vstd::arithmetic::power2::pow2(k);
        assert(wire::power_of_two(l.block_size as int));
        vstd::arithmetic::power2::lemma_pow2_pos(k);
        let spb = sectors_per_block(l.block_size as int);
        assert(spb > 0);
        vstd::arithmetic::div_mod::lemma_mod_bound(sector, spb);
    }
}

/// Parse a dynamic disk header.
pub fn parse_header(h: &[u8]) -> (r: Result<Header, StorageError>)
    requires
        h@.len() == HEADER_LEN,
    ensures
        r == header_of(h@),
        r matches Ok(header) ==> header.block_size > 0,
{
    let cookie: [u8; 8] = [0x63, 0x78, 0x73, 0x70, 0x61, 0x72, 0x73, 0x65];
    assert(cookie@ =~= header_cookie());
    assert(h@.subrange(0, 8) =~= h@.take(8));
    if !wire::bytes_eq(vstd::slice::slice_subrange(h, 0, 8), cookie.as_slice()) {
        return Err(StorageError::HeaderCookie);
    }
    let table: u64 = wire::get_be64(h, 16);
    let entries: u32 = wire::get_be32(h, 28);
    let block_size: u32 = wire::get_be32(h, 32);
    if block_size % (SECTOR as u32) != 0 || !wire::is_power_of_two(block_size as u64) {
        return Err(StorageError::BlockSize);
    }
    proof {
        if block_size == 0 {
            assert forall|k: nat| 0 != #[trigger] vstd::arithmetic::power2::pow2(k) by {
                vstd::arithmetic::power2::lemma_pow2_pos(k);
            }
        }
    }
    if entries as u64 * 4 > usize::MAX as u64 {
        return Err(StorageError::BatTooLarge);
    }
    Ok(Header { table, entries, block_size })
}

/// Read `len` bytes of an image that its structures call for; none are there
/// wherever they are asked for.
pub fn read_part<S: BackingStore>(image: &S, at: u64, len: usize) -> (r: Result<
    Vec<u8>,
    StorageError,
>)
    ensures
        match r {
            Ok(part) => {
                &&& part@.len() == len
                &&& len > 0 ==> at + len <= image.content().len() && part@
                    == image.content().subrange(at as int, at + len)
            },
            Err(e) => e is Unreadable && len > 0 && !storage::span_readable(
                image,
                at as int,
                at + len,
            ),
        },
{
    if len == 0 {
        return Ok(Vec::new());
    }
    let mut part: Vec<u8> = wire::zeroed(len);
    match image.read_at(at, part.as_mut_slice()) {
        Ok(_) => Ok(part),
        Err(e) => Err(StorageError::Unreadable(Box::new(e))),
    }
}

/// Dynamic VHD: footer + dynamic header + BAT + sparse blocks.
pub struct DynamicVhd<S: BackingStore> {
    image: S,
    virtual_size: u64,
    block_size: u64,
    bitmap_size: u64,
    /// One BAT entry per block: sector offset of the block, or `HOLE`.
    bat: Vec<u32>,
    /// Per-block sector bitmaps, preloaded for allocated blocks (None = hole).
    bitmaps: Vec<Option<Vec<u8>>>,
}

/// `bitmaps` are the bitmaps of the first blocks of `bat`, read from `img`.
spec fn preloaded(
    img: Seq<u8>,
    bat: Seq<u32>,
    bitmap_size: int,
    bitmaps: Seq<Option<Vec<u8>>>,
) -> bool {
    forall|i: int| 0 <= i < bitmaps.len() ==> match #[trigger] bitmaps[i] {
        None => bat[i] == HOLE,
        Some(bm) => {
            &&& bat[i] != HOLE
            &&& bat[i] * SECTOR + bitmap_size <= img.len()
            &&& bm@ == img.subrange(bat[i] * SECTOR, bat[i] * SECTOR + bitmap_size)
        },
    }
}

impl<S: BackingStore> DynamicVhd<S> {
    #[verifier::type_invariant]
    spec fn inv(self) -> bool {
        &&& self.layout().wf()
        &&& self.bitmap_size == bitmap_len(self.block_size as int)
        &&& self.bitmaps@.len() == self.bat@.len()
        &&& preloaded(
            self.image.content(),
            self.bat@,
            self.bitmap_size as int,
            self.bitmaps@,
        )
    }

    /// The image file.
    pub closed spec fn image(&self) -> S {
        self.image
    }

    /// How the disk is laid out in the image.
    pub closed spec fn layout(&self) -> Layout {
        Layout { size: self.virtual_size, block_size: self.block_size, bat: self.bat@ }
    }

    /// Open a dynamic VHD read-only. Parses the footer, dynamic header, and BAT.
    pub fn open(image: S) -> (r: Result<Self, StorageError>)
        ensures
            match r {
                Ok(v) => {
                    &&& v.image() == image
                    &&& layout_of(image.content()) == Ok::<Layout, Option<StorageError>>(
                        v.layout(),
                    )
                    &&& v.content() == v.layout().disk(image.content())
                },
                Err(StorageError::Unreadable(_)) => !storage::all_readable(&image) || layout_of(
                    image.content(),
                ) == Err::<Layout, Option<StorageError>>(None),
                Err(e) => layout_of(image.content()) == Err::<Layout, Option<StorageError>>(
                    Some(e),
                ),
            },
    {
        let footer = match fixed::read_footer(&image) {
            Ok(f) => f,
            Err(e) => {
                return Err(e);
            },
        };
        if footer.disk_type != DISK_TYPE_DYNAMIC {
            return Err(StorageError::NotDynamic);
        }
        let hdr = match read_part(&image, footer.data_offset, HEADER_LEN) {
            Ok(h) => h,
            Err(e) => {
                return Err(e);
            },
        };
        let header = match parse_header(hdr.as_slice()) {
            Ok(h) => h,
            Err(e) => {
                return Err(e);
            },
        };
        let bat = match read_bat(&image, header.table, header.entries) {
            Ok(b) => b,
            Err(e) => {
                return Err(e);
            },
        };
        let block_size: u64 = header.block_size as u64;
        let spb: u64 = block_size / SECTOR;
        let bitmap_size: u64 = ((spb + 7) / 8 + (SECTOR - 1)) / SECTOR * SECTOR;
        let bitmaps = match read_bitmaps(&image, bat.as_slice(), bitmap_size) {
            Ok(b) => b,
            Err(e) => {
                return Err(e);
            },
        };
        proof {
            let len = image.content().len() as int;
            assert forall|k: int| 0 <= k < bat@.len() && bat@[k] != HOLE implies (
            #[trigger] bat@[k]) * SECTOR + bitmap_len(block_size as int) <= len by {
                assert(bitmaps@[k] is Some);
            }
            assert(bitmaps_fit(bat@, block_size as int, len));
        }
        Ok(
            DynamicVhd {
                image,
                virtual_size: footer.current_size,
                block_size,
                bitmap_size,
                bat,
                bitmaps,
            },
        )
    }

    /// The allocation table lists the block of `sector`.
    pub open spec fn lists(&self, sector: int) -> bool {
        self.layout().lists(sector)
    }

    /// Reading byte `i` gives the error `e`: the BAT does not list its block, or
    /// its sector is stored where it cannot be read.
    pub open spec fn fails(&self, i: int, e: StorageError) -> bool {
        let sector = i / (SECTOR as int);
        ||| !self.lists(sector) && e == StorageError::BeyondBat
        ||| self.lists(sector) && !self.readable(i)
    }

    /// Physical byte offset of `sector`'s data if the sector is present in
    /// this file: its block is allocated *and* its bitmap bit is set.
    /// `None` means the sector is not stored here (zero for a standalone
    /// dynamic VHD; "ask the parent layer" in a CCBoot increment chain).
    pub fn sector_offset(&self, sector: u64) -> (r: Result<Option<u64>, StorageError>)
        ensures
            match r {
                Ok(at) => {
                    &&& self.lists(sector as int)
                    &&& offset_view(at) == self.layout().sector_data(
                        self.image().content(),
                        sector as int,
                    )
                    &&& at matches Some(o) ==> o <= MAX_OFFSET
                },
                Err(e) => !self.lists(sector as int) && e == StorageError::BeyondBat,
            },
    {
        proof {
            use_type_invariant(self);
        }
        let (block, k) = match self.locate(sector) {
            Ok(place) => place,
            Err(e) => {
                return Err(e);
            },
        };
        match &self.bitmaps[block] {
            None => Ok(None),
            Some(bitmap) => {
                let byte: u8 = bitmap[(k / 8) as usize];
                let mask: u8 = 0x80u8 >> ((k % 8) as u8);
                if byte & mask == 0 {
                    return Ok(None);
                }
                Ok(Some(self.bat[block] as u64 * SECTOR + self.bitmap_size + k * SECTOR))
            },
        }
    }

    /// Physical byte offset of `sector`'s data if its *block* is allocated in
    /// this file, **ignoring the per-sector bitmap**. `None` only when the block
    /// itself is a hole. Used as a fallback in CCBoot chains: CCBoot allocates a
    /// whole block when it captures any change in it, but does not always set the
    /// bitmap bit for every sector it actually wrote, so a bit-clear sector in
    /// an allocated block still holds that layer's data and must not fall through
    /// to the (stale) base.
    pub fn block_sector_offset(&self, sector: u64) -> (r: Result<Option<u64>, StorageError>)
        ensures
            match r {
                Ok(at) => {
                    &&& self.lists(sector as int)
                    &&& offset_view(at) == self.layout().block_data(sector as int)
                    &&& at matches Some(o) ==> o <= MAX_OFFSET
                },
                Err(e) => !self.lists(sector as int) && e == StorageError::BeyondBat,
            },
    {
        proof {
            use_type_invariant(self);
        }
        let (block, k) = match self.locate(sector) {
            Ok(place) => place,
            Err(e) => {
                return Err(e);
            },
        };
        let entry: u32 = self.bat[block];
        if entry == HOLE {
            return Ok(None);
        }
        Ok(Some(entry as u64 * SECTOR + self.bitmap_size + k * SECTOR))
    }

    /// The block of `sector` and the sector's number within it.
    fn locate(&self, sector: u64) -> (r: Result<(usize, u64), StorageError>)
        ensures
            match r {
                Ok((block, k)) => {
                    &&& self.lists(sector as int)
                    &&& block == sector as int / sectors_per_block(self.block_size as int)
                    &&& block < self.bat@.len()
                    &&& k == self.layout().in_block(sector as int)
                    &&& k < sectors_per_block(self.block_size as int)
                    &&& k / 8 < self.bitmap_size
                    &&& self.bat@[block as int] * SECTOR + self.bitmap_size + k * SECTOR <= MAX_OFFSET
                },
                Err(e) => !self.lists(sector as int) && e == StorageError::BeyondBat,
            },
    {
        proof {
            use_type_invariant(self);
        }
        let spb: u64 = self.block_size / SECTOR;
        let block: u64 = sector / spb;
        if block >= self.bat.len() as u64 {
            return Err(StorageError::BeyondBat);
        }
        Ok((block as usize, sector % spb))
    }

    /// How many sectors of the block of `sector` the bitmap claims; `None` for
    /// a hole.
    pub fn block_bit_count(&self, sector: u64) -> (r: Result<Option<u64>, StorageError>)
        ensures
            match r {
                Ok(n) => {
                    &&& self.lists(sector as int)
                    &&& offset_view(n) == self.layout().bit_count(
                        self.image().content(),
                        sector as int,
                    )
                },
                Err(e) => !self.lists(sector as int) && e == StorageError::BeyondBat,
            },
    {
        proof {
            use_type_invariant(self);
        }
        let (block, _k) = match self.locate(sector) {
            Ok(place) => place,
            Err(e) => {
                return Err(e);
            },
        };
        match &self.bitmaps[block] {
            None => Ok(None),
            Some(bitmap) => {
                let spb: u64 = self.block_size / SECTOR;
                let ghost img = self.image.content();
                let ghost at = self.bat@[block as int] * SECTOR;
                let mut n: u64 = 0;
                let mut k: u64 = 0;
                while k < spb
                    invariant
                        k <= spb,
                        spb == sectors_per_block(self.block_size as int),
                        self.block_size <= u32::MAX,
                        self.bitmap_size == bitmap_len(self.block_size as int),
                        at + self.bitmap_size <= img.len(),
                        0 <= at,
                        bitmap@ == img.subrange(at, at + self.bitmap_size),
                        n == bits_set(img, at, k as int),
                        n <= k,
                    decreases spb - k,
                {
                    let byte: u8 = bitmap[(k / 8) as usize];
                    let mask: u8 = 0x80u8 >> ((k % 8) as u8);
                    if byte & mask != 0 {
                        n += 1;
                    }
                    k += 1;
                }
                Ok(Some(n))
            },
        }
    }

    /// Read raw bytes at a physical file offset (as returned by `sector_offset`).
    pub fn read_phys(&self, offset: u64, dst: &mut [u8]) -> (r: Result<(), StorageError>)
        ensures
            final(dst)@.len() == old(dst)@.len(),
            r is Ok && old(dst)@.len() > 0 ==> {
                &&& offset + old(dst)@.len() <= self.image().content().len()
                &&& final(dst)@ == self.image().content().subrange(
                    offset as int,
                    offset + old(dst)@.len(),
                )
            },
            storage::span_readable(&self.image(), offset as int, offset + old(dst)@.len())
                ==> r is Ok,
    {
        self.image.read_at(offset, dst)
    }
}

/// Above every offset that a BAT entry can lead to.
pub const MAX_OFFSET: u64 = 0x400_0000_0000;

/// An optional offset as a mathematical one.
pub open spec fn offset_view(at: Option<u64>) -> Option<int> {
    match at {
        Some(o) => Some(o as int),
        None => None,
    }
}

/// How many of the first `k` bits of the bitmap at `at` are set.
pub open spec fn bits_set(img: Seq<u8>, at: int, k: int) -> int
    decreases k,
{
    if k <= 0 {
        0
    } else {
        bits_set(img, at, k - 1) + if bit_set(img[at + (k - 1) / 8], (k - 1) % 8) {
            1int
        } else {
            0
        }
    }
}

impl Layout {
    /// How many sectors of the block of `sector` the bitmap claims; none for a
    /// hole.
    pub open spec fn bit_count(&self, img: Seq<u8>, sector: int) -> Option<int> {
        match self.entry(sector) {
            Some(at) => Some(bits_set(img, at, sectors_per_block(self.block_size as int))),
            None => None,
        }
    }
}

/// Read the block allocation table.
fn read_bat<S: BackingStore>(image: &S, table: u64, entries: u32) -> (r: Result<
    Vec<u32>,
    StorageError,
>)
    requires
        entries * 4 <= usize::MAX,
    ensures
        match r {
            Ok(bat) => {
                &&& entries > 0 ==> table + entries * 4 <= image.content().len()
                &&& bat@ == bat_at(image.content(), table as int, entries as int)
            },
            Err(e) => e is Unreadable && entries > 0 && !storage::span_readable(
                image,
                table as int,
                table + entries * 4,
            ),
        },
{
    let raw = match read_part(image, table, entries as usize * 4) {
        Ok(r) => r,
        Err(e) => {
            return Err(e);
        },
    };
    let mut bat: Vec<u32> = Vec::new();
    let mut i: usize = 0;
    while i < entries as usize
        invariant
            i <= entries,
            raw@.len() == entries * 4,
            entries * 4 <= usize::MAX,
            entries > 0 ==> table + entries * 4 <= image.content().len() && raw@
                == image.content().subrange(table as int, table + entries * 4),
            bat@ == bat_at(image.content(), table as int, i as int),
        decreases entries - i,
    {
        let ghost img = image.content();
        proof {
            assert(raw@[4 * i as int] == img[table + 4 * i]);
            assert(raw@[4 * i + 1] == img[table + 4 * i + 1]);
            assert(raw@[4 * i + 2] == img[table + 4 * i + 2]);
            assert(raw@[4 * i + 3] == img[table + 4 * i + 3]);
        }
        bat.push(wire::get_be32(raw.as_slice(), i * 4));
        i += 1;
        assert(bat@ =~= bat_at(img, table as int, i as int));
    }
    Ok(bat)
}

/// Preload sector bitmaps so reads never touch the disk to test a bit.
fn read_bitmaps<S: BackingStore>(image: &S, bat: &[u32], bitmap_size: u64) -> (r: Result<
    Vec<Option<Vec<u8>>>,
    StorageError,
>)
    requires
        0 < bitmap_size <= 0x10_0000,
    ensures
        match r {
            Ok(bitmaps) => {
                &&& bitmaps@.len() == bat@.len()
                &&& preloaded(image.content(), bat@, bitmap_size as int, bitmaps@)
            },
            Err(e) => e is Unreadable && exists|i: int|
                0 <= i < bat@.len() && #[trigger] bat@[i] != HOLE && !storage::span_readable(
                    image,
                    bat@[i] * SECTOR,
                    bat@[i] * SECTOR + bitmap_size,
                ),
        },
{
    let mut bitmaps: Vec<Option<Vec<u8>>> = Vec::new();
    let mut i: usize = 0;
    while i < bat.len()
        invariant
            i <= bat@.len(),
            bitmaps@.len() == i,
            0 < bitmap_size <= 0x10_0000,
            preloaded(image.content(), bat@, bitmap_size as int, bitmaps@),
        decreases bat@.len() - i,
    {
        let entry: u32 = bat[i];
        if entry == HOLE {
            bitmaps.push(None);
        } else {
            match read_part(image, entry as u64 * SECTOR, bitmap_size as usize) {
                Ok(bm) => {
                    bitmaps.push(Some(bm));
                },
                Err(e) => {
                    assert(bat@[i as int] != HOLE);
                    return Err(e);
                },
            }
        }
        i += 1;
    }
    Ok(bitmaps)
}

impl<S: BackingStore> BackingStore for DynamicVhd<S> {
    open spec fn content(&self) -> Seq<u8> {
        self.layout().disk(self.image().content())
    }

    /// The BAT lists the block of the byte, and the byte can be read where its
    /// sector is stored.
    open spec fn readable(&self, i: int) -> bool {
        &&& self.lists(i / (SECTOR as int))
        &&& self.layout().sector_data(self.image().content(), i / (SECTOR as int)) matches Some(at)
            ==> at + i % (SECTOR as int) < self.image().content().len() && self.image().readable(
            at + i % (SECTOR as int),
        )
    }

    fn size_bytes(&self) -> (n: u64) {
        self.virtual_size
    }

    fn read_at(&self, offset: u64, buf: &mut [u8]) -> (r: Result<(), StorageError>)
        ensures
            offset + old(buf)@.len() > self.content().len() ==> r == Err::<(), StorageError>(
                raw::range_error(offset, old(buf)@.len() as int, self.content().len() as u64),
            ),
            r matches Err(e) ==> offset + old(buf)@.len() <= self.content().len() ==> exists|i: int|
                offset <= i < offset + old(buf)@.len() && #[trigger] self.fails(i, e),
    {
        // Allocation unit = one 512-byte sector (honors the per-sector bitmap).
        let locate = |sector: u64| -> (u: Result<Unit, StorageError>)
            ensures
                u matches Ok(Unit::Zero) ==> self.layout().sector_data(
                    self.image().content(),
                    sector as int,
                ) is None,
                u matches Ok(Unit::At(at)) ==> at <= MAX_OFFSET && self.layout().sector_data(
                    self.image().content(),
                    sector as int,
                ) == Some(at as int),
                u matches Err(e) ==> !self.lists(sector as int) && e == StorageError::BeyondBat,
            {
                match self.sector_offset(sector) {
                    Ok(Some(off)) => Ok(Unit::At(off)),
                    Ok(None) => Ok(Unit::Zero),
                    Err(e) => Err(e),
                }
            };
        let r = read_units(offset, buf, self.virtual_size, SECTOR, locate, &self.image);
        proof {
            let n = old(buf)@.len() as int;
            assert forall|pos: int| offset <= pos < offset + n <= self.virtual_size && self.readable(
                pos,
            ) implies #[trigger] blockmap::surely_located(
                locate,
                &self.image,
                SECTOR as int,
                pos,
            ) by {
                assert(((pos / (SECTOR as int)) as u64) as int == pos / (SECTOR as int));
            }
            if r is Err && offset + n <= self.virtual_size {
                let e = r->Err_0;
                let pos = choose|pos: int|
                    offset <= pos < offset + n && #[trigger] blockmap::fails_at(
                        locate,
                        &self.image,
                        SECTOR as int,
                        pos,
                        e,
                    );
                assert(((pos / (SECTOR as int)) as u64) as int == pos / (SECTOR as int));
                assert(self.fails(pos, e));
            }
            if r is Ok {
                assert forall|i: int| 0 <= i < n implies buf@[i] == self.content()[offset + i] by {
                    assert(blockmap::located(
                        locate,
                        self.image().content(),
                        SECTOR as int,
                        offset + i,
                        buf@[i],
                    ));
                }
                assert(buf@ =~= self.content().subrange(offset as int, offset + n));
            }
        }
        r
    }
}

} // verus!
