//! Writer for dynamic VHDs. Used by `xboot flatten` to materialize a
//! `BackingStore` (e.g. a CCBoot increment chain) into one standalone sparse
//! VHD that Windows and our own reader both accept.
//!
//! The writer gives the bytes of the file piece by piece: the head, then one
//! piece per block, then the tail; last, the allocation table goes over its
//! reserved place in the head.
use vstd::prelude::*;
use super::dynamic;
use super::dynamic::{Layout, HEADER_LEN, HOLE};
use super::fixed;
use super::footer;
use super::footer::{VhdFooter, DISK_TYPE_DYNAMIC, FOOTER_LEN, SECTOR};
use crate::storage;
use crate::storage::{Backing, BackingStore, StorageError};
use crate::wire;

verus! {

/// 2 MiB blocks: what CCBoot and Hyper-V both use; keeps the BAT small.
pub const DEFAULT_BLOCK_SIZE: u32 = 0x20_0000;

/// Where the BAT starts: behind the footer copy and the dynamic header.
pub const TABLE_OFFSET: u64 = 1536;

/// Sectors that a stored block takes: one of bitmap, 4096 of data.
pub const SECTORS_PER_STORED_BLOCK: u32 = 4097;

/// VHD CHS geometry (cylinders, heads, sectors per track) from total sector
/// count: the fewest sectors per track of 17, 31, 63 and 255 that keep to 16
/// heads and, up to 63, to 1024 cylinders.
pub open spec fn chs(total_sectors: int) -> (int, int, int) {
    let ts = if total_sectors < 65535 * 16 * 255 {
        total_sectors
    } else {
        65535int * 16 * 255
    };
    let heads17 = if (ts / 17 + 1023) / 1024 < 4 {
        4
    } else {
        (ts / 17 + 1023) / 1024
    };
    if ts >= 65535 * 16 * 63 {
        (ts / 255 / 16, 16, 255)
    } else if heads17 <= 16 && ts / 17 < heads17 * 1024 {
        (ts / 17 / heads17, heads17, 17)
    } else if ts / 31 < 16 * 1024 {
        (ts / 31 / 16, 16, 31)
    } else {
        (ts / 63 / 16, 16, 63)
    }
}

/// VHD CHS geometry from total sector count (per the VHD spec, appendix).
pub fn geometry(total_sectors: u64) -> (g: (u16, u8, u8))
    ensures
        (g.0 as int, g.1 as int, g.2 as int) == chs(total_sectors as int),
{
    let max: u64 = 65535 * 16 * 255;
    let ts: u64 = if total_sectors < max { total_sectors } else { max };
    let mut spt: u64 = 255;
    let mut heads: u64 = 16;
    let mut cth: u64 = ts / 255;
    if ts < 65535 * 16 * 63 {
        spt = 17;
        cth = ts / 17;
        heads = (cth + 1023) / 1024;
        if heads < 4 {
            heads = 4;
        }
        if cth >= heads * 1024 || heads > 16 {
            spt = 31;
            heads = 16;
            cth = ts / 31;
        }
        if cth >= heads * 1024 {
            spt = 63;
            heads = 16;
            cth = ts / 63;
        }
    }
    assert(cth / heads <= 65535) by (nonlinear_arith)
        requires
            4 <= heads <= 16,
            cth <= 65535 * 16,
            heads < 16 ==> cth < heads * 1024,
    ;
    ((cth / heads) as u16, heads as u8, spt as u8)
}

/// `xbot`.
pub open spec fn creator() -> Seq<u8> {
    seq![0x78, 0x62, 0x6f, 0x74]
}

/// `Wi2k`.
pub open spec fn creator_os() -> Seq<u8> {
    seq![0x57, 0x69, 0x32, 0x6b]
}

/// The eight bytes of `x`, least significant first.
pub open spec fn le64(x: u64) -> Seq<u8> {
    wire::be64(x).reverse()
}

/// The four bytes of `x`, least significant first.
pub open spec fn le32(x: u32) -> Seq<u8> {
    wire::be32(x).reverse()
}

/// Cookie, features (the reserved bit) and file format version.
pub open spec fn footer_version() -> Seq<u8> {
    footer::footer_cookie() + wire::be32(2) + wire::be32(0x1_0000)
}

/// Time of creation, creator with its version and host, original size.
pub open spec fn footer_origin(size: u64, secs: u32) -> Seq<u8> {
    wire::be32(secs) + creator() + wire::be32(0x1_0000) + creator_os() + wire::be64(size)
}

/// Cylinders, heads, sectors per track.
pub open spec fn footer_geometry(size: u64) -> Seq<u8> {
    let g = chs((size / SECTOR) as int);
    wire::be16(g.0 as u16) + seq![g.1 as u8, g.2 as u8]
}

/// The first 64 bytes of the footer of a dynamic disk of `size` bytes, made
/// `secs` seconds after the start of 2000.
pub open spec fn footer_front(size: u64, secs: u32) -> Seq<u8> {
    footer_version() + wire::be64(512) + footer_origin(size, secs) + wire::be64(size)
        + footer_geometry(size) + wire::be32(DISK_TYPE_DYNAMIC)
}

/// The bytes behind the checksum: a unique id made of size and time, then
/// zeros.
pub open spec fn footer_back(size: u64, secs: u32) -> Seq<u8> {
    le64(size) + le32(secs) + creator() + wire::zeros(428)
}

/// A dynamic-disk footer.
pub open spec fn footer_bytes(size: u64, secs: u32) -> Seq<u8> {
    let blank = footer_front(size, secs) + wire::zeros(4) + footer_back(size, secs);
    footer_front(size, secs) + wire::be32(footer::checksum_of(blank, 64, 68)) + footer_back(
        size,
        secs,
    )
}

/// Append `src` back to front.
fn push_reversed(out: &mut Vec<u8>, src: &[u8])
    ensures
        final(out)@ == old(out)@ + src@.reverse(),
{
    let n: usize = src.len();
    let mut i: usize = 0;
    while i < n
        invariant
            i <= n,
            n == src@.len(),
            out@ == old(out)@ + src@.reverse().take(i as int),
        decreases n - i,
    {
        out.push(src[n - 1 - i]);
        i += 1;
        assert(src@.reverse().take(i as int) =~= src@.reverse().take(i - 1).push(
            src@.reverse()[i - 1],
        ));
        assert(out@ =~= old(out)@ + src@.reverse().take(i as int));
    }
    assert(src@.reverse().take(n as int) =~= src@.reverse());
}

fn build_front(current_size: u64, secs_since_2000: u32) -> (f: Vec<u8>)
    ensures
        f@ == footer_front(current_size, secs_since_2000),
{
    let mut f: Vec<u8> = vec![0x63, 0x6f, 0x6e, 0x65, 0x63, 0x74, 0x69, 0x78];
    assert(f@ =~= footer::footer_cookie());
    wire::push_be32(&mut f, 2);  // features: reserved bit
    wire::push_be32(&mut f, 0x1_0000);  // file format version
    assert(f@ =~= footer_version());
    wire::push_be64(&mut f, 512);  // data offset -> dynamic header
    let ghost a = f@;
    wire::push_be32(&mut f, secs_since_2000);
    let app: [u8; 4] = [0x78, 0x62, 0x6f, 0x74];
    assert(app@ =~= creator());
    wire::push_bytes(&mut f, app.as_slice());  // creator application
    wire::push_be32(&mut f, 0x1_0000);  // creator version
    let os: [u8; 4] = [0x57, 0x69, 0x32, 0x6b];
    assert(os@ =~= creator_os());
    wire::push_bytes(&mut f, os.as_slice());  // creator host OS (Windows)
    wire::push_be64(&mut f, current_size);  // original size
    assert(f@ =~= a + footer_origin(current_size, secs_since_2000));
    wire::push_be64(&mut f, current_size);  // current size
    let ghost b = f@;
    let (cyl, heads, spt) = geometry(current_size / SECTOR);
    wire::push_be16(&mut f, cyl);
    let track: [u8; 2] = [heads, spt];
    assert(track@ =~= seq![heads, spt]);
    wire::push_bytes(&mut f, track.as_slice());
    assert(f@ =~= b + footer_geometry(current_size));
    wire::push_be32(&mut f, DISK_TYPE_DYNAMIC);
    f
}

fn build_back(current_size: u64, secs_since_2000: u32) -> (f: Vec<u8>)
    ensures
        f@ == footer_back(current_size, secs_since_2000),
{
    let mut size: Vec<u8> = Vec::new();
    wire::push_be64(&mut size, current_size);
    assert(size@ =~= wire::be64(current_size));
    let mut secs: Vec<u8> = Vec::new();
    wire::push_be32(&mut secs, secs_since_2000);
    assert(secs@ =~= wire::be32(secs_since_2000));
    let mut f: Vec<u8> = Vec::new();
    push_reversed(&mut f, size.as_slice());
    push_reversed(&mut f, secs.as_slice());
    let app: [u8; 4] = [0x78, 0x62, 0x6f, 0x74];
    assert(app@ =~= creator());
    wire::push_bytes(&mut f, app.as_slice());
    wire::push_zeros(&mut f, 428);
    assert(f@ =~= footer_back(current_size, secs_since_2000));
    f
}

/// Build a 512-byte dynamic-disk footer, dated `secs_since_2000` seconds after
/// the start of 2000.
pub fn build_footer(current_size: u64, secs_since_2000: u32) -> (f: Vec<u8>)
    ensures
        f@ == footer_bytes(current_size, secs_since_2000),
        f@.len() == FOOTER_LEN,
{
    let mut f = build_front(current_size, secs_since_2000);
    let back = build_back(current_size, secs_since_2000);
    let mut blank: Vec<u8> = Vec::new();
    wire::push_bytes(&mut blank, f.as_slice());
    wire::push_zeros(&mut blank, 4);
    wire::push_bytes(&mut blank, back.as_slice());
    assert(blank@ =~= footer_front(current_size, secs_since_2000) + wire::zeros(4) + footer_back(
        current_size,
        secs_since_2000,
    ));
    wire::push_be32(&mut f, footer::checksum(blank.as_slice(), 64, 68));
    wire::push_bytes(&mut f, back.as_slice());
    f
}

/// The dynamic disk header for `n_blocks` blocks up to its checksum.
pub open spec fn header_front(n_blocks: u32) -> Seq<u8> {
    dynamic::header_cookie() + wire::be64(u64::MAX) + wire::be64(TABLE_OFFSET) + wire::be32(
        0x1_0000,
    ) + wire::be32(n_blocks) + wire::be32(DEFAULT_BLOCK_SIZE)
}

/// The dynamic disk header for `n_blocks` blocks.
pub open spec fn header_bytes(n_blocks: u32) -> Seq<u8> {
    let blank = header_front(n_blocks) + wire::zeros(988);
    header_front(n_blocks) + wire::be32(footer::checksum_of(blank, 36, 40)) + wire::zeros(984)
}

/// Build the 1024-byte dynamic disk header.
pub fn build_header(n_blocks: u32) -> (h: Vec<u8>)
    ensures
        h@ == header_bytes(n_blocks),
        h@.len() == HEADER_LEN,
{
    let mut h: Vec<u8> = vec![0x63, 0x78, 0x73, 0x70, 0x61, 0x72, 0x73, 0x65];
    assert(h@ =~= dynamic::header_cookie());
    wire::push_be64(&mut h, u64::MAX);  // data offset (none)
    wire::push_be64(&mut h, TABLE_OFFSET);
    wire::push_be32(&mut h, 0x1_0000);  // header version
    wire::push_be32(&mut h, n_blocks);  // max table entries
    wire::push_be32(&mut h, DEFAULT_BLOCK_SIZE);
    let mut blank: Vec<u8> = Vec::new();
    wire::push_bytes(&mut blank, h.as_slice());
    wire::push_zeros(&mut blank, 988);
    assert(blank@ =~= header_front(n_blocks) + wire::zeros(988));
    wire::push_be32(&mut h, footer::checksum(blank.as_slice(), 36, 40));
    wire::push_zeros(&mut h, 984);
    h
}

/// The sum depends only on the bytes that are summed.
proof fn sum_skips(s: Seq<u8>, t: Seq<u8>, from: int, to: int, k: int)
    requires
        forall|i: int| 0 <= i < k && !(from <= i < to) ==> s[i] == t[i],
    ensures
        footer::byte_sum(s, from, to, k) == footer::byte_sum(t, from, to, k),
    decreases k,
{
    if k > 0 {
        sum_skips(s, t, from, to, k - 1);
    }
}

/// A footer that the writer makes is one that the reader accepts, and says
/// what it was made with.
pub proof fn built_footer_parses(size: u64, secs: u32)
    ensures
        footer_bytes(size, secs).len() == FOOTER_LEN,
        footer::footer_of(footer_bytes(size, secs)) == Ok::<VhdFooter, StorageError>(
            VhdFooter { data_offset: 512, current_size: size, disk_type: DISK_TYPE_DYNAMIC },
        ),
{
    front_fields(size, secs);
    back_len(size, secs);
    checked(footer_front(size, secs), footer_back(size, secs));
}

proof fn back_len(size: u64, secs: u32)
    ensures
        footer_back(size, secs).len() == 444,
{
    assert(le64(size).len() == 8);
    assert(le32(secs).len() == 4);
}

/// A footer with its checksum put in has the right checksum and keeps its
/// fields.
proof fn checked(front: Seq<u8>, back: Seq<u8>)
    requires
        front.len() == 64,
        back.len() == 444,
    ensures
        ({
            let blank = front + wire::zeros(4) + back;
            let f = front + wire::be32(footer::checksum_of(blank, 64, 68)) + back;
            &&& f.len() == 512
            &&& f.take(512) == f
            &&& f.take(8) == front.take(8)
            &&& footer::checksum_of(f, 64, 68) == wire::be32_at(f, 64)
            &&& wire::be64_at(f, 16) == wire::be64_at(front, 16)
            &&& wire::be64_at(f, 48) == wire::be64_at(front, 48)
            &&& wire::be32_at(f, 60) == wire::be32_at(front, 60)
        }),
{
    let blank = front + wire::zeros(4) + back;
    let sum = footer::checksum_of(blank, 64, 68);
    let f = front + wire::be32(sum) + back;
    assert(f.take(512) =~= f);
    assert(f.take(8) =~= front.take(8));
    sum_skips(f, blank, 64, 68, 512);
    wire::be32_round_trip(sum, front, back);
}

proof fn front_fields(size: u64, secs: u32)
    ensures
        footer_front(size, secs).len() == 64,
        footer_front(size, secs).take(8) == footer::footer_cookie(),
        wire::be64_at(footer_front(size, secs), 16) == 512,
        wire::be64_at(footer_front(size, secs), 48) == size,
        wire::be32_at(footer_front(size, secs), 60) == DISK_TYPE_DYNAMIC,
{
    assert(footer_version().len() == 16);
    assert(footer_version().take(8) =~= footer::footer_cookie());
    assert(footer_origin(size, secs).len() == 24);
    assert(footer_geometry(size).len() == 4);
    fields_between(footer_version(), 512, footer_origin(size, secs), size, footer_geometry(size), DISK_TYPE_DYNAMIC);
}

/// Integers written between other bytes read back.
proof fn fields_between(a: Seq<u8>, x: u64, b: Seq<u8>, y: u64, c: Seq<u8>, z: u32)
    requires
        a.len() == 16,
        b.len() == 24,
        c.len() == 4,
    ensures
        ({
            let f = a + wire::be64(x) + b + wire::be64(y) + c + wire::be32(z);
            &&& f.len() == 64
            &&& f.take(8) == a.take(8)
            &&& wire::be64_at(f, 16) == x
            &&& wire::be64_at(f, 48) == y
            &&& wire::be32_at(f, 60) == z
        }),
{
    let f = a + wire::be64(x) + b + wire::be64(y) + c + wire::be32(z);
    assert(f.take(8) =~= a.take(8));
    wire::be64_round_trip(x, a, b + wire::be64(y) + c + wire::be32(z));
    assert(f =~= a + wire::be64(x) + (b + wire::be64(y) + c + wire::be32(z)));
    wire::be64_round_trip(y, a + wire::be64(x) + b, c + wire::be32(z));
    assert(f =~= (a + wire::be64(x) + b) + wire::be64(y) + (c + wire::be32(z)));
    wire::be32_round_trip(z, a + wire::be64(x) + b + wire::be64(y) + c, Seq::empty());
    assert(f =~= (a + wire::be64(x) + b + wire::be64(y) + c) + wire::be32(z) + Seq::<u8>::empty());
}

/// Bytes of the BAT of `n` blocks, padded to whole sectors.
pub open spec fn table_len(n: int) -> int {
    (n * 4 + 511) / 512 * 512
}

/// Where the blocks start in a file of `n` blocks.
pub open spec fn blocks_start(n: int) -> int {
    TABLE_OFFSET + table_len(n)
}

/// Block `j` of a disk, with zeros behind its end.
pub open spec fn disk_block(disk: Seq<u8>, j: int) -> Seq<u8> {
    Seq::new(
        DEFAULT_BLOCK_SIZE as nat,
        |i: int|
            if j * DEFAULT_BLOCK_SIZE + i < disk.len() {
                disk[j * DEFAULT_BLOCK_SIZE + i]
            } else {
                0u8
            },
    )
}

/// A stored block: a full bitmap, then the data.
pub open spec fn stored_block(data: Seq<u8>) -> Seq<u8> {
    Seq::new(512, |i: int| 0xffu8) + data
}

/// How many of the first `k` blocks of `disk` are stored: those that are not all
/// zero.
pub open spec fn stored_count(disk: Seq<u8>, k: int) -> int
    decreases k,
{
    if k <= 0 {
        0
    } else {
        stored_count(disk, k - 1) + if disk_block(disk, k - 1) == wire::zeros(
            DEFAULT_BLOCK_SIZE as int,
        ) {
            0int
        } else {
            1
        }
    }
}

/// The stored ones of the first `k` blocks of `disk`.
pub open spec fn stored_blocks(disk: Seq<u8>, k: int) -> Seq<u8>
    decreases k,
{
    if k <= 0 {
        Seq::empty()
    } else if disk_block(disk, k - 1) == wire::zeros(DEFAULT_BLOCK_SIZE as int) {
        stored_blocks(disk, k - 1)
    } else {
        stored_blocks(disk, k - 1) + stored_block(disk_block(disk, k - 1))
    }
}

/// Number of blocks of a disk.
pub open spec fn block_count(size: int) -> int {
    (size + (DEFAULT_BLOCK_SIZE - 1)) / (DEFAULT_BLOCK_SIZE as int)
}

/// The sector at which the first `k` blocks of `disk` end in a file of `n`
/// blocks.
pub open spec fn end_sector(disk: Seq<u8>, n: int, k: int) -> int {
    blocks_start(n) / (SECTOR as int) + stored_count(disk, k) * SECTORS_PER_STORED_BLOCK
}

/// The BAT of a file of `n` blocks of `disk`.
pub open spec fn bat_of(disk: Seq<u8>, n: int) -> Seq<u32> {
    Seq::new(
        n as nat,
        |j: int|
            if disk_block(disk, j) == wire::zeros(DEFAULT_BLOCK_SIZE as int) {
                HOLE
            } else {
                end_sector(disk, n, j) as u32
            },
    )
}

/// The BAT can say where the blocks of `disk` are, and be held in memory.
pub open spec fn fits_in_vhd(disk: Seq<u8>) -> bool {
    let n = block_count(disk.len() as int);
    &&& n <= u32::MAX
    &&& table_len(n) <= usize::MAX
    &&& end_sector(disk, n, n) <= u32::MAX
}

/// The dynamic VHD of `disk`, dated `secs`: footer copy, dynamic header, BAT in
/// whole sectors, the blocks that are not all zero, and the footer.
pub open spec fn vhd_bytes(disk: Seq<u8>, secs: u32) -> Seq<u8> {
    let n = block_count(disk.len() as int);
    let footer = footer_bytes(disk.len() as u64, secs);
    wire::splice(
        footer + header_bytes(n as u32) + Seq::new(table_len(n) as nat, |i: int| 0xffu8)
            + stored_blocks(disk, n) + footer,
        TABLE_OFFSET as int,
        bat_bytes_of(bat_of(disk, n)),
    )
}

/// A longer file ends later.
proof fn end_sector_grows(disk: Seq<u8>, n: int, j: int, k: int)
    requires
        0 <= j <= k,
    ensures
        end_sector(disk, n, j) <= end_sector(disk, n, k),
    decreases k - j,
{
    if j < k {
        end_sector_grows(disk, n, j, k - 1);
    }
}

/// Block `j` of `disk` is where its BAT entry says, among the stored blocks
/// `chunks` that start at `start`; a hole is all zero.
pub open spec fn block_placed(
    disk: Seq<u8>,
    j: int,
    entry: u32,
    start: int,
    chunks: Seq<u8>,
) -> bool {
    if entry == HOLE {
        disk_block(disk, j) == wire::zeros(DEFAULT_BLOCK_SIZE as int)
    } else {
        let p = entry * SECTOR - start;
        &&& 0 <= p
        &&& p + 512 + DEFAULT_BLOCK_SIZE <= chunks.len()
        &&& chunks.subrange(p, p + 512 + DEFAULT_BLOCK_SIZE) == stored_block(disk_block(disk, j))
    }
}

/// The bytes of a BAT.
pub open spec fn bat_bytes_of(bat: Seq<u32>) -> Seq<u8> {
    Seq::new(bat.len() * 4, |i: int| wire::be32(bat[i / 4])[i % 4])
}

/// What the writer says about one block.
pub enum Piece {
    /// The block is all zero: nothing is written.
    Hole,
    /// Append these bytes.
    Block(Vec<u8>),
}

/// A dynamic VHD in the making.
pub struct VhdWriter {
    pub virtual_size: u64,
    /// Creation time, in seconds since the start of 2000.
    pub secs: u32,
    pub n_blocks: u32,
    pub bat: Vec<u32>,
    pub next_sector: u32,
    /// Blocks dealt with so far.
    pub done: u32,
    /// The stored blocks given out so far.
    pub chunks: Ghost<Seq<u8>>,
}

impl VhdWriter {
    /// The first `done` blocks of `disk` are placed and the others are holes.
    pub open spec fn wf(&self, disk: Seq<u8>) -> bool {
        &&& self.virtual_size == disk.len()
        &&& (self.n_blocks - 1) * DEFAULT_BLOCK_SIZE < disk.len() <= self.n_blocks
            * DEFAULT_BLOCK_SIZE
        &&& self.bat@.len() == self.n_blocks
        &&& self.done <= self.n_blocks
        &&& table_len(self.n_blocks as int) <= usize::MAX
        &&& self.n_blocks == block_count(disk.len() as int)
        &&& self.next_sector == end_sector(disk, self.n_blocks as int, self.done as int)
        &&& self.chunks@ == stored_blocks(disk, self.done as int)
        &&& forall|j: int| 0 <= j < self.done ==> #[trigger] self.bat@[j] == bat_of(
            disk,
            self.n_blocks as int,
        )[j]
        &&& forall|j: int| self.done <= j < self.n_blocks ==> #[trigger] self.bat@[j] == HOLE
    }

    /// The head of the file: footer copy, dynamic header, and room for the BAT.
    pub open spec fn head_bytes(&self) -> Seq<u8> {
        footer_bytes(self.virtual_size, self.secs) + header_bytes(self.n_blocks) + Seq::new(
            table_len(self.n_blocks as int) as nat,
            |i: int| 0xffu8,
        )
    }

    /// The whole file: head, stored blocks, footer, and the BAT in its place.
    pub open spec fn file(&self) -> Seq<u8> {
        wire::splice(
            self.head_bytes() + self.chunks@ + footer_bytes(self.virtual_size, self.secs),
            TABLE_OFFSET as int,
            bat_bytes_of(self.bat@),
        )
    }

    /// A finished writer's file is the dynamic VHD of the disk.
    pub proof fn file_is_vhd(&self, disk: Seq<u8>)
        requires
            self.wf(disk),
            self.done == self.n_blocks,
        ensures
            self.file() == vhd_bytes(disk, self.secs),
            fits_in_vhd(disk),
    {
        assert(self.bat@ =~= bat_of(disk, self.n_blocks as int));
    }

    /// Start writing a disk of `virtual_size` bytes.
    pub fn new(virtual_size: u64, secs: u32) -> (r: Result<Self, StorageError>)
        ensures
            match r {
                Ok(w) => {
                    &&& w.done == 0
                    &&& w.secs == secs
                    &&& w.virtual_size == virtual_size
                    &&& w.chunks@ == Seq::<u8>::empty()
                    &&& forall|disk: Seq<u8>| disk.len() == virtual_size ==> #[trigger] w.wf(disk)
                },
                Err(e) => {
                    let n = block_count(virtual_size as int);
                    &&& e == StorageError::ImageTooLarge
                    &&& n > u32::MAX || table_len(n) > usize::MAX
                },
            },
    {
        // Round the virtual size up to a whole block for the BAT geometry.
        let n: u64 = if virtual_size % DEFAULT_BLOCK_SIZE as u64 == 0 {
            virtual_size / DEFAULT_BLOCK_SIZE as u64
        } else {
            virtual_size / DEFAULT_BLOCK_SIZE as u64 + 1
        };
        if n > u32::MAX as u64 {
            return Err(StorageError::ImageTooLarge);
        }
        let padded: u64 = (n * 4 + 511) / 512 * 512;
        if padded > usize::MAX as u64 {
            return Err(StorageError::ImageTooLarge);
        }
        let mut bat: Vec<u32> = Vec::new();
        while bat.len() < n as usize
            invariant
                bat@.len() <= n,
                n <= u32::MAX,
                forall|j: int| 0 <= j < bat@.len() ==> bat@[j] == HOLE,
            decreases n - bat@.len(),
        {
            bat.push(HOLE);
        }
        let start: u64 = TABLE_OFFSET + padded;
        Ok(
            VhdWriter {
                virtual_size,
                secs,
                n_blocks: n as u32,
                bat,
                next_sector: (start / SECTOR) as u32,
                done: 0,
                chunks: Ghost(Seq::empty()),
            },
        )
    }

    /// The bytes to write first.
    pub fn head(&self) -> (out: Vec<u8>)
        requires
            table_len(self.n_blocks as int) <= usize::MAX,
        ensures
            out@ == self.head_bytes(),
    {
        let mut out = build_footer(self.virtual_size, self.secs);
        let header = build_header(self.n_blocks);
        wire::push_bytes(&mut out, header.as_slice());
        let padded: u64 = (self.n_blocks as u64 * 4 + 511) / 512 * 512;
        let ghost front = out@;
        let mut i: u64 = 0;
        while i < padded
            invariant
                i <= padded,
                out@ == front + Seq::new(i as nat, |k: int| 0xffu8),
            decreases padded - i,
        {
            out.push(0xff);
            i += 1;
            assert(out@ =~= front + Seq::new(i as nat, |k: int| 0xffu8));
        }
        out
    }

    /// Deal with the next block of `source`. Blocks whose bytes are entirely
    /// zero are left unallocated, keeping the file sparse. `None` once there is
    /// no block left.
    pub fn next<B: BackingStore>(&mut self, source: &B) -> (r: Result<Option<Piece>, StorageError>)
        requires
            old(self).wf(source.content()),
        ensures
            final(self).wf(source.content()),
            final(self).virtual_size == old(self).virtual_size,
            final(self).secs == old(self).secs,
            final(self).n_blocks == old(self).n_blocks,
            match r {
                Ok(None) => old(self).done == old(self).n_blocks && *final(self) == *old(self),
                Ok(Some(piece)) => {
                    let data = disk_block(source.content(), old(self).done as int);
                    &&& old(self).done < old(self).n_blocks
                    &&& final(self).done == old(self).done + 1
                    &&& match piece {
                        Piece::Hole => {
                            &&& data == wire::zeros(DEFAULT_BLOCK_SIZE as int)
                            &&& final(self).chunks@ == old(self).chunks@
                        },
                        Piece::Block(bytes) => {
                            &&& data != wire::zeros(DEFAULT_BLOCK_SIZE as int)
                            &&& bytes@ == stored_block(data)
                            &&& final(self).chunks@ == old(self).chunks@ + bytes@
                        },
                    }
                },
                Err(e) => {
                    &&& *final(self) == *old(self)
                    &&& !storage::all_readable(source) || e == StorageError::ImageTooLarge
                        && !fits_in_vhd(source.content())
                },
            },
    {
        if self.done == self.n_blocks {
            return Ok(None);
        }
        let off: u64 = self.done as u64 * DEFAULT_BLOCK_SIZE as u64;
        let left: u64 = self.virtual_size - off;
        let this: usize = if left < DEFAULT_BLOCK_SIZE as u64 {
            left as usize
        } else {
            DEFAULT_BLOCK_SIZE as usize
        };
        // The tail stays zero when the last block is partial.
        let mut buf: Vec<u8> = wire::zeroed(DEFAULT_BLOCK_SIZE as usize);
        {
            let (part, _rest) = buf.as_mut_slice().split_at_mut(this);
            match source.read_at(off, part) {
                Ok(_) => {},
                Err(e) => {
                    return Err(e);
                },
            }
        }
        let ghost disk = source.content();
        let ghost j = self.done as int;
        assert(buf@ =~= disk_block(disk, j)) by {
            assert forall|i: int| 0 <= i < DEFAULT_BLOCK_SIZE implies buf@[i] == disk_block(disk, j)[i] by {
                if i < this {
                    assert(buf@[i] == disk.subrange(off as int, off + this)[i]);
                }
            }
        }
        if is_zero(buf.as_slice()) {
            self.done = self.done + 1;
            return Ok(Some(Piece::Hole));
        }
        if self.next_sector > u32::MAX - SECTORS_PER_STORED_BLOCK {
            proof {
                let n = self.n_blocks as int;
                end_sector_grows(disk, n, j + 1, n);
            }
            return Err(StorageError::ImageTooLarge);
        }
        let mut bytes: Vec<u8> = Vec::new();
        let mut i: usize = 0;
        while i < 512
            invariant
                i <= 512,
                bytes@ == Seq::new(i as nat, |k: int| 0xffu8),
            decreases 512 - i,
        {
            bytes.push(0xff);
            i += 1;
            assert(bytes@ =~= Seq::new(i as nat, |k: int| 0xffu8));
        }
        wire::push_bytes(&mut bytes, buf.as_slice());
        assert(bytes@ =~= stored_block(disk_block(disk, j)));
        let entry: u32 = self.next_sector;
        let ghost before = self.chunks@;
        self.bat.set(self.done as usize, entry);
        self.next_sector = self.next_sector + SECTORS_PER_STORED_BLOCK;
        self.done = self.done + 1;
        self.chunks = Ghost(before + bytes@);
        Ok(Some(Piece::Block(bytes)))
    }

    /// What to report once `next` gave `piece`.
    pub open spec fn progress_after(&self, piece: Option<Piece>) -> Option<(u64, u64)> {
        match piece {
            None => Some((self.virtual_size, self.virtual_size)),
            Some(Piece::Hole) => None,
            Some(Piece::Block(_)) => if (self.done - 1) % 256 == 0 {
                Some((((self.done - 1) * DEFAULT_BLOCK_SIZE) as u64, self.virtual_size))
            } else {
                None
            },
        }
    }

    /// What to report once `next` gave `piece`: how many bytes are dealt with, and
    /// of how many. Every 256th block is reported if it is stored, and the end
    /// always.
    pub fn progress(&self, piece: &Option<Piece>) -> (r: Option<(u64, u64)>)
        requires
            *piece is Some ==> self.done > 0,
        ensures
            r == self.progress_after(*piece),
    {
        assert(*piece is Some ==> 0 <= (self.done - 1) * DEFAULT_BLOCK_SIZE <= u64::MAX)
            by (nonlinear_arith)
            requires
                *piece is Some ==> self.done > 0,
                DEFAULT_BLOCK_SIZE == 0x20_0000,
        ;
        match piece {
            None => Some((self.virtual_size, self.virtual_size)),
            Some(Piece::Hole) => None,
            Some(Piece::Block(_)) => if (self.done - 1) % 256 == 0 {
                Some(((self.done - 1) as u64 * DEFAULT_BLOCK_SIZE as u64, self.virtual_size))
            } else {
                None
            },
        }
    }

    /// The bytes to append last.
    pub fn tail(&self) -> (out: Vec<u8>)
        ensures
            out@ == footer_bytes(self.virtual_size, self.secs),
    {
        build_footer(self.virtual_size, self.secs)
    }

    /// The BAT, to be written at `TABLE_OFFSET` now that every entry is known.
    pub fn bat_bytes(&self) -> (out: Vec<u8>)
        ensures
            out@ == bat_bytes_of(self.bat@),
    {
        let mut out: Vec<u8> = Vec::new();
        let mut i: usize = 0;
        while i < self.bat.len()
            invariant
                i <= self.bat@.len(),
                out@.len() == i * 4,
                forall|k: int| 0 <= k < i * 4 ==> #[trigger] out@[k] == wire::be32(
                    self.bat@[k / 4],
                )[k % 4],
            decreases self.bat@.len() - i,
        {
            wire::push_be32(&mut out, self.bat[i]);
            i += 1;
        }
        assert(out@ =~= bat_bytes_of(self.bat@));
        out
    }
}

/// Make a dynamic VHD of `source`'s full contents, dated `secs_since_2000`.
/// Blocks whose bytes are entirely zero are left unallocated, keeping the file
/// sparse.
pub fn write_dynamic_vhd<B: BackingStore>(source: &B, secs_since_2000: u32) -> (r: Result<
    Vec<u8>,
    StorageError,
>)
    ensures
        match r {
            Ok(file) => {
                &&& fits_in_vhd(source.content())
                &&& file@ == vhd_bytes(source.content(), secs_since_2000)
                &&& reads_as(file@, source.content())
            },
            Err(e) => !storage::all_readable(source) || e == StorageError::ImageTooLarge
                && !fits_in_vhd(source.content()),
        },
{
    let mut w = match VhdWriter::new(source.size_bytes(), secs_since_2000) {
        Ok(w) => w,
        Err(e) => {
            return Err(e);
        },
    };
    assert(w.wf(source.content()));
    let mut out = w.head();
    let ghost head = out@;
    assert(out@ =~= head + w.chunks@);
    loop
        invariant
            w.wf(source.content()),
            w.secs == secs_since_2000,
            head == w.head_bytes(),
            out@ == head + w.chunks@,
        ensures
            w.wf(source.content()),
            w.secs == secs_since_2000,
            w.done == w.n_blocks,
            head == w.head_bytes(),
            out@ == head + w.chunks@,
        decreases w.n_blocks - w.done,
    {
        let ghost before = w.chunks@;
        match w.next(source) {
            Ok(Some(Piece::Hole)) => {},
            Ok(Some(Piece::Block(bytes))) => {
                wire::push_bytes(&mut out, bytes.as_slice());
                assert(out@ =~= head + (before + bytes@));
            },
            Ok(None) => {
                break;
            },
            Err(e) => {
                return Err(e);
            },
        }
    }
    let tail = w.tail();
    wire::push_bytes(&mut out, tail.as_slice());
    let bat = w.bat_bytes();
    proof {
        built_footer_parses(w.virtual_size, w.secs);
        built_header_parses(w.n_blocks);
    }
    wire::copy_into(out.as_mut_slice(), TABLE_OFFSET as usize, bat.as_slice());
    proof {
        assert(out@ =~= w.file());
        w.file_is_vhd(source.content());
        written_disk_reads_back(source.content(), secs_since_2000);
    }
    Ok(out)
}

/// Whether all bytes are zero.
pub fn is_zero(b: &[u8]) -> (r: bool)
    ensures
        r == (b@ == wire::zeros(b@.len() as int)),
{
    let mut i: usize = 0;
    while i < b.len()
        invariant
            i <= b@.len(),
            forall|j: int| 0 <= j < i ==> b@[j] == 0,
        decreases b@.len() - i,
    {
        if b[i] != 0 {
            assert(b@[i as int] != wire::zeros(b@.len() as int)[i as int]);
            return false;
        }
        i += 1;
    }
    assert(b@ =~= wire::zeros(b@.len() as int));
    true
}

/// Where the parts of an assembled file are.
proof fn file_parts(f: Seq<u8>, h: Seq<u8>, table: Seq<u8>, c: Seq<u8>, bat: Seq<u8>)
    requires
        f.len() == 512,
        h.len() == 1024,
        bat.len() <= table.len(),
    ensures
        ({
            let file = wire::splice(f + h + table + c + f, TABLE_OFFSET as int, bat);
            &&& file.len() == 2048 + table.len() + c.len()
            &&& file.subrange(file.len() - 512, file.len() as int) == f
            &&& file.subrange(0, 512) == f
            &&& file.subrange(512, 1536) == h
            &&& forall|i: int| 0 <= i < bat.len() ==> #[trigger] file[1536 + i] == bat[i]
            &&& file.subrange(1536int + table.len(), 1536int + table.len() + c.len()) == c
        }),
{
    let file = wire::splice(f + h + table + c + f, TABLE_OFFSET as int, bat);
    assert(file.subrange(file.len() - 512, file.len() as int) =~= f);
    assert(file.subrange(0, 512) =~= f);
    assert(file.subrange(512, 1536) =~= h);
    assert(file.subrange(1536int + table.len(), 1536int + table.len() + c.len()) =~= c);
}

/// The writer's header is one that the reader accepts.
proof fn built_header_parses(n_blocks: u32)
    requires
        n_blocks * 4 <= usize::MAX,
    ensures
        header_bytes(n_blocks).len() == HEADER_LEN,
        dynamic::header_of(header_bytes(n_blocks)) == Ok::<dynamic::Header, StorageError>(
            dynamic::Header {
                table: TABLE_OFFSET,
                entries: n_blocks,
                block_size: DEFAULT_BLOCK_SIZE,
            },
        ),
{
    let sum = footer::checksum_of(header_front(n_blocks) + wire::zeros(988), 36, 40);
    let a = dynamic::header_cookie() + wire::be64(u64::MAX);
    let b = wire::be32(0x1_0000);
    let d = wire::be32(sum) + wire::zeros(984);
    assert(a.len() == 16);
    assert(a.take(8) =~= dynamic::header_cookie());
    assert(d.len() == 988);
    assert(header_bytes(n_blocks) =~= a + wire::be64(TABLE_OFFSET) + b + wire::be32(n_blocks)
        + wire::be32(DEFAULT_BLOCK_SIZE) + d);
    header_fields(a, TABLE_OFFSET, b, n_blocks, DEFAULT_BLOCK_SIZE, d);
    vstd::arithmetic::power2::lemma2_to64();
    assert(DEFAULT_BLOCK_SIZE == vstd::arithmetic::power2::pow2(21));
}

proof fn header_fields(a: Seq<u8>, x: u64, b: Seq<u8>, y: u32, z: u32, d: Seq<u8>)
    requires
        a.len() == 16,
        b.len() == 4,
        d.len() == 988,
    ensures
        ({
            let h = a + wire::be64(x) + b + wire::be32(y) + wire::be32(z) + d;
            &&& h.len() == 1024
            &&& h.take(8) == a.take(8)
            &&& wire::be64_at(h, 16) == x
            &&& wire::be32_at(h, 28) == y
            &&& wire::be32_at(h, 32) == z
        }),
{
    let h = a + wire::be64(x) + b + wire::be32(y) + wire::be32(z) + d;
    assert(h.take(8) =~= a.take(8));
    wire::be64_round_trip(x, a, b + wire::be32(y) + wire::be32(z) + d);
    assert(h =~= a + wire::be64(x) + (b + wire::be32(y) + wire::be32(z) + d));
    wire::be32_round_trip(y, a + wire::be64(x) + b, wire::be32(z) + d);
    assert(h =~= (a + wire::be64(x) + b) + wire::be32(y) + (wire::be32(z) + d));
    wire::be32_round_trip(z, a + wire::be64(x) + b + wire::be32(y), d);
    assert(h =~= (a + wire::be64(x) + b + wire::be32(y)) + wire::be32(z) + d);
}

/// A BAT written to a file reads back.
proof fn bat_reads_back(file: Seq<u8>, bat: Seq<u32>)
    requires
        forall|i: int| 0 <= i < bat.len() * 4 ==> #[trigger] file[1536 + i] == bat_bytes_of(bat)[i],
    ensures
        dynamic::bat_at(file, TABLE_OFFSET as int, bat.len() as int) == bat,
{
    assert forall|i: int| 0 <= i < bat.len() implies wire::be32_at(file, 1536 + 4 * i)
        == bat[i] by {
        assert(file[1536 + (4 * i)] == wire::be32(bat[i])[0]);
        assert(file[1536 + (4 * i + 1)] == wire::be32(bat[i])[1]);
        assert(file[1536 + (4 * i + 2)] == wire::be32(bat[i])[2]);
        assert(file[1536 + (4 * i + 3)] == wire::be32(bat[i])[3]);
        wire::be32_round_trip(bat[i], Seq::empty(), Seq::empty());
        assert(Seq::<u8>::empty() + wire::be32(bat[i]) + Seq::<u8>::empty() =~= wire::be32(bat[i]));
    }
    assert(dynamic::bat_at(file, TABLE_OFFSET as int, bat.len() as int) =~= bat);
}

/// A full bitmap byte claims every sector.
proof fn full_byte_claims(k: int)
    requires
        0 <= k < 8,
    ensures
        dynamic::bit_set(0xff, k),
{
    let m = k as u8;
    assert(m < 8 ==> 0xffu8 & (0x80u8 >> m) != 0) by (bit_vector);
}

/// One byte of a finished file reads back.
proof fn byte_reads_back(
    file: Seq<u8>,
    l: Layout,
    disk: Seq<u8>,
    start: int,
    chunks: Seq<u8>,
    i: int,
)
    requires
        l.size == disk.len(),
        l.block_size == DEFAULT_BLOCK_SIZE,
        0 <= i < disk.len(),
        disk.len() <= l.bat.len() * DEFAULT_BLOCK_SIZE,
        start + chunks.len() <= file.len(),
        0 <= start,
        file.subrange(start, start + chunks.len()) == chunks,
        block_placed(
            disk,
            i / (DEFAULT_BLOCK_SIZE as int),
            l.bat[i / (DEFAULT_BLOCK_SIZE as int)],
            start,
            chunks,
        ),
    ensures
        l.byte(file, i) == disk[i],
        l.lists(i / (SECTOR as int)),
        l.sector_data(file, i / (SECTOR as int)) matches Some(at) ==> at + i % (SECTOR as int)
            < file.len(),
{
    let j = i / (DEFAULT_BLOCK_SIZE as int);
    let within = i % (DEFAULT_BLOCK_SIZE as int);
    let sector = i / (SECTOR as int);
    let entry = l.bat[j];
    assert(dynamic::sectors_per_block(l.block_size as int) == 4096);
    assert(dynamic::bitmap_len(l.block_size as int) == 512);
    assert(sector / 4096 == j);
    assert(sector % 4096 * 512 + i % 512 == within);
    assert(disk_block(disk, j)[within] == disk[i]);
    if entry == HOLE {
        assert(wire::zeros(DEFAULT_BLOCK_SIZE as int)[within] == 0);
    } else {
        let at = entry * SECTOR;
        let p = at - start;
        let stored = stored_block(disk_block(disk, j));
        let k = l.in_block(sector);
        let piece = chunks.subrange(p, p + 512 + DEFAULT_BLOCK_SIZE);
        assert(file[at + k / 8] == chunks[p + k / 8]) by {
            assert(file.subrange(start, start + chunks.len())[p + k / 8] == chunks[p + k / 8]);
        }
        assert(piece[k / 8] == stored[k / 8]);
        full_byte_claims(k % 8);
        assert(file[at + 512 + within] == chunks[p + 512 + within]) by {
            assert(file.subrange(start, start + chunks.len())[p + 512 + within] == chunks[p + 512
                + within]);
        }
        assert(piece[512 + within] == stored[512 + within]);
        assert(stored[512 + within] == disk_block(disk, j)[within]);
    }
}

/// `file` is a dynamic VHD of `disk`, and every byte of the disk is either in a
/// hole or stored within the file.
pub open spec fn reads_as(file: Seq<u8>, disk: Seq<u8>) -> bool {
    &&& dynamic::layout_of(file) is Ok
    &&& ({
        let l = dynamic::layout_of(file)->Ok_0;
        &&& l.disk(file) == disk
        &&& forall|i: int|
            0 <= i < disk.len() ==> l.lists(#[trigger] (i / (SECTOR as int))) && (l.sector_data(
                file,
                i / (SECTOR as int),
            ) matches Some(at) ==> at + i % (SECTOR as int) < file.len())
    })
}

proof fn blocks_are_placed(disk: Seq<u8>, n: int, k: int)
    requires
        0 <= k <= n,
        end_sector(disk, n, n) <= u32::MAX,
    ensures
        stored_blocks(disk, k).len() == stored_count(disk, k) * (512 + DEFAULT_BLOCK_SIZE),
        0 <= stored_count(disk, k),
        forall|j: int| 0 <= j < k ==> block_placed(
            disk,
            j,
            #[trigger] bat_of(disk, n)[j],
            blocks_start(n),
            stored_blocks(disk, k),
        ),
    decreases k,
{
    if k > 0 {
        blocks_are_placed(disk, n, k - 1);
        let start = blocks_start(n);
        let before = stored_blocks(disk, k - 1);
        let all = stored_blocks(disk, k);
        let last = disk_block(disk, k - 1);
        end_sector_grows(disk, n, k, n);
        assert forall|j: int| 0 <= j < k implies block_placed(
            disk,
            j,
            #[trigger] bat_of(disk, n)[j],
            start,
            all,
        ) by {
            let entry = bat_of(disk, n)[j];
            if j < k - 1 {
                assert(block_placed(disk, j, entry, start, before));
                if entry != HOLE {
                    let q = entry * SECTOR - start;
                    assert(all.subrange(q, q + 512 + DEFAULT_BLOCK_SIZE) =~= before.subrange(
                        q,
                        q + 512 + DEFAULT_BLOCK_SIZE,
                    ));
                }
            } else if last != wire::zeros(DEFAULT_BLOCK_SIZE as int) {
                let q = entry * SECTOR - start;
                assert(entry == end_sector(disk, n, k - 1));
                assert(q == before.len());
                assert(all.subrange(q, q + 512 + DEFAULT_BLOCK_SIZE) =~= stored_block(last));
            }
        }
    }
}

/// A flattened disk reads back: the dynamic VHD of a disk is one, its disk is
/// that disk, and everything it stores lies within it.
pub proof fn written_disk_reads_back(disk: Seq<u8>, secs: u32)
    requires
        disk.len() <= u64::MAX,
        fits_in_vhd(disk),
    ensures
        reads_as(vhd_bytes(disk, secs), disk),
        fixed::fixed_of(vhd_bytes(disk, secs)) is Err,
        storage::format_of(vhd_bytes(disk, secs)) == storage::Format::Vhd,
{
    let size = disk.len() as u64;
    let n = block_count(disk.len() as int);
    let f = footer_bytes(size, secs);
    let h = header_bytes(n as u32);
    let table = Seq::new(table_len(n) as nat, |i: int| 0xffu8);
    built_footer_parses(size, secs);
    built_header_parses(n as u32);
    blocks_are_placed(disk, n, n);
    parts_read_back(disk, bat_of(disk, n), stored_blocks(disk, n), f, h, table);
}

/// A flattened disk is served like its source: an image that holds the dynamic
/// VHD of a disk, and can be read, opens, and as a store of that disk every
/// byte of which can be read.
pub proof fn written_disk_is_served<S: BackingStore>(
    image: S,
    disk: Seq<u8>,
    secs: u32,
    b: Backing<S>,
    e: StorageError,
)
    requires
        disk.len() <= u64::MAX,
        fits_in_vhd(disk),
        image.content() == vhd_bytes(disk, secs),
        storage::all_readable(&image),
    ensures
        !storage::refuses(image, Seq::empty(), e),
        storage::opens_as(image, Seq::empty(), b) ==> b.content() == disk && storage::all_readable(
            &b,
        ),
{
    written_disk_reads_back(disk, secs);
    if storage::opens_as(image, Seq::empty(), b) {
        let v = b->Vhd_0;
        let d = v->Dynamic_0;
        assert(d.content() == disk);
        assert forall|i: int| 0 <= i < disk.len() implies #[trigger] b.readable(i) by {
            let l = d.layout();
            assert(l.lists(i / (SECTOR as int)));
            if let Some(at) = l.sector_data(image.content(), i / (SECTOR as int)) {
                dynamic::stored_data_has_an_offset(image.content(), i / (SECTOR as int));
                assert(image.readable(at + i % (SECTOR as int)));
            }
            assert(d.readable(i));
        }
    }
}

/// Blocks that are all zero take no space: the file has the footer twice, the
/// header, the BAT in whole sectors, and 2 MiB and a bitmap for each other
/// block.
pub proof fn zero_blocks_take_no_space(disk: Seq<u8>, secs: u32)
    requires
        disk.len() <= u64::MAX,
        fits_in_vhd(disk),
    ensures
        ({
            let n = block_count(disk.len() as int);
            &&& vhd_bytes(disk, secs).len() == 2048 + table_len(n) + stored_count(disk, n) * (512
                + DEFAULT_BLOCK_SIZE)
            &&& disk == wire::zeros(disk.len() as int) ==> stored_count(disk, n) == 0
        }),
{
    let n = block_count(disk.len() as int);
    built_footer_parses(disk.len() as u64, secs);
    built_header_parses(n as u32);
    blocks_are_placed(disk, n, n);
    if disk == wire::zeros(disk.len() as int) {
        zeros_are_not_stored(disk, n);
    }
}

proof fn zeros_are_not_stored(disk: Seq<u8>, k: int)
    requires
        disk == wire::zeros(disk.len() as int),
    ensures
        stored_count(disk, k) == 0,
    decreases k,
{
    if k > 0 {
        zeros_are_not_stored(disk, k - 1);
        assert(disk_block(disk, k - 1) =~= wire::zeros(DEFAULT_BLOCK_SIZE as int));
    }
}

/// Every block of `disk` is where `bat` says.
spec fn all_placed(disk: Seq<u8>, bat: Seq<u32>, start: int, chunks: Seq<u8>) -> bool {
    forall|j: int| 0 <= j < bat.len() ==> block_placed(disk, j, #[trigger] bat[j], start, chunks)
}

/// A footer, a header and a BAT around the stored blocks are the layout of a
/// dynamic VHD.
proof fn parts_make_layout(
    file: Seq<u8>,
    f: Seq<u8>,
    h: Seq<u8>,
    disk: Seq<u8>,
    size: u64,
    bat: Seq<u32>,
    start: int,
    chunks: Seq<u8>,
)
    requires
        file.len() >= 2048,
        0 <= start,
        start + chunks.len() <= file.len(),
        TABLE_OFFSET + bat.len() * 4 <= file.len(),
        bat.len() <= u32::MAX,
        file.subrange(file.len() - 512, file.len() as int) == f,
        file.subrange(512, 1536) == h,
        dynamic::bat_at(file, TABLE_OFFSET as int, bat.len() as int) == bat,
        all_placed(disk, bat, start, chunks),
        footer::footer_of(f) == Ok::<VhdFooter, StorageError>(
            VhdFooter { data_offset: 512, current_size: size, disk_type: DISK_TYPE_DYNAMIC },
        ),
        dynamic::header_of(h) == Ok::<dynamic::Header, StorageError>(
            dynamic::Header {
                table: TABLE_OFFSET,
                entries: bat.len() as u32,
                block_size: DEFAULT_BLOCK_SIZE,
            },
        ),
    ensures
        dynamic::layout_of(file) == Ok::<Layout, Option<StorageError>>(
            Layout { size, block_size: DEFAULT_BLOCK_SIZE as u64, bat },
        ),
{
    assert(dynamic::bitmap_len(DEFAULT_BLOCK_SIZE as int) == 512);
    assert forall|k: int| 0 <= k < bat.len() && bat[k] != HOLE implies (#[trigger] bat[k]) * SECTOR
        + dynamic::bitmap_len(DEFAULT_BLOCK_SIZE as int) <= file.len() by {
        assert(block_placed(disk, k, bat[k], start, chunks));
    }
    assert(dynamic::bitmaps_fit(bat, DEFAULT_BLOCK_SIZE as int, file.len() as int));
    assert(fixed::trailing_footer(file) == footer::footer_of(f));
    assert(dynamic::layout_of(file) == dynamic::layout_under(file, h, size));
}

/// A footer, a header and a table around the stored blocks make a dynamic VHD
/// that reads back.
proof fn parts_read_back(
    disk: Seq<u8>,
    bat: Seq<u32>,
    chunks: Seq<u8>,
    f: Seq<u8>,
    h: Seq<u8>,
    table: Seq<u8>,
)
    requires
        disk.len() <= u64::MAX,
        bat.len() <= u32::MAX,
        disk.len() <= bat.len() * DEFAULT_BLOCK_SIZE,
        all_placed(disk, bat, blocks_start(bat.len() as int), chunks),
        f.len() == 512,
        h.len() == 1024,
        table.len() == table_len(bat.len() as int),
        footer::footer_of(f) == Ok::<VhdFooter, StorageError>(
            VhdFooter {
                data_offset: 512,
                current_size: disk.len() as u64,
                disk_type: DISK_TYPE_DYNAMIC,
            },
        ),
        dynamic::header_of(h) == Ok::<dynamic::Header, StorageError>(
            dynamic::Header {
                table: TABLE_OFFSET,
                entries: bat.len() as u32,
                block_size: DEFAULT_BLOCK_SIZE,
            },
        ),
    ensures
        ({
            let file = wire::splice(
                f + h + table + chunks + f,
                TABLE_OFFSET as int,
                bat_bytes_of(bat),
            );
            &&& reads_as(file, disk)
            &&& fixed::fixed_of(file) is Err
            &&& storage::format_of(file) == storage::Format::Vhd
        }),
{
    let size = disk.len() as u64;
    let file = wire::splice(f + h + table + chunks + f, TABLE_OFFSET as int, bat_bytes_of(bat));
    let start = blocks_start(bat.len() as int);
    file_parts(f, h, table, chunks, bat_bytes_of(bat));
    bat_reads_back(file, bat);
    parts_make_layout(file, f, h, disk, size, bat, start, chunks);
    placed_reads_back(file, disk, size, bat, start, chunks);
    format_by_footer(file, f);
}

/// A file with the footer of a dynamic VHD at both ends is taken for a VHD, and
/// not for a fixed one.
proof fn format_by_footer(file: Seq<u8>, f: Seq<u8>)
    requires
        file.len() >= 2048,
        file.subrange(0, 512) == f,
        file.subrange(file.len() - 512, file.len() as int) == f,
        footer::footer_of(f) matches Ok(footer) && footer.disk_type == DISK_TYPE_DYNAMIC,
    ensures
        fixed::fixed_of(file) is Err,
        storage::format_of(file) == storage::Format::Vhd,
{
    assert(file.subrange(file.len() - 512, file.len() - 504) =~= f.take(8));
    assert(file.take(8) =~= f.take(8));
    assert(footer::footer_cookie()[0] != storage::vhdx_identifier()[0]);
}

/// A disk whose blocks are all where the BAT says reads back.
proof fn placed_reads_back(
    file: Seq<u8>,
    disk: Seq<u8>,
    size: u64,
    bat: Seq<u32>,
    start: int,
    chunks: Seq<u8>,
)
    requires
        0 <= start,
        start + chunks.len() <= file.len(),
        file.subrange(start, start + chunks.len()) == chunks,
        all_placed(disk, bat, start, chunks),
        size == disk.len(),
        disk.len() <= bat.len() * DEFAULT_BLOCK_SIZE,
    ensures
        ({
            let l = Layout { size, block_size: DEFAULT_BLOCK_SIZE as u64, bat };
            &&& l.disk(file) == disk
            &&& forall|i: int|
                0 <= i < disk.len() ==> l.lists(#[trigger] (i / (SECTOR as int))) && (
                l.sector_data(file, i / (SECTOR as int)) matches Some(at) ==> at + i % (
                SECTOR as int) < file.len())
        }),
{
    let l = Layout { size, block_size: DEFAULT_BLOCK_SIZE as u64, bat };
    assert forall|i: int| 0 <= i < disk.len() implies l.byte(file, i) == disk[i] && l.lists(
        #[trigger] (i / (SECTOR as int)),
    ) && (l.sector_data(file, i / (SECTOR as int)) matches Some(at) ==> at + i % (SECTOR as int)
        < file.len()) by {
        let j = i / (DEFAULT_BLOCK_SIZE as int);
        assert(0 <= j < bat.len());
        assert(block_placed(disk, j, bat[j], start, chunks));
        byte_reads_back(file, l, disk, start, chunks, i);
    }
    assert(l.disk(file) =~= disk);
}

} // verus!
