//! Disk-image formats over images held in memory.
use xboot_core::storage::blockmap::{read_units, Unit};
use xboot_core::storage::raw::RawFile;
use xboot_core::storage::vhd::chain::{find_increments, ChainedVhd};
use xboot_core::storage::vhd::dynamic::DynamicVhd;
use xboot_core::storage::vhd::fixed::FixedVhd;
use xboot_core::storage::vhd::footer::VhdFooter;
use xboot_core::storage::vhd::probe::probe;
use xboot_core::storage::vhd::write::{
    build_footer, geometry, write_dynamic_vhd, Piece, VhdWriter,
};
use xboot_core::storage::vhd::Vhd;
use xboot_core::storage::vhdx::crc32c::crc32c;
use xboot_core::storage::vhdx::metadata::parse_metadata;
use xboot_core::storage::vhdx::structs::{
    parse_best_header, parse_one_header, parse_region_table,
};
use xboot_core::storage::vhdx::Vhdx;
use xboot_core::storage::{detect, open_backing, Backing, BackingStore, Format, StorageError};

/// An image held in memory.
struct InMemory(Vec<u8>);

impl BackingStore for InMemory {
    fn size_bytes(&self) -> u64 {
        self.0.len() as u64
    }
    fn read_at(&self, offset: u64, buf: &mut [u8]) -> Result<(), StorageError> {
        let start = offset as usize;
        match self.0.get(start..start + buf.len()) {
            Some(s) => {
                buf.copy_from_slice(s);
                Ok(())
            }
            None => Err(StorageError::Io("end of image".to_string())),
        }
    }
}

/// An image that cannot be read.
struct Broken(u64);

impl BackingStore for Broken {
    fn size_bytes(&self) -> u64 {
        self.0
    }
    fn read_at(&self, _offset: u64, _buf: &mut [u8]) -> Result<(), StorageError> {
        Err(StorageError::Io("broken disk".to_string()))
    }
}

fn read<S: BackingStore>(store: &S, offset: u64, len: usize) -> Vec<u8> {
    let mut buf = vec![0xAAu8; len];
    store.read_at(offset, &mut buf).unwrap();
    buf
}

// --- VHD images ---

fn footer_checksum(footer: &[u8; 512]) -> u32 {
    let mut sum: u32 = 0;
    for (i, &b) in footer.iter().enumerate() {
        if (64..68).contains(&i) {
            continue;
        }
        sum = sum.wrapping_add(b as u32);
    }
    !sum
}

/// `disk_type` 2 = fixed, 3 = dynamic. `data_offset` is `u64::MAX` for fixed,
/// or the dynamic-header offset.
fn footer(disk_type: u32, current_size: u64, data_offset: u64) -> [u8; 512] {
    let mut f = [0u8; 512];
    f[0..8].copy_from_slice(b"conectix");
    f[8..12].copy_from_slice(&0x0000_0002u32.to_be_bytes());
    f[12..16].copy_from_slice(&0x0001_0000u32.to_be_bytes());
    f[16..24].copy_from_slice(&data_offset.to_be_bytes());
    f[40..48].copy_from_slice(&current_size.to_be_bytes());
    f[48..56].copy_from_slice(&current_size.to_be_bytes());
    f[60..64].copy_from_slice(&disk_type.to_be_bytes());
    let cks = footer_checksum(&f);
    f[64..68].copy_from_slice(&cks.to_be_bytes());
    f
}

fn fixed_vhd(data: &[u8]) -> Vec<u8> {
    assert_eq!(data.len() % 512, 0);
    let mut out = data.to_vec();
    out.extend_from_slice(&footer(2, data.len() as u64, u64::MAX));
    out
}

/// A dynamic VHD in which block `i` is stored where `stored(i)`, with the
/// bitmap that `bitmap` gives for it.
fn sparse_vhd(
    data: &[u8],
    block_size: u32,
    stored: &dyn Fn(usize) -> bool,
    bitmap: &dyn Fn(usize) -> Vec<u8>,
) -> Vec<u8> {
    let bs = block_size as usize;
    let n_blocks = (data.len() / bs) as u32;
    let bitmap_size = (block_size / 512).div_ceil(8).div_ceil(512) * 512;
    let table_offset: u64 = 512 + 1024;
    let blocks_start = table_offset + ((n_blocks as u64) * 4).div_ceil(512) * 512;

    let mut out = Vec::new();
    out.extend_from_slice(&footer(3, data.len() as u64, 512));
    let mut hdr = [0u8; 1024];
    hdr[0..8].copy_from_slice(b"cxsparse");
    hdr[8..16].copy_from_slice(&u64::MAX.to_be_bytes());
    hdr[16..24].copy_from_slice(&table_offset.to_be_bytes());
    hdr[24..28].copy_from_slice(&0x0001_0000u32.to_be_bytes());
    hdr[28..32].copy_from_slice(&n_blocks.to_be_bytes());
    hdr[32..36].copy_from_slice(&block_size.to_be_bytes());
    out.extend_from_slice(&hdr);

    let mut next = (blocks_start / 512) as u32;
    for i in 0..n_blocks as usize {
        if stored(i) {
            out.extend_from_slice(&next.to_be_bytes());
            next += (bitmap_size + block_size) / 512;
        } else {
            out.extend_from_slice(&0xFFFF_FFFFu32.to_be_bytes());
        }
    }
    out.resize(blocks_start as usize, 0);
    for (i, chunk) in data.chunks(bs).enumerate() {
        if stored(i) {
            let mut bits = bitmap(i);
            bits.resize(bitmap_size as usize, 0);
            out.extend_from_slice(&bits);
            out.extend_from_slice(chunk);
        }
    }
    out.extend_from_slice(&footer(3, data.len() as u64, 512));
    out
}

/// A dynamic VHD of `data`: all-zero blocks are holes, the others are fully
/// present.
fn dynamic_vhd(data: &[u8], block_size: u32) -> Vec<u8> {
    let bs = block_size as usize;
    assert_eq!(data.len() % bs, 0);
    sparse_vhd(
        data,
        block_size,
        &|i| data[i * bs..(i + 1) * bs].iter().any(|&b| b != 0),
        &|_| vec![0xFF; (block_size as usize / 512).div_ceil(8)],
    )
}

/// An increment: it stores the blocks of the sectors `written`, and sets the
/// bits of those sectors alone.
fn diff_vhd(data: &[u8], block_size: u32, written: &[usize]) -> Vec<u8> {
    let per = block_size as usize / 512;
    sparse_vhd(
        data,
        block_size,
        &|i| written.iter().any(|s| s / per == i),
        &|i| {
            let mut bits = vec![0u8; per.div_ceil(8)];
            for s in written.iter().filter(|s| *s / per == i) {
                let k = s % per;
                bits[k / 8] |= 0x80 >> (k % 8);
            }
            bits
        },
    )
}

#[test]
fn fixed_has_footer_cookie_at_end() {
    let v = fixed_vhd(&[7u8; 1024]);
    assert_eq!(&v[v.len() - 512..v.len() - 512 + 8], b"conectix");
    assert_eq!(v.len(), 1024 + 512);
}

#[test]
fn dynamic_starts_with_footer_copy_and_header() {
    let v = dynamic_vhd(&[1u8; 8192], 4096);
    assert_eq!(&v[0..8], b"conectix");
    assert_eq!(&v[512..520], b"cxsparse");
}

#[test]
fn parses_fixed_footer() {
    let f = footer(2, 4096, u64::MAX);
    let parsed = VhdFooter::parse(&f).unwrap();
    assert_eq!(parsed.disk_type, 2);
    assert_eq!(parsed.current_size, 4096);
    assert_eq!(parsed.data_offset, u64::MAX);
}

#[test]
fn parses_dynamic_footer() {
    let f = footer(3, 8192, 512);
    let parsed = VhdFooter::parse(&f).unwrap();
    assert_eq!(parsed.disk_type, 3);
    assert_eq!(parsed.data_offset, 512);
}

#[test]
fn footer_rejects_bad_cookie() {
    let mut f = footer(2, 4096, u64::MAX);
    f[0] = b'X';
    assert!(VhdFooter::parse(&f).is_err());
    assert!(matches!(VhdFooter::parse(&f), Err(StorageError::FooterCookie)));
}

#[test]
fn rejects_bad_checksum() {
    let mut f = footer(2, 4096, u64::MAX);
    f[100] ^= 0xFF; // corrupt a byte the checksum covers
    assert!(VhdFooter::parse(&f).is_err());
    assert!(matches!(VhdFooter::parse(&f), Err(StorageError::FooterChecksum)));
}

#[test]
fn rejects_short_input() {
    assert!(VhdFooter::parse(&[0u8; 100]).is_err());
    assert!(matches!(VhdFooter::parse(&[0u8; 100]), Err(StorageError::FooterTooShort)));
}

// --- Raw images ---

#[test]
fn size_and_read() {
    let store = RawFile::open(InMemory(b"0123456789".to_vec()));
    assert_eq!(store.size_bytes(), 10);
    let mut buf = [0u8; 4];
    store.read_at(3, &mut buf).unwrap();
    assert_eq!(&buf, b"3456");
}

#[test]
fn raw_read_past_end_errors() {
    let store = RawFile::open(InMemory(b"abc".to_vec()));
    let mut buf = [0u8; 4];
    assert!(store.read_at(0, &mut buf).is_err());
    let e = store.read_at(0, &mut buf).unwrap_err();
    assert_eq!(e.message(), "read past end of image: 4 > 3");
    let e = store.read_at(u64::MAX, &mut buf).unwrap_err();
    assert_eq!(e.message(), "read range overflows u64");
}

// --- Fixed VHDs ---

#[test]
fn reads_data_excluding_footer() {
    let mut data = vec![0u8; 2048];
    for (i, b) in data.iter_mut().enumerate() {
        *b = (i % 251) as u8;
    }
    let store = FixedVhd::open(InMemory(fixed_vhd(&data))).ok().unwrap();
    assert_eq!(store.size_bytes(), 2048); // virtual size, footer excluded
    assert_eq!(read(&store, 0, 2048), data);
}

#[test]
fn read_past_virtual_size_errors() {
    let store = FixedVhd::open(InMemory(fixed_vhd(&[0u8; 512]))).ok().unwrap();
    let mut buf = [0u8; 513];
    assert!(store.read_at(0, &mut buf).is_err());
}

#[test]
fn fixed_and_dynamic_do_not_pass_for_each_other() {
    let dynamic = InMemory(dynamic_vhd(&[1u8; 8192], 4096));
    assert!(matches!(FixedVhd::open(dynamic).err(), Some(StorageError::NotFixed)));
    let fixed = InMemory(fixed_vhd(&[1u8; 8192]));
    assert!(matches!(DynamicVhd::open(fixed).err(), Some(StorageError::NotDynamic)));
    let tiny = InMemory(vec![0u8; 100]);
    assert!(matches!(FixedVhd::open(tiny).err(), Some(StorageError::FileTooShort)));
}

// --- Dynamic VHDs ---

/// 3 blocks of 4096; the middle block is all zero (left unallocated).
fn sample_blob() -> Vec<u8> {
    let mut data = vec![0u8; 4096 * 3];
    for i in 0..4096 {
        data[i] = (i % 251) as u8;
        data[4096 * 2 + i] = (i % 97) as u8 + 1;
    }
    data
}

#[test]
fn reads_present_and_unallocated_blocks() {
    let blob = sample_blob();
    let store = DynamicVhd::open(InMemory(dynamic_vhd(&blob, 4096))).ok().unwrap();
    assert_eq!(store.size_bytes(), blob.len() as u64);
    assert_eq!(read(&store, 0, blob.len()), blob);
    // The unallocated middle block reads as zeros.
    assert!(read(&store, 4096, 4096).iter().all(|&b| b == 0));
}

#[test]
fn read_spanning_block_boundary() {
    let blob = sample_blob();
    let store = DynamicVhd::open(InMemory(dynamic_vhd(&blob, 4096))).ok().unwrap();
    // 100 bytes straddling the block0/block1 boundary.
    assert_eq!(&read(&store, 4096 - 50, 100)[..], &blob[4096 - 50..4096 + 50]);
}

/// Reading any sub-range of a dynamic VHD equals the raw reference blob.
#[test]
fn reads_match_reference() {
    for seed in [0u64, 1, 2, 3, 0xDEAD_BEEF, u64::MAX] {
        let mut blob = vec![0u8; 4096 * 4];
        let mut x = seed | 1;
        for (i, b) in blob.iter_mut().enumerate() {
            // Zero out whole block 1 and block 3 sometimes to hit holes.
            let block = i / 4096;
            if (block == 1 && seed & 1 == 0) || (block == 3 && seed & 2 == 0) {
                continue;
            }
            x ^= x << 13;
            x ^= x >> 7;
            x ^= x << 17;
            *b = (x & 0xFF) as u8;
        }
        let store = DynamicVhd::open(InMemory(dynamic_vhd(&blob, 4096))).ok().unwrap();
        for offset in (0..4096 * 4).step_by(377) {
            for len in [0usize, 1, 17, 511] {
                let end = (offset + len).min(blob.len());
                let off = offset.min(end);
                assert_eq!(&read(&store, off as u64, end - off)[..], &blob[off..end]);
            }
        }
    }
}

#[test]
fn dynamic_header_is_checked() {
    let mut v = dynamic_vhd(&[1u8; 8192], 4096);
    v[512] = b'X';
    assert!(matches!(DynamicVhd::open(InMemory(v)).err(), Some(StorageError::HeaderCookie)));
    let mut v = dynamic_vhd(&[1u8; 8192], 4096);
    v[512 + 32..512 + 36].copy_from_slice(&0u32.to_be_bytes());
    assert!(matches!(DynamicVhd::open(InMemory(v)).err(), Some(StorageError::BlockSize)));
}

/// A table of no entries is not read, wherever it starts.
#[test]
fn an_empty_table_may_start_past_the_end() {
    let mut v = dynamic_vhd(&[], 4096);
    v[512 + 16..512 + 24].copy_from_slice(&0x1000_0000u64.to_be_bytes());
    let d = DynamicVhd::open(InMemory(v.clone())).ok().unwrap();
    assert_eq!(d.size_bytes(), 0);
    // One entry out there is one too many.
    v[512 + 28..512 + 32].copy_from_slice(&1u32.to_be_bytes());
    assert!(matches!(DynamicVhd::open(InMemory(v)).err(), Some(StorageError::Unreadable(_))));
}

// --- Increment chains ---

const BS: u32 = 4096; // 8 sectors per block

fn sector_fill(data: &mut [u8], sector: u64, byte: u8) {
    let s = sector as usize * 512;
    data[s..s + 512].fill(byte);
}

/// Two 8-sector blocks. Each increment captures whole blocks and sets bitmap
/// bits only for the sectors it explicitly wrote.
///
/// base : all 0xB0, except sector 0 = 0xB1.
/// .001 : captures block0; bit-set sector 1 = 0x11; rest of block0 = base.
/// .002 : captures block0 and block1; bit-set sector 1 = 0x22, sector 9 =
///        0x22; sector 8 (bit clear) = 0xC8.
fn build_layers() -> (Vec<u8>, Vec<u8>, Vec<u8>) {
    let mut base_data = vec![0xB0u8; BS as usize * 2];
    sector_fill(&mut base_data, 0, 0xB1);
    let mut l1 = base_data.clone();
    sector_fill(&mut l1, 1, 0x11);
    l1[BS as usize..].fill(0);
    let mut l2 = base_data.clone();
    sector_fill(&mut l2, 1, 0x22);
    sector_fill(&mut l2, 9, 0x22);
    sector_fill(&mut l2, 8, 0xC8);
    (dynamic_vhd(&base_data, BS), diff_vhd(&l1, BS, &[1]), diff_vhd(&l2, BS, &[1, 9]))
}

fn build_chain() -> ChainedVhd<Vhd<InMemory>, InMemory> {
    let (base, p1, p2) = build_layers();
    let base = Vhd::open(InMemory(base)).ok().unwrap();
    ChainedVhd::open(base, vec![InMemory(p1), InMemory(p2)]).ok().unwrap()
}

#[test]
fn newest_bit_set_layer_wins_then_base() {
    let chain = build_chain();
    // sector 0: unchanged, 0xB1
    assert!(read(&chain, 0, 512).iter().all(|&b| b == 0xB1));
    // sector 1: layer2 bit-set beats layer1
    assert!(read(&chain, 512, 512).iter().all(|&b| b == 0x22));
    // sector 9: only layer2
    assert!(read(&chain, 9 * 512, 512).iter().all(|&b| b == 0x22));
    // sector 2: unchanged, 0xB0
    assert!(read(&chain, 2 * 512, 512).iter().all(|&b| b == 0xB0));
}

#[test]
fn clear_bit_in_allocated_block_reads_block_data_not_base() {
    let chain = build_chain();
    assert!(read(&chain, 8 * 512, 512).iter().all(|&b| b == 0xC8));
}

#[test]
fn sector_in_unallocated_block_falls_through_to_base() {
    let mut base_data = vec![0xB0u8; BS as usize * 2];
    sector_fill(&mut base_data, 12, 0xBC);
    let base = Vhd::open(InMemory(dynamic_vhd(&base_data, BS))).ok().unwrap();
    // The increment captures block0 only.
    let mut l1 = base_data.clone();
    sector_fill(&mut l1, 1, 0x11);
    let p1 = InMemory(diff_vhd(&l1, BS, &[1]));
    let chain = ChainedVhd::open(base, vec![p1]).ok().unwrap();
    assert!(read(&chain, 12 * 512, 512).iter().all(|&b| b == 0xBC));
}

#[test]
fn read_spanning_layers() {
    let chain = build_chain();
    // Sectors 0..3: 0xB1 (unchanged), 0x22 (layer2 write), 0xB0 (unchanged).
    let buf = read(&chain, 0, 512 * 3);
    assert!(buf[..512].iter().all(|&b| b == 0xB1));
    assert!(buf[512..1024].iter().all(|&b| b == 0x22));
    assert!(buf[1024..].iter().all(|&b| b == 0xB0));
}

#[test]
fn size_mismatch_rejected() {
    let base = Vhd::open(InMemory(dynamic_vhd(&vec![1u8; BS as usize], BS))).ok().unwrap();
    let p1 = InMemory(diff_vhd(&vec![0u8; BS as usize * 2], BS, &[0]));
    let e = ChainedVhd::open(base, vec![p1]).err().unwrap();
    assert_eq!(e.message(), "increment 0 virtual size 8192 != base 4096");
}

/// Of two increments that do not open, the newer is reported.
#[test]
fn the_newest_faulty_increment_is_reported() {
    let base = || Vhd::open(InMemory(dynamic_vhd(&vec![1u8; BS as usize], BS))).ok().unwrap();
    let wrong_size = || InMemory(diff_vhd(&vec![0u8; BS as usize * 2], BS, &[0]));
    let no_vhd = || InMemory(vec![0u8; 1024]);
    let e = ChainedVhd::open(base(), vec![wrong_size(), no_vhd()]).err().unwrap();
    assert!(matches!(e, StorageError::FooterCookie));
    let e = ChainedVhd::open(base(), vec![no_vhd(), wrong_size()]).err().unwrap();
    assert!(matches!(e, StorageError::IncrementSize { index: 1, size: 8192, base: 4096 }));
}

fn names(list: &[&str]) -> Vec<String> {
    list.iter().map(|s| s.to_string()).collect()
}

#[test]
fn finds_increments_sorted_and_case_insensitive() {
    let dir = names(&[
        "disk.VHD",
        "disk.002.vhd",
        "DISK.001.VHD",
        "disk.010.vhd",
        "disk.other.vhd",
        "disk2.001.vhd",
        "disk.001.vhd.bak",
    ]);
    let incs = find_increments("disk", "VHD", &dir);
    let found: Vec<String> = incs.iter().map(|i| dir[*i].to_lowercase()).collect();
    assert_eq!(found, vec!["disk.001.vhd", "disk.002.vhd", "disk.010.vhd"]);
}

#[test]
fn no_increments_for_plain_image() {
    assert!(find_increments("solo", "vhd", &names(&["solo.vhd"])).is_empty());
}

#[test]
fn increments_of_a_name_outside_ascii() {
    let dir = names(&["PLATTE\u{c4}.002.vhd", "platte\u{e4}.001.VHD", "platte.001.vhd"]);
    assert_eq!(find_increments("Platte\u{c4}", "Vhd", &dir), vec![1, 0]);
}

#[test]
fn probe_reports_every_layer_newest_first() {
    let (base, p1, p2) = build_layers();
    let base = Vhd::open(InMemory(base)).ok().unwrap();
    let layers = vec![
        ("img.001.vhd".to_string(), InMemory(p1)),
        ("img.002.vhd".to_string(), InMemory(p2)),
    ];
    let s = probe(&base, layers, 9 * 512).ok().unwrap();
    let lines: Vec<&str> = s.lines().collect();
    assert_eq!(lines[0], "probe offset 4608 (sector 9):");
    assert_eq!(lines.len(), 4);
    assert!(lines[1].contains("img.002.vhd"));
    assert!(lines[1].contains("[22, 22, 22, 22, 22, 22, 22, 22]"));
    assert!(lines[2].contains("img.001.vhd"));
    assert!(lines[2].contains("----"));
    assert!(lines[3].contains("[b0, b0, b0, b0, b0, b0, b0, b0]"));
}

// --- Writing dynamic VHDs ---

/// Nonzero only in the first and third 2 MiB block.
struct PatternStore {
    size: u64,
}

impl BackingStore for PatternStore {
    fn size_bytes(&self) -> u64 {
        self.size
    }
    fn read_at(&self, offset: u64, buf: &mut [u8]) -> Result<(), StorageError> {
        for (k, b) in buf.iter_mut().enumerate() {
            let pos = offset + k as u64;
            let block = pos / (2 * 1024 * 1024);
            *b = if block == 0 || block == 2 { (pos % 251) as u8 } else { 0 };
        }
        Ok(())
    }
}

#[test]
fn round_trip_through_dynamic_vhd() {
    let size = 5 * 1024 * 1024 + 4096; // 2.x blocks, unaligned tail
    let src = PatternStore { size };
    let file = write_dynamic_vhd(&src, 12345).ok().unwrap();

    // Reopen via the normal detection path and compare every byte.
    let store = open_backing(InMemory(file), vec![]).ok().unwrap();
    assert_eq!(store.size_bytes(), size);
    let got = read(&store, 0, size as usize);
    let want = read(&src, 0, size as usize);
    assert!(got == want);
}

#[test]
fn all_zero_source_allocates_nothing() {
    let zero = InMemory(vec![0u8; 4 * 1024 * 1024]);
    let file = write_dynamic_vhd(&zero, 0).ok().unwrap();
    // Header(512+1024) + BAT(512) + footer(512) only, no data blocks.
    assert_eq!(file.len(), 512 + 1024 + 512 + 512);
    let store = open_backing(InMemory(file), vec![]).ok().unwrap();
    assert!(read(&store, 0, 4096).iter().all(|&b| b == 0));
}

/// Every 256th block is reported if it is stored, and the end always.
#[test]
fn the_writer_reports_its_progress() {
    let mb: u64 = 1024 * 1024;
    let src = InMemory(vec![1u8; 5 * mb as usize]);
    let mut w = VhdWriter::new(src.size_bytes(), 0).ok().unwrap();
    let mut reports = Vec::new();
    loop {
        let piece = w.next(&src).ok().unwrap();
        reports.push(w.progress(&piece));
        if piece.is_none() {
            break;
        }
    }
    assert_eq!(reports, vec![Some((0, 5 * mb)), None, None, Some((5 * mb, 5 * mb))]);
    let zero = InMemory(vec![0u8; 2 * mb as usize]);
    let mut w = VhdWriter::new(zero.size_bytes(), 0).ok().unwrap();
    let piece = w.next(&zero).ok().unwrap();
    assert!(matches!(piece, Some(Piece::Hole)));
    assert_eq!(w.progress(&piece), None);
}

#[test]
fn a_source_that_fails_fails_the_writer() {
    let e = write_dynamic_vhd(&Broken(4096), 0).err().unwrap();
    assert_eq!(e.message(), "broken disk");
}

#[test]
fn built_footers_parse_to_their_disk() {
    let f = build_footer(8 * 1024 * 1024, 77);
    let parsed = VhdFooter::parse(&f).unwrap();
    assert_eq!(parsed.disk_type, 3);
    assert_eq!(parsed.current_size, 8 * 1024 * 1024);
    assert_eq!(parsed.data_offset, 512);
    assert_eq!(&f[24..28], &77u32.to_be_bytes());
}

#[test]
fn geometry_of_common_sizes() {
    // 8 MiB: 17 sectors per track, 4 heads
    assert_eq!(geometry(16384), (240, 4, 17));
    // the largest that CHS can say
    assert_eq!(geometry(u64::MAX), (65535, 16, 255));
}

// --- VHDX images ---

const KIB: usize = 1024;
const MIB: u64 = 1024 * 1024;
const BLOCK_SIZE: u64 = MIB;
const BAT_GUID: [u8; 16] = [
    0x66, 0x77, 0xC2, 0x2D, 0x23, 0xF6, 0x00, 0x42, 0x9D, 0x64, 0x11, 0x5E, 0x9B, 0xFD, 0x4A, 0x08,
];
const METADATA_GUID: [u8; 16] = [
    0x06, 0xA2, 0x7C, 0x8B, 0x90, 0x47, 0x9A, 0x4B, 0xB8, 0xFE, 0x57, 0x5F, 0x05, 0x0F, 0x88, 0x6E,
];
const FILE_PARAMS_GUID: [u8; 16] = [
    0x37, 0x67, 0xA1, 0xCA, 0x36, 0xFA, 0x43, 0x4D, 0xB3, 0xB6, 0x33, 0xF0, 0xAA, 0x44, 0xE7, 0x6B,
];
const VDISK_SIZE_GUID: [u8; 16] = [
    0x24, 0x42, 0xA5, 0x2F, 0x1B, 0xCD, 0x76, 0x48, 0xB2, 0x11, 0x5D, 0xBE, 0xD8, 0x3B, 0xF4, 0xB8,
];
const LOGICAL_SECTOR_GUID: [u8; 16] = [
    0x1D, 0xBF, 0x41, 0x81, 0x6F, 0xA9, 0x09, 0x47, 0xBA, 0x47, 0xF2, 0x33, 0xA8, 0xFA, 0xAB, 0x5F,
];
const FIRST_BLOCK_OFF: u64 = 3 * MIB;

fn write_header(buf: &mut [u8], sequence: u64) {
    let h = &mut buf[..4096];
    h[0..4].copy_from_slice(b"head");
    h[8..16].copy_from_slice(&sequence.to_le_bytes());
    h[66..68].copy_from_slice(&1u16.to_le_bytes());
    let crc = crc32c(h);
    h[4..8].copy_from_slice(&crc.to_le_bytes());
}

fn write_region_table(buf: &mut [u8]) {
    let r = &mut buf[..64 * KIB];
    r[0..4].copy_from_slice(b"regi");
    r[8..12].copy_from_slice(&2u32.to_le_bytes());
    for (k, guid, off) in [(0, BAT_GUID, 2 * MIB), (1, METADATA_GUID, MIB)] {
        let e = 16 + 32 * k;
        r[e..e + 16].copy_from_slice(&guid);
        r[e + 16..e + 24].copy_from_slice(&off.to_le_bytes());
        r[e + 24..e + 28].copy_from_slice(&(MIB as u32).to_le_bytes());
        r[e + 28..e + 32].copy_from_slice(&1u32.to_le_bytes());
    }
    let crc = crc32c(r);
    r[4..8].copy_from_slice(&crc.to_le_bytes());
}

fn write_metadata(m: &mut [u8], virtual_size: u64) {
    m[0..8].copy_from_slice(b"metadata");
    m[10..12].copy_from_slice(&3u16.to_le_bytes());
    let items = [
        (FILE_PARAMS_GUID, 0x1_0000u32, 8u32),
        (VDISK_SIZE_GUID, 0x1_0010, 8),
        (LOGICAL_SECTOR_GUID, 0x1_0020, 4),
    ];
    for (k, (guid, off, len)) in items.iter().enumerate() {
        let e = 32 + k * 32;
        m[e..e + 16].copy_from_slice(guid);
        m[e + 16..e + 20].copy_from_slice(&off.to_le_bytes());
        m[e + 20..e + 24].copy_from_slice(&len.to_le_bytes());
    }
    m[0x1_0000..0x1_0004].copy_from_slice(&(BLOCK_SIZE as u32).to_le_bytes());
    m[0x1_0010..0x1_0018].copy_from_slice(&virtual_size.to_le_bytes());
    m[0x1_0020..0x1_0024].copy_from_slice(&512u32.to_le_bytes());
}

/// A dynamic VHDX of `data` (a multiple of 1 MiB). All-zero blocks are not
/// present.
fn dynamic_vhdx(data: &[u8]) -> Vec<u8> {
    assert_eq!(data.len() as u64 % BLOCK_SIZE, 0);
    let mut out = vec![0u8; FIRST_BLOCK_OFF as usize];
    out[0..8].copy_from_slice(b"vhdxfile");
    write_header(&mut out[64 * KIB..], 2);
    write_header(&mut out[128 * KIB..], 1);
    write_region_table(&mut out[192 * KIB..]);
    write_region_table(&mut out[256 * KIB..]);
    write_metadata(&mut out[MIB as usize..2 * MIB as usize], data.len() as u64);
    let mut next_off = FIRST_BLOCK_OFF;
    for (i, chunk) in data.chunks(BLOCK_SIZE as usize).enumerate() {
        if chunk.iter().all(|&b| b == 0) {
            continue;
        }
        let at = 2 * MIB as usize + i * 8;
        out[at..at + 8].copy_from_slice(&((next_off & !0xFFFFF) | 6).to_le_bytes());
        out.extend_from_slice(chunk);
        next_off += BLOCK_SIZE;
    }
    out
}

#[test]
fn has_identifier_and_header_signatures() {
    let v = dynamic_vhdx(&[1u8; BLOCK_SIZE as usize]);
    assert_eq!(&v[0..8], b"vhdxfile");
    assert_eq!(&v[64 * KIB..64 * KIB + 4], b"head");
    assert_eq!(&v[192 * KIB..192 * KIB + 4], b"regi");
}

#[test]
fn known_vectors() {
    assert_eq!(crc32c(b""), 0x0000_0000);
    assert_eq!(crc32c(b"123456789"), 0xE306_9283);
}

#[test]
fn reads_block_size_sector_and_virtual_size() {
    let img = dynamic_vhdx(&[1u8; 2 * 1024 * 1024]);
    let region = &img[1024 * 1024..2 * 1024 * 1024];
    let md = parse_metadata(region).ok().unwrap();
    assert_eq!(md.block_size, 1024 * 1024);
    assert_eq!(md.logical_sector_size, 512);
    assert_eq!(md.virtual_size, 2 * 1024 * 1024);
}

#[test]
fn rejects_bad_signature() {
    let mut region = vec![0u8; 1024 * 1024];
    region[0..8].copy_from_slice(b"NOTMETA!");
    assert!(parse_metadata(&region).is_err());
}

#[test]
fn picks_header_with_higher_sequence() {
    let img = dynamic_vhdx(&[1u8; 1024 * 1024]);
    let h1 = &img[64 * 1024..64 * 1024 + 4096];
    let h2 = &img[128 * 1024..128 * 1024 + 4096];
    let chosen = parse_best_header(h1, h2).ok().unwrap();
    assert_eq!(chosen.sequence, 2);
    assert_eq!(parse_best_header(h2, h1).ok().unwrap().sequence, 2);
}

#[test]
fn rejects_header_with_bad_crc() {
    let img = dynamic_vhdx(&[1u8; 1024 * 1024]);
    let mut h = img[64 * 1024..64 * 1024 + 4096].to_vec();
    h[100] ^= 0xFF;
    // Both copies corrupted -> no valid header.
    assert!(parse_best_header(&h, &h).is_err());
}

#[test]
fn finds_bat_and_metadata_regions() {
    let img = dynamic_vhdx(&[1u8; 1024 * 1024]);
    let rt = &img[192 * 1024..192 * 1024 + 64 * 1024];
    let regions = parse_region_table(rt).ok().unwrap();
    assert!(regions.bat.is_some());
    assert!(regions.metadata.is_some());
    let (off, _len) = regions.metadata.unwrap();
    assert_eq!(off, 1024 * 1024);
}

#[test]
fn vhdx_reads_present_and_absent_blocks() {
    let mut data = vec![0u8; 3 * MIB as usize];
    for i in 0..MIB as usize {
        data[i] = (i % 251) as u8;
        data[2 * MIB as usize + i] = (i % 97) as u8 + 1;
    }
    let store = Vhdx::open(InMemory(dynamic_vhdx(&data))).ok().unwrap();
    assert_eq!(store.size_bytes(), data.len() as u64);
    assert!(read(&store, 0, data.len()) == data);
    assert_eq!(&read(&store, MIB - 50, 100)[..], &data[MIB as usize - 50..MIB as usize + 50]);
    let mut buf = [0u8; 1];
    assert!(store.read_at(data.len() as u64, &mut buf).is_err());
}

#[test]
fn vhdx_with_a_parent_is_refused() {
    let mut img = dynamic_vhdx(&[1u8; 1024 * 1024]);
    img[MIB as usize + 0x1_0004] = 2;
    assert!(matches!(Vhdx::open(InMemory(img)).err(), Some(StorageError::HasParent)));
}

/// A header with its checksum made to fit.
fn resummed(mut part: Vec<u8>) -> Vec<u8> {
    part[4..8].fill(0);
    let crc = crc32c(&part);
    part[4..8].copy_from_slice(&crc.to_le_bytes());
    part
}

#[test]
fn vhdx_header_errors() {
    let img = dynamic_vhdx(&[1u8; 1024 * 1024]);
    let good = img[64 * KIB..64 * KIB + 4096].to_vec();
    let error_of = |change: &dyn Fn(&mut Vec<u8>)| {
        let mut h = good.clone();
        change(&mut h);
        parse_one_header(&h).unwrap_err()
    };
    assert_eq!(error_of(&|h| h[0] = 0), StorageError::VhdxHeaderSignature);
    assert_eq!(error_of(&|h| h[100] = 1), StorageError::VhdxHeaderCrc);
    assert_eq!(
        error_of(&|h| {
            h[66] = 2;
            *h = resummed(h.clone());
        }),
        StorageError::VhdxHeaderVersion
    );
    assert_eq!(
        error_of(&|h| {
            h[50] = 1;
            *h = resummed(h.clone());
        }),
        StorageError::VhdxLog
    );
    let mut bad = good.clone();
    bad[0] = 0;
    assert_eq!(parse_best_header(&bad, &bad), Err(StorageError::VhdxHeader));
    assert_eq!(parse_best_header(&bad, &good).unwrap().sequence, 2);
}

#[test]
fn vhdx_region_errors() {
    let img = dynamic_vhdx(&[1u8; 1024 * 1024]);
    let good = img[192 * KIB..256 * KIB].to_vec();
    let mut t = good.clone();
    t[0] = 0;
    assert_eq!(parse_region_table(&t).err(), Some(StorageError::RegionSignature));
    let mut t = good.clone();
    t[100] ^= 1;
    assert_eq!(parse_region_table(&t).err(), Some(StorageError::RegionCrc));
    let mut t = good.clone();
    t[8..12].copy_from_slice(&2048u32.to_le_bytes());
    assert_eq!(parse_region_table(&resummed(t)).err(), Some(StorageError::RegionCount));
    // A table without the BAT
    let mut t = good.clone();
    t[16] ^= 1;
    let mut img = img;
    img[192 * KIB..256 * KIB].copy_from_slice(&resummed(t));
    assert_eq!(Vhdx::open(InMemory(img)).err(), Some(StorageError::RegionMissing));
}

#[test]
fn vhdx_metadata_errors() {
    let img = dynamic_vhdx(&[1u8; 1024 * 1024]);
    let good = img[MIB as usize..2 * MIB as usize].to_vec();
    let error_of = |at: usize, bytes: &[u8]| {
        let mut m = good.clone();
        m[at..at + bytes.len()].copy_from_slice(bytes);
        parse_metadata(&m).err().unwrap()
    };
    assert_eq!(error_of(0, b"x"), StorageError::MetadataSignature);
    assert_eq!(error_of(10, &[0xff, 0xff]), StorageError::MetadataCount);
    assert_eq!(error_of(32 + 16, &u32::MAX.to_le_bytes()), StorageError::MetadataBounds);
    assert_eq!(error_of(32 + 20, &[7]), StorageError::FileParametersShort);
    assert_eq!(error_of(64 + 20, &[7]), StorageError::VirtualSizeShort);
    assert_eq!(error_of(96 + 20, &[3]), StorageError::SectorSizeShort);
    assert_eq!(error_of(32, &[0]), StorageError::BlockSizeMissing);
    assert_eq!(error_of(64, &[0]), StorageError::VirtualSizeMissing);
    assert_eq!(error_of(96, &[0]), StorageError::SectorSizeMissing);
    assert_eq!(error_of(0x1_0000, &[1]), StorageError::VhdxBlockSize);
    assert_eq!(error_of(0x1_0020, &[1]), StorageError::VhdxSectorSize);
}

#[test]
fn vhdx_blocks_beyond_the_bat_cannot_be_read() {
    let mut img = dynamic_vhdx(&[1u8; 2 * 1024 * 1024]);
    // A BAT region of one entry
    let mut t = img[192 * KIB..256 * KIB].to_vec();
    t[16 + 24..16 + 28].copy_from_slice(&8u32.to_le_bytes());
    img[192 * KIB..256 * KIB].copy_from_slice(&resummed(t));
    let store = Vhdx::open(InMemory(img)).ok().unwrap();
    let mut buf = [0u8; 4];
    store.read_at(MIB - 4, &mut buf).unwrap();
    assert_eq!(store.read_at(MIB - 2, &mut buf), Err(StorageError::VhdxBatShort));
}

#[test]
fn vhd_sectors_beyond_the_bat_cannot_be_read() {
    let mut img = dynamic_vhd(&[1u8; 8192], 4096);
    img[512 + 28..512 + 32].copy_from_slice(&1u32.to_be_bytes()); // one BAT entry
    let store = DynamicVhd::open(InMemory(img)).ok().unwrap();
    let mut buf = [0u8; 4];
    store.read_at(4092, &mut buf).unwrap();
    assert_eq!(store.read_at(4094, &mut buf), Err(StorageError::BeyondBat));
}

#[test]
fn a_disk_too_large_for_a_vhd_is_refused() {
    assert_eq!(write_dynamic_vhd(&Broken(u64::MAX), 0).err(), Some(StorageError::ImageTooLarge));
}

// --- Formats ---

#[test]
fn mod_trait_is_object_safe_and_usable() {
    let store: Box<dyn BackingStore> = Box::new(InMemory(vec![1, 2, 3, 4]));
    let mut buf = [0u8; 2];
    store.read_at(1, &mut buf).unwrap();
    assert_eq!(buf, [2, 3]);
    assert_eq!(store.size_bytes(), 4);
}

#[test]
fn detects_raw() {
    let store = open_backing(InMemory(vec![1u8; 2048]), vec![]).ok().unwrap();
    assert_eq!(store.size_bytes(), 2048);
    assert!(matches!(store, Backing::Raw(_)));
}

#[test]
fn detects_fixed_vhd() {
    let store = open_backing(InMemory(fixed_vhd(&[2u8; 1024])), vec![]).ok().unwrap();
    assert_eq!(store.size_bytes(), 1024);
    assert!(matches!(store, Backing::Vhd(Vhd::Fixed(_))));
}

#[test]
fn detects_dynamic_vhd() {
    let store = open_backing(InMemory(dynamic_vhd(&[3u8; 8192], 4096)), vec![]).ok().unwrap();
    assert_eq!(store.size_bytes(), 8192);
    assert!(matches!(store, Backing::Vhd(Vhd::Dynamic(_))));
}

#[test]
fn detects_vhdx() {
    let img = InMemory(dynamic_vhdx(&[4u8; 1024 * 1024]));
    assert!(matches!(detect(&img), Ok(Format::Vhdx)));
    let store = open_backing(img, vec![]).ok().unwrap();
    assert_eq!(store.size_bytes(), 1024 * 1024);
}

#[test]
fn increments_make_a_chain() {
    let (base, p1, p2) = build_layers();
    let store = open_backing(InMemory(base), vec![InMemory(p1), InMemory(p2)]).ok().unwrap();
    assert!(matches!(store, Backing::Chain(_)));
    assert!(read(&store, 512, 512).iter().all(|&b| b == 0x22));
}

#[test]
fn an_unreadable_image_is_reported() {
    let e = open_backing(Broken(4096), vec![]).err().unwrap();
    assert_eq!(e.message(), "broken disk");
}

// --- Allocation units ---

fn run(offset: u64, len: usize) -> Vec<u8> {
    // unit 0 at 0, unit 1 a hole, unit 2 at 4
    let phys = InMemory(b"AAAACCCC".to_vec());
    let mut buf = vec![0xFFu8; len];
    read_units(
        offset,
        &mut buf,
        12,
        4,
        |unit| {
            Ok(match unit {
                0 => Unit::At(0),
                1 => Unit::Zero,
                2 => Unit::At(4),
                _ => Unit::Zero,
            })
        },
        &phys,
    )
    .unwrap();
    buf
}

#[test]
fn whole_units() {
    assert_eq!(run(0, 4), b"AAAA");
    assert_eq!(run(4, 4), b"\0\0\0\0"); // the hole
    assert_eq!(run(8, 4), b"CCCC");
}

#[test]
fn spans_units_and_partial_edges() {
    // bytes 2..10 cross unit0 -> unit1(hole) -> unit2
    assert_eq!(run(2, 8), b"AA\0\0\0\0CC");
}

#[test]
fn zero_unit_size_errors() {
    let mut buf = [0u8; 1];
    let r = read_units(0, &mut buf, 12, 0, |_| Ok(Unit::Zero), &InMemory(vec![]));
    assert!(r.is_err());
    assert_eq!(r.unwrap_err().message(), "unit_size must be non-zero");
}

#[test]
fn blockmap_read_past_end_errors() {
    let mut buf = [0u8; 4];
    let r = read_units(10, &mut buf, 12, 4, |_| Ok(Unit::Zero), &InMemory(vec![]));
    assert!(r.is_err());
    assert_eq!(r.unwrap_err().message(), "read past end of image: 14 > 12");
}

/// What is refused before anything is read leaves the buffer alone.
#[test]
fn a_refused_read_leaves_the_buffer() {
    let mut buf = [9u8; 4];
    assert!(read_units(0, &mut buf, 12, 0, |_| Ok(Unit::Zero), &InMemory(vec![])).is_err());
    assert_eq!(buf, [9; 4]);
    assert!(read_units(10, &mut buf, 12, 4, |_| Ok(Unit::Zero), &InMemory(vec![])).is_err());
    assert_eq!(buf, [9; 4]);
    assert!(read_units(8, &mut buf, 12, 4, |_| Ok(Unit::Zero), &InMemory(vec![])).is_ok());
    assert_eq!(buf, [0; 4]);
}
