//! What is in a VHD that is written, by the bytes of the file.
use vstd::prelude::*;
use crate::wire;

verus! {

/// The sectors that the geometry of a disk describes: all of it, up to the
/// greatest geometry there is.
pub open spec fn described(total: int) -> int {
    if total < 65535 * 16 * 255 {
        total
    } else {
        65535int * 16 * 255
    }
}

/// The sectors in `c` cylinders.
pub open spec fn cylinders(c: int, h: int, s: int) -> int {
    c * (h * s)
}

proof fn two_divisions(ts: int, s: int, h: int)
    requires
        0 <= ts,
        0 < s,
        0 < h,
    ensures
        cylinders(ts / s / h, h, s) <= ts,
        ts < cylinders(ts / s / h + 1, h, s),
{
    vstd::arithmetic::div_mod::lemma_div_denominator(ts, s, h);
    let d = s * h;
    assert(d > 0 && d == h * s) by (nonlinear_arith)
        requires
            d == s * h,
            s > 0,
            h > 0,
    ;
    let c = ts / d;
    vstd::arithmetic::div_mod::lemma_fundamental_div_mod(ts, d);
    vstd::arithmetic::div_mod::lemma_mod_bound(ts, d);
    assert(d * c == c * d && (c + 1) * d == c * d + d) by (nonlinear_arith);
}

/// The geometry counts whole cylinders of the disk: not one more would fit. A
/// track has 17 sectors where up to 16 heads do with fewer than 1024 cylinders,
/// and then the fewest heads from 4 up are taken; else 31, 63 or 255 with 16
/// heads, each where the one before it is too few.
pub proof fn geometry_covers_the_disk(total: int)
    requires
        0 <= total,
    ensures
        ({
            let ts = described(total);
            let (c, h, s) = super::write::chs(total);
            &&& cylinders(c, h, s) <= ts < cylinders(c + 1, h, s)
            &&& 0 <= c <= 65535
            &&& s == 17 || s == 31 || s == 63 || s == 255
            &&& s == 17 ==> 4 <= h <= 16 && ts / 17 < h * 1024 && (h > 4 ==> (h - 1) * 1024 < ts
                / 17)
            &&& s != 17 ==> h == 16
            &&& s == 255 <==> ts >= 65535 * 16 * 63
            &&& s == 17 <==> ts / 17 < 16384 && (ts / 17 < 4096 || ts / 17 % 1024 != 0)
            &&& s == 63 ==> ts / 31 >= 16384
            &&& s == 31 ==> ts / 31 < 16384
        }),
{
    let ts = described(total);
    let (c, h, s) = super::write::chs(total);
    two_divisions(ts, s, h);
    if s == 255 {
        two_divisions(ts, 255, 16);
    }
}

/// `b` holds the number `n` in the `len` bytes at `at`, most significant first.
pub open spec fn has(b: Seq<u8>, at: int, len: int, n: int) -> bool {
    wire::number(b.subrange(at, at + len)) == n
}

proof fn front_fields(size: u64, secs: u32)
    ensures
        ({
            let f = super::write::footer_front(size, secs);
            let g = super::write::chs(size as int / 512);
            &&& f.len() == 64
            &&& has(f, 8, 4, 2)
            &&& has(f, 12, 4, 0x1_0000)
            &&& has(f, 16, 8, 512)
            &&& has(f, 24, 4, secs as int)
            &&& f.subrange(28, 32) == seq![0x78u8, 0x62, 0x6f, 0x74]
            &&& has(f, 32, 4, 0x1_0000)
            &&& f.subrange(36, 40) == seq![0x57u8, 0x69, 0x32, 0x6b]
            &&& has(f, 40, 8, size as int)
            &&& has(f, 48, 8, size as int)
            &&& has(f, 56, 2, g.0)
            &&& f[58] == g.1
            &&& f[59] == g.2
            &&& has(f, 60, 4, 3)
        }),
{
    let f = super::write::footer_front(size, secs);
    let g = super::write::chs(size as int / 512);
    geometry_covers_the_disk(size as int / 512);
    wire::bytes_spell_the_integer(g.0 as u16, 0, 2, 512);
    wire::bytes_spell_the_integer(0, 0, 0x1_0000, size);
    wire::bytes_spell_the_integer(0, 0, secs, 0);
    wire::bytes_spell_the_integer(0, 0, 3, 0);
    assert(f.subrange(8, 12) =~= wire::be32(2));
    assert(f.subrange(12, 16) =~= wire::be32(0x1_0000));
    assert(f.subrange(16, 24) =~= wire::be64(512));
    assert(f.subrange(24, 28) =~= wire::be32(secs));
    assert(f.subrange(28, 32) =~= seq![0x78u8, 0x62, 0x6f, 0x74]);
    assert(f.subrange(32, 36) =~= wire::be32(0x1_0000));
    assert(f.subrange(36, 40) =~= seq![0x57u8, 0x69, 0x32, 0x6b]);
    assert(f.subrange(40, 48) =~= wire::be64(size));
    assert(f.subrange(48, 56) =~= wire::be64(size));
    assert(f.subrange(56, 58) =~= wire::be16(g.0 as u16));
    assert(f.subrange(60, 64) =~= wire::be32(3));
}

/// The fields of a footer that is written: `conectix`, the reserved feature and
/// version 1.0, the header at 512, the time, the creator `xbot` on `Wi2k`, the
/// size twice, the geometry, and type 3.
pub proof fn footer_fields(size: u64, secs: u32)
    ensures
        ({
            let f = super::write::footer_bytes(size, secs);
            let g = super::write::chs(size as int / 512);
            &&& f.len() == 512
            &&& has(f, 8, 4, 2)
            &&& has(f, 12, 4, 0x1_0000)
            &&& has(f, 16, 8, 512)
            &&& has(f, 24, 4, secs as int)
            &&& f.subrange(28, 32) == seq![0x78u8, 0x62, 0x6f, 0x74]
            &&& has(f, 32, 4, 0x1_0000)
            &&& f.subrange(36, 40) == seq![0x57u8, 0x69, 0x32, 0x6b]
            &&& has(f, 40, 8, size as int)
            &&& has(f, 48, 8, size as int)
            &&& has(f, 56, 2, g.0)
            &&& f[58] == g.1
            &&& f[59] == g.2
            &&& has(f, 60, 4, 3)
        }),
{
    super::write::built_footer_parses(size, secs);
    front_fields(size, secs);
    let f = super::write::footer_bytes(size, secs);
    let front = super::write::footer_front(size, secs);
    assert(f.take(64) =~= front);
    assert forall|a: int, b: int| 0 <= a <= b <= 64 implies #[trigger] f.subrange(a, b)
        == front.subrange(a, b) by {
        assert(f.subrange(a, b) =~= front.subrange(a, b));
    }
    assert(f[58] == front[58] && f[59] == front[59]);
}

/// The fields of a header that is written: `cxsparse`, nothing further, the
/// table at 1536, version 1.0, the number of blocks, and blocks of 2 MiB.
pub proof fn header_fields(n: u32)
    ensures
        ({
            let h = super::write::header_bytes(n);
            &&& h.len() == 1024
            &&& h.take(8) == seq![0x63u8, 0x78, 0x73, 0x70, 0x61, 0x72, 0x73, 0x65]
            &&& has(h, 8, 8, 0xffff_ffff_ffff_ffff)
            &&& has(h, 16, 8, 1536)
            &&& has(h, 24, 4, 0x1_0000)
            &&& has(h, 28, 4, n as int)
            &&& has(h, 32, 4, 0x20_0000)
        }),
{
    let h = super::write::header_bytes(n);
    wire::bytes_spell_the_integer(0, 0, n, 0xffff_ffff_ffff_ffff);
    wire::bytes_spell_the_integer(0, 0, 0x1_0000, 1536);
    wire::bytes_spell_the_integer(0, 0, 0x20_0000, 0);
    assert(h.take(8) =~= seq![0x63u8, 0x78, 0x73, 0x70, 0x61, 0x72, 0x73, 0x65]);
    assert(h.subrange(8, 16) =~= wire::be64(0xffff_ffff_ffff_ffff));
    assert(h.subrange(16, 24) =~= wire::be64(1536));
    assert(h.subrange(24, 28) =~= wire::be32(0x1_0000));
    assert(h.subrange(28, 32) =~= wire::be32(n));
    assert(h.subrange(32, 36) =~= wire::be32(0x20_0000));
}

/// A file that is written starts and ends with its footer, and has its header
/// between the first and the table.
pub proof fn footer_is_at_both_ends(disk: Seq<u8>, secs: u32)
    requires
        super::write::fits_in_vhd(disk),
        disk.len() <= u64::MAX,
    ensures
        ({
            let file = super::write::vhd_bytes(disk, secs);
            let n = super::write::block_count(disk.len() as int);
            &&& file.len() >= 2048
            &&& n * 0x20_0000 >= disk.len() > (n - 1) * 0x20_0000
            &&& file.take(512) == super::write::footer_bytes(disk.len() as u64, secs)
            &&& file.subrange(512, 1536) == super::write::header_bytes(n as u32)
            &&& file.skip(file.len() - 512) == super::write::footer_bytes(disk.len() as u64, secs)
        }),
{
    let file = super::write::vhd_bytes(disk, secs);
    let n = super::write::block_count(disk.len() as int);
    let f = super::write::footer_bytes(disk.len() as u64, secs);
    footer_fields(disk.len() as u64, secs);
    header_fields(n as u32);
    assert(super::write::table_len(n) >= n * 4);
    assert(file.take(512) =~= f);
    assert(file.subrange(512, 1536) =~= super::write::header_bytes(n as u32));
    assert(file.skip(file.len() - 512) =~= f);
}

/// Progress is reported for the first and then every 256th block that is stored,
/// with the bytes of the disk before it, and at the end for the whole disk.
pub proof fn progress_counts_bytes(w: super::write::VhdWriter, bytes: Vec<u8>, k: int)
    requires
        w.done == 256 * k + 1,
    ensures
        w.progress_after(None) == Some((w.virtual_size, w.virtual_size)),
        w.progress_after(Some(super::write::Piece::Hole)) is None,
        w.progress_after(Some(super::write::Piece::Block(bytes))) matches Some((done, all)) && done
            == k * 256 * 0x20_0000 && all == w.virtual_size,
        forall|other: super::write::VhdWriter|
            256 * k + 1 < other.done <= 256 * k + 256 ==> (
            #[trigger] other.progress_after(Some(super::write::Piece::Block(bytes)))) is None,
{
}

} // verus!
