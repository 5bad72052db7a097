//! Where a VHDX keeps its disk, by the bytes of the image.
use vstd::prelude::*;
use super::crc32c;
use super::metadata;
use super::metadata::VhdxMetadata;
use super::structs;
use super::{Vhdx, VhdxLayout};
use crate::storage::{BackingStore, StorageError};
use crate::wire;

verus! {

/// Entry `j` of a table of 32-byte entries at `base` starts with `id`.
pub open spec fn names(table: Seq<u8>, base: int, j: int, id: Seq<u8>) -> bool {
    table.subrange(base + 32 * j, base + 32 * j + 16) == id
}

/// Entry `k` is the last of the `n` entries that starts with `id`.
pub open spec fn is_last(table: Seq<u8>, base: int, n: int, k: int, id: Seq<u8>) -> bool {
    &&& 0 <= k < n
    &&& names(table, base, k, id)
    &&& forall|j: int| k < j < n ==> !#[trigger] names(table, base, j, id)
}

/// The number that the `n` bytes at `at` spell, least significant first.
pub open spec fn field(s: Seq<u8>, at: int, n: int) -> int {
    wire::number_le(s.subrange(at, at + n))
}

/// What names the region of the BAT.
pub open spec fn bat_id() -> Seq<u8> {
    seq![
        0x66, 0x77, 0xC2, 0x2D, 0x23, 0xF6, 0x00, 0x42,
        0x9D, 0x64, 0x11, 0x5E, 0x9B, 0xFD, 0x4A, 0x08,
    ]
}

/// What names the region of the metadata.
pub open spec fn metadata_id() -> Seq<u8> {
    seq![
        0x06, 0xA2, 0x7C, 0x8B, 0x90, 0x47, 0x9A, 0x4B,
        0xB8, 0xFE, 0x57, 0x5F, 0x05, 0x0F, 0x88, 0x6E,
    ]
}

/// What names the item with the block size.
pub open spec fn parameters_id() -> Seq<u8> {
    seq![
        0x37, 0x67, 0xA1, 0xCA, 0x36, 0xFA, 0x43, 0x4D,
        0xB3, 0xB6, 0x33, 0xF0, 0xAA, 0x44, 0xE7, 0x6B,
    ]
}

/// What names the item with the size of the disk.
pub open spec fn size_id() -> Seq<u8> {
    seq![
        0x24, 0x42, 0xA5, 0x2F, 0x1B, 0xCD, 0x76, 0x48,
        0xB2, 0x11, 0x5D, 0xBE, 0xD8, 0x3B, 0xF4, 0xB8,
    ]
}

/// What names the item with the sector size.
pub open spec fn sector_id() -> Seq<u8> {
    seq![
        0x1D, 0xBF, 0x41, 0x81, 0x6F, 0xA9, 0x09, 0x47,
        0xBA, 0x47, 0xF2, 0x33, 0xA8, 0xFA, 0xAB, 0x5F,
    ]
}

/// The disk is as long as the layout says. With the BAT entries of every
/// `chunk_ratio` blocks stands one more entry, so block `b`, in the chunk `c`,
/// has entry `b + c`. A block whose entry ends in the bits 110 lies at the
/// multiple of a MiB that the entry names; any other is all zero.
pub proof fn disk_is_where_the_table_says(
    l: VhdxLayout,
    img: Seq<u8>,
    i: int,
    b: int,
    c: int,
    mib: int,
    low: int,
)
    requires
        l.block_size > 0,
        l.chunk_ratio > 0,
        0 <= i < l.virtual_size,
        b * l.block_size <= i < b * l.block_size + l.block_size,
        c * l.chunk_ratio <= b < c * l.chunk_ratio + l.chunk_ratio,
        l.bat[b + c] == mib * 0x10_0000 + low,
        0 <= low < 0x10_0000,
    ensures
        l.disk(img).len() == l.virtual_size,
        low % 8 == 6 ==> l.disk(img)[i] == img[mib * 0x10_0000 + (i - b * l.block_size)],
        low % 8 != 6 ==> l.disk(img)[i] == 0,
{
    vstd::arithmetic::div_mod::lemma_fundamental_div_mod_converse(
        i,
        l.block_size as int,
        b,
        i - b * l.block_size,
    );
    vstd::arithmetic::div_mod::lemma_fundamental_div_mod_converse(
        b,
        l.chunk_ratio as int,
        c,
        b - c * l.chunk_ratio,
    );
    assert(b * l.block_size == l.block_size * b) by (nonlinear_arith);
    assert(c * l.chunk_ratio == l.chunk_ratio * c) by (nonlinear_arith);
    assert(l.bat[b + c] % 8 == low % 8);
}

proof fn region_of_last(rt: Seq<u8>, guid: Seq<u8>, n: int, k: int)
    requires
        is_last(rt, 16, n, k, guid),
    ensures
        structs::region(rt, guid, n) == Some(
            (wire::le64_at(rt, 32 + 32 * k), wire::le32_at(rt, 40 + 32 * k) as u64),
        ),
    decreases n,
{
    assert(names(rt, 16, n - 1, guid) == (n - 1 == k));
    if n - 1 > k {
        region_of_last(rt, guid, n - 1, k);
    }
}

proof fn last_of_region(rt: Seq<u8>, guid: Seq<u8>, n: int) -> (k: int)
    requires
        structs::region(rt, guid, n) is Some,
    ensures
        is_last(rt, 16, n, k, guid),
    decreases n,
{
    if names(rt, 16, n - 1, guid) {
        n - 1
    } else {
        last_of_region(rt, guid, n - 1)
    }
}

/// The region table of an image: the 64 KiB at 192 KiB.
pub open spec fn table_of(img: Seq<u8>) -> Seq<u8> {
    img.subrange(0x3_0000, 0x4_0000)
}

/// `n` bytes of the image from where entry `k` of its region table says.
pub open spec fn region_bytes(img: Seq<u8>, k: int) -> Seq<u8> {
    let at = field(table_of(img), 32 + 32 * k, 8);
    img.subrange(at, at + field(table_of(img), 40 + 32 * k, 4))
}

/// An image that opens names the regions of its BAT and its metadata; where
/// names occur more than once, the last entry counts. The BAT holds as many
/// 64-bit entries as its region has room for.
pub proof fn regions_are_in_the_image(img: Seq<u8>, l: VhdxLayout) -> (ks: (int, int))
    requires
        super::layout_of(img) == Ok::<VhdxLayout, Option<StorageError>>(l),
    ensures
        img.len() >= 0x4_0000,
        table_of(img).take(4) == seq![0x72u8, 0x65, 0x67, 0x69],
        is_last(table_of(img), 16, field(table_of(img), 8, 4), ks.0, bat_id()),
        is_last(table_of(img), 16, field(table_of(img), 8, 4), ks.1, metadata_id()),
        l.bat.len() == field(table_of(img), 40 + 32 * ks.0, 4) / 8,
        forall|j: int|
            0 <= j < l.bat.len() ==> #[trigger] l.bat[j] == field(
                img,
                field(table_of(img), 32 + 32 * ks.0, 8) + 8 * j,
                8,
            ),
        metadata::metadata_of(region_bytes(img, ks.1)) matches Ok(m) && {
            &&& l.block_size == m.block_size
            &&& l.virtual_size == m.virtual_size
            &&& l.chunk_ratio * m.block_size <= 0x80_0000 * m.logical_sector_size
            &&& 0x80_0000 * m.logical_sector_size < l.chunk_ratio * m.block_size + m.block_size
        },
{
    let rt = table_of(img);
    let n = wire::le32_at(rt, 8) as int;
    wire::le32_at_is_number(rt, 8);
    assert(structs::bat_guid() =~= bat_id());
    assert(structs::metadata_guid() =~= metadata_id());
    let kb = last_of_region(rt, structs::bat_guid(), n);
    let km = last_of_region(rt, structs::metadata_guid(), n);
    region_of_last(rt, structs::bat_guid(), n, kb);
    region_of_last(rt, structs::metadata_guid(), n, km);
    wire::le64_at_is_number(rt, 32 + 32 * kb);
    wire::le32_at_is_number(rt, 40 + 32 * kb);
    wire::le64_at_is_number(rt, 32 + 32 * km);
    wire::le32_at_is_number(rt, 40 + 32 * km);
    let at = wire::le64_at(rt, 32 + 32 * kb) as int;
    assert forall|j: int| 0 <= j < l.bat.len() implies #[trigger] l.bat[j] == field(
        img,
        at + 8 * j,
        8,
    ) by {
        wire::le64_at_is_number(img, at + 8 * j);
    }
    let from = wire::le64_at(rt, 32 + 32 * km) as int;
    let len = wire::le32_at(rt, 40 + 32 * km) as int;
    if len == 0 {
        assert(metadata::metadata_of(super::part_at(img, from, 0)) is Err);
    }
    assert(region_bytes(img, km) == super::part_at(img, from, len));
    let region = region_bytes(img, km);
    let m = metadata::metadata_of(region)->Ok_0;
    super::metadata_bounds(region, m);
    let whole = 0x80_0000 * m.logical_sector_size as int;
    let bs = m.block_size as int;
    vstd::arithmetic::div_mod::lemma_fundamental_div_mod(whole, bs);
    vstd::arithmetic::div_mod::lemma_mod_bound(whole, bs);
    let q = whole / bs;
    assert(q <= whole) by {
        vstd::arithmetic::div_mod::lemma_div_is_ordered_by_denominator(whole, 1, bs);
    }
    assert(bs * q == q * bs) by (nonlinear_arith);
    (kb, km)
}

/// Where an item of the metadata is: the offset in its entry.
pub open spec fn item_at(region: Seq<u8>, k: int) -> int {
    field(region, 48 + 32 * k, 4)
}

proof fn items_of_last(region: Seq<u8>, n: int, k: int)
    requires
        metadata::items_in(region, n) is Ok,
        0 <= k < n,
    ensures
        ({
            let items = metadata::items_in(region, n)->Ok_0;
            let off = wire::le32_at(region, 48 + 32 * k) as int;
            let len = wire::le32_at(region, 52 + 32 * k) as int;
            &&& off + len <= region.len()
            &&& names(region, 32, k, metadata::file_params_guid()) ==> len >= 8
                && wire::le32_at(region, off + 4) & 2 == 0
            &&& names(region, 32, k, metadata::vdisk_size_guid()) ==> len >= 8
            &&& names(region, 32, k, metadata::logical_sector_guid()) ==> len >= 4
            &&& is_last(region, 32, n, k, metadata::file_params_guid()) ==> items.block_size
                == Some(wire::le32_at(region, off) as u64)
            &&& is_last(region, 32, n, k, metadata::vdisk_size_guid()) ==> items.virtual_size
                == Some(wire::le64_at(region, off))
            &&& is_last(region, 32, n, k, metadata::logical_sector_guid())
                ==> items.logical_sector_size == Some(wire::le32_at(region, off) as u64)
        }),
    decreases n,
{
    assert(metadata::file_params_guid()[0] != metadata::vdisk_size_guid()[0]);
    assert(metadata::file_params_guid()[0] != metadata::logical_sector_guid()[0]);
    assert(metadata::vdisk_size_guid()[0] != metadata::logical_sector_guid()[0]);
    assert(names(region, 32, n - 1, metadata::file_params_guid()) == (region.subrange(
        32 + (n - 1) * 32,
        32 + (n - 1) * 32 + 16,
    ) == metadata::file_params_guid()));
    assert(names(region, 32, n - 1, metadata::vdisk_size_guid()) == (region.subrange(
        32 + (n - 1) * 32,
        32 + (n - 1) * 32 + 16,
    ) == metadata::vdisk_size_guid()));
    assert(names(region, 32, n - 1, metadata::logical_sector_guid()) == (region.subrange(
        32 + (n - 1) * 32,
        32 + (n - 1) * 32 + 16,
    ) == metadata::logical_sector_guid()));
    if k < n - 1 {
        items_of_last(region, n - 1, k);
        last_of_fewer(region, 32, n, k, metadata::file_params_guid());
        last_of_fewer(region, 32, n, k, metadata::vdisk_size_guid());
        last_of_fewer(region, 32, n, k, metadata::logical_sector_guid());
    }
}

proof fn last_of_fewer(table: Seq<u8>, base: int, n: int, k: int, id: Seq<u8>)
    requires
        k < n - 1,
    ensures
        is_last(table, base, n, k, id) ==> is_last(table, base, n - 1, k, id) && !names(
            table,
            base,
            n - 1,
            id,
        ),
{
}

/// The metadata of a region is in the items that its table names; the last item
/// of a kind counts. A disk with a parent, bit 1 of the second word of the file
/// parameters, has no metadata here.
pub proof fn metadata_is_in_the_items(region: Seq<u8>, m: VhdxMetadata, k: int)
    requires
        metadata::metadata_of(region) == Ok::<VhdxMetadata, StorageError>(m),
        0 <= k < field(region, 10, 2),
    ensures
        region.take(8) == seq![0x6du8, 0x65, 0x74, 0x61, 0x64, 0x61, 0x74, 0x61],
        item_at(region, k) + field(region, 52 + 32 * k, 4) <= region.len(),
        names(region, 32, k, parameters_id()) ==> field(region, item_at(region, k) + 4, 4) / 2 % 2
            == 0,
        is_last(region, 32, field(region, 10, 2), k, parameters_id()) ==> m.block_size == field(
            region,
            item_at(region, k),
            4,
        ),
        is_last(region, 32, field(region, 10, 2), k, size_id()) ==> m.virtual_size == field(
            region,
            item_at(region, k),
            8,
        ),
        is_last(region, 32, field(region, 10, 2), k, sector_id()) ==> m.logical_sector_size
            == field(region, item_at(region, k), 4),
{
    wire::le16_at_is_number(region, 10);
    let n = wire::le16_at(region, 10) as int;
    assert(metadata::file_params_guid() =~= parameters_id());
    assert(metadata::vdisk_size_guid() =~= size_id());
    assert(metadata::logical_sector_guid() =~= sector_id());
    items_of_last(region, n, k);
    wire::le32_at_is_number(region, 48 + 32 * k);
    wire::le32_at_is_number(region, 52 + 32 * k);
    let off = wire::le32_at(region, 48 + 32 * k) as int;
    if names(region, 32, k, parameters_id()) {
        wire::le32_at_is_number(region, off);
        wire::le32_at_is_number(region, off + 4);
        let flags = wire::le32_at(region, off + 4);
        assert(flags & 2 == 0 ==> flags / 2 % 2 == 0) by (bit_vector);
    }
    if names(region, 32, k, size_id()) {
        wire::le64_at_is_number(region, off);
    }
    if names(region, 32, k, sector_id()) {
        wire::le32_at_is_number(region, off);
    }
}

/// `h` is a header: `head`, its CRC with the CRC itself left out, version 1, and
/// no log.
pub open spec fn is_header(h: Seq<u8>) -> bool {
    &&& h.len() == 4096
    &&& h[0] == 0x68 && h[1] == 0x65 && h[2] == 0x61 && h[3] == 0x64
    &&& crc32c::crc_of(h.take(4) + seq![0u8, 0, 0, 0] + h.skip(8)) == field(h, 4, 4)
    &&& field(h, 66, 2) == 1
    &&& forall|i: int| 48 <= i < 64 ==> #[trigger] h[i] == 0
}

/// What parses as a header is one, and gives its sequence number.
pub proof fn headers_are_told(h: Seq<u8>)
    requires
        h.len() == 4096,
    ensures
        structs::header_of(h) is Ok <==> is_header(h),
        structs::header_of(h) matches Ok(v) ==> v.sequence == field(h, 8, 8),
{
    wire::le32_at_is_number(h, 4);
    wire::le64_at_is_number(h, 8);
    wire::le16_at_is_number(h, 66);
    assert(h.take(4096) =~= h);
    assert(structs::unsummed(h) =~= h.take(4) + seq![0u8, 0, 0, 0] + h.skip(8));
    let head = seq![0x68u8, 0x65, 0x61, 0x64];
    assert(h.take(4) == head <==> h[0] == 0x68 && h[1] == 0x65 && h[2] == 0x61 && h[3] == 0x64)
        by {
        if h[0] == 0x68 && h[1] == 0x65 && h[2] == 0x61 && h[3] == 0x64 {
            assert(h.take(4) =~= head);
        }
        if h.take(4) == head {
            assert(h.take(4)[0] == h[0] && h.take(4)[1] == h[1] && h.take(4)[2] == h[2] && h.take(
                4,
            )[3] == h[3]);
        }
    }
    let log = h.subrange(48, 64);
    if log == wire::zeros(16) {
        assert forall|i: int| 48 <= i < 64 implies #[trigger] h[i] == 0 by {
            assert(log[i - 48] == h[i]);
        }
    }
    if forall|i: int| 48 <= i < 64 ==> #[trigger] h[i] == 0 {
        assert(log =~= wire::zeros(16));
    }
}

/// Of two headers the valid one with the greater sequence number counts; with
/// none there is nothing to open.
pub proof fn greater_sequence_counts(a: Seq<u8>, b: Seq<u8>)
    requires
        a.len() == 4096,
        b.len() == 4096,
    ensures
        match structs::best_header(a, b) {
            Ok(v) => {
                &&& is_header(a) ==> v.sequence >= field(a, 8, 8)
                &&& is_header(b) ==> v.sequence >= field(b, 8, 8)
                &&& is_header(a) && v.sequence == field(a, 8, 8) || is_header(b) && v.sequence
                    == field(b, 8, 8)
            },
            Err(e) => e is VhdxHeader && !is_header(a) && !is_header(b),
        },
{
    headers_are_told(a);
    headers_are_told(b);
}

/// An image opens only with a valid header at 64 KiB or at 128 KiB, and one of
/// sufficient size without any is refused for that.
pub proof fn header_is_needed(img: Seq<u8>)
    requires
        img.len() >= 0x2_1000,
    ensures
        !is_header(img.subrange(0x1_0000, 0x1_1000)) && !is_header(
            img.subrange(0x2_0000, 0x2_1000),
        ) ==> super::layout_of(img) == Err::<VhdxLayout, Option<StorageError>>(
            Some(StorageError::VhdxHeader),
        ),
        is_header(img.subrange(0x1_0000, 0x1_1000)) || is_header(img.subrange(0x2_0000, 0x2_1000))
            ==> super::layout_of(img) != Err::<VhdxLayout, Option<StorageError>>(
            Some(StorageError::VhdxHeader),
        ),
{
    greater_sequence_counts(
        img.subrange(0x1_0000, 0x1_1000),
        img.subrange(0x2_0000, 0x2_1000),
    );
    if img.len() >= 0x4_0000 {
        other_reasons(img);
    }
}

proof fn other_reasons(img: Seq<u8>)
    ensures
        structs::regions_of(table_of(img)) matches Ok(r) ==> super::layout_in(img, r) != Err::<
            VhdxLayout,
            Option<StorageError>,
        >(Some(StorageError::VhdxHeader)),
        structs::regions_of(table_of(img)) matches Err(e) ==> !(e is VhdxHeader),
{
    if structs::regions_of(table_of(img)) is Ok {
        let r = structs::regions_of(table_of(img))->Ok_0;
        match (r.bat, r.metadata) {
            (Some(_), Some(md)) => {
                let region = super::part_at(img, md.0 as int, md.1 as int);
                items_reasons(region, wire::le16_at(region, 10) as int);
            },
            _ => {},
        }
    }
}

proof fn items_reasons(region: Seq<u8>, n: int)
    ensures
        metadata::items_in(region, n) matches Err(e) ==> !(e is VhdxHeader),
    decreases n,
{
    if n > 0 {
        items_reasons(region, n - 1);
    }
}

/// Which bytes of a VHDX can be read: none whose block has no entry in the BAT,
/// which fails as too short; all of a block that is not stored; and of a stored
/// block those that can be read where it lies, if it ends within 64 bits.
pub proof fn bytes_within_reach_can_be_read<S: BackingStore>(
    v: Vhdx<S>,
    i: int,
    b: int,
    c: int,
    mib: int,
    low: int,
    e: StorageError,
)
    requires
        v.layout().block_size > 0,
        v.layout().chunk_ratio > 0,
        0 <= i < v.layout().virtual_size,
        b * v.layout().block_size <= i < b * v.layout().block_size + v.layout().block_size,
        c * v.layout().chunk_ratio <= b < c * v.layout().chunk_ratio + v.layout().chunk_ratio,
        v.layout().bat[b + c] == mib * 0x10_0000 + low,
        0 <= low < 0x10_0000,
    ensures
        b + c >= v.layout().bat.len() ==> !v.readable(i) && (v.fails(i, e) <==> e is VhdxBatShort),
        b + c < v.layout().bat.len() && low % 8 != 6 ==> v.readable(i),
        b + c < v.layout().bat.len() && low % 8 == 6 ==> {
            let at = mib * 0x10_0000 + (i - b * v.layout().block_size);
            &&& v.readable(i) <==> mib * 0x10_0000 + v.layout().block_size
                < 0x1_0000_0000_0000_0000 && at < v.image().content().len() && v.image().readable(
                at,
            )
        },
{
    let l = v.layout();
    vstd::arithmetic::div_mod::lemma_fundamental_div_mod_converse(
        i,
        l.block_size as int,
        b,
        i - b * l.block_size,
    );
    vstd::arithmetic::div_mod::lemma_fundamental_div_mod_converse(
        b,
        l.chunk_ratio as int,
        c,
        b - c * l.chunk_ratio,
    );
    assert(b * l.block_size == l.block_size * b) by (nonlinear_arith);
    assert(c * l.chunk_ratio == l.chunk_ratio * c) by (nonlinear_arith);
    assert(l.bat[b + c] % 8 == low % 8);
}

/// Some entry of the `n` starts with `id`.
pub open spec fn is_named(table: Seq<u8>, base: int, n: int, id: Seq<u8>) -> bool {
    exists|k: int| 0 <= k < n && #[trigger] names(table, base, k, id)
}

proof fn items_are_named(region: Seq<u8>, n: int)
    requires
        metadata::items_in(region, n) is Ok,
    ensures
        ({
            let items = metadata::items_in(region, n)->Ok_0;
            &&& items.block_size is Some ==> is_named(region, 32, n, metadata::file_params_guid())
            &&& items.virtual_size is Some ==> is_named(region, 32, n, metadata::vdisk_size_guid())
            &&& items.logical_sector_size is Some ==> is_named(
                region,
                32,
                n,
                metadata::logical_sector_guid(),
            )
        }),
    decreases n,
{
    if n > 0 {
        items_are_named(region, n - 1);
        named_among_more(region, n, metadata::file_params_guid());
        named_among_more(region, n, metadata::vdisk_size_guid());
        named_among_more(region, n, metadata::logical_sector_guid());
        assert(names(region, 32, n - 1, metadata::file_params_guid()) == (region.subrange(
            32 + (n - 1) * 32,
            32 + (n - 1) * 32 + 16,
        ) == metadata::file_params_guid()));
        assert(names(region, 32, n - 1, metadata::vdisk_size_guid()) == (region.subrange(
            32 + (n - 1) * 32,
            32 + (n - 1) * 32 + 16,
        ) == metadata::vdisk_size_guid()));
        assert(names(region, 32, n - 1, metadata::logical_sector_guid()) == (region.subrange(
            32 + (n - 1) * 32,
            32 + (n - 1) * 32 + 16,
        ) == metadata::logical_sector_guid()));
    }
}

proof fn named_among_more(region: Seq<u8>, n: int, id: Seq<u8>)
    requires
        n > 0,
    ensures
        is_named(region, 32, n - 1, id) || names(region, 32, n - 1, id) ==> is_named(
            region,
            32,
            n,
            id,
        ),
{
    if is_named(region, 32, n - 1, id) {
        let k = choose|k: int| 0 <= k < n - 1 && #[trigger] names(region, 32, k, id);
        assert(names(region, 32, k, id));
    }
}

/// Metadata is complete: it has all three items, and block and sector sizes are
/// powers of two.
pub proof fn metadata_is_complete(region: Seq<u8>, m: VhdxMetadata)
    requires
        metadata::metadata_of(region) == Ok::<VhdxMetadata, StorageError>(m),
    ensures
        is_named(region, 32, field(region, 10, 2), parameters_id()),
        is_named(region, 32, field(region, 10, 2), size_id()),
        is_named(region, 32, field(region, 10, 2), sector_id()),
        exists|k: nat| m.block_size == #[trigger] vstd::arithmetic::power2::pow2(k),
        exists|k: nat| m.logical_sector_size == #[trigger] vstd::arithmetic::power2::pow2(k),
{
    wire::le16_at_is_number(region, 10);
    assert(metadata::file_params_guid() =~= parameters_id());
    assert(metadata::vdisk_size_guid() =~= size_id());
    assert(metadata::logical_sector_guid() =~= sector_id());
    items_are_named(region, wire::le16_at(region, 10) as int);
    assert(wire::power_of_two(m.block_size as int));
    assert(wire::power_of_two(m.logical_sector_size as int));
}

} // verus!
