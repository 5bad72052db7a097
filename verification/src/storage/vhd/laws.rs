//! Where the bytes of a VHD and of an increment chain come from.
use vstd::prelude::*;
use super::chain;
use super::chain::ChainedVhd;
use super::dynamic;
use super::dynamic::{DynamicVhd, Layout};
use super::fixed;
use super::footer;
use super::probe;
use crate::storage::{BackingStore, StorageError};
use crate::text;
use crate::wire;

verus! {

/// The block of `sector` is stored in a dynamic VHD: its table entry is listed
/// and not all ones.
pub open spec fn stores(l: Layout, sector: int) -> bool {
    let block = sector / (l.block_size as int / 512);
    block < l.bat.len() && l.bat[block] != 0xffff_ffff
}

/// Where the bitmap of the block of `sector` starts.
pub open spec fn bitmap_start(l: Layout, sector: int) -> int {
    l.bat[sector / (l.block_size as int / 512)] * 512
}

/// The block of `sector` is stored, and the bit of `sector` is set in the bitmap
/// in front of it, the most significant bit of a byte first.
pub open spec fn marks(l: Layout, img: Seq<u8>, sector: int) -> bool {
    let k = sector % (l.block_size as int / 512);
    stores(l, sector) && (img[bitmap_start(l, sector) + k / 8] >> ((7 - k % 8) as u8)) & 1 == 1
}

/// Where byte `i` of the disk is stored, if its block is: behind the bitmap,
/// which has a bit for each sector of the block and fills whole sectors.
pub open spec fn place(l: Layout, i: int) -> int {
    let sectors = l.block_size as int / 512;
    bitmap_start(l, i / 512) + (sectors + 4095) / 4096 * 512 + i / 512 % sectors * 512 + i % 512
}

proof fn bit_forms(byte: u8, k: int)
    requires
        0 <= k < 8,
    ensures
        dynamic::bit_set(byte, k) == ((byte >> ((7 - k) as u8)) & 1 == 1),
{
    let j = k as u8;
    let r = (7 - k) as u8;
    assert(byte & (0x80u8 >> j) != 0 <==> (byte >> r) & 1 == 1) by (bit_vector)
        requires
            j < 8,
            r == 7 - j,
    ;
}

proof fn bitmap_forms(sectors: int)
    requires
        0 <= sectors,
    ensures
        ((sectors + 7) / 8 + 511) / 512 == (sectors + 4095) / 4096,
{
}

proof fn layout_forms(l: Layout, img: Seq<u8>, i: int)
    requires
        l.wf(),
        0 <= i,
    ensures
        ({
            let sector = i / 512;
            &&& (l.block_data(sector) is Some) == stores(l, sector)
            &&& stores(l, sector) ==> l.block_data(sector)->0 + i % 512 == place(l, i)
            &&& (l.sector_data(img, sector) is Some) == marks(l, img, sector)
            &&& marks(l, img, sector) ==> l.sector_data(img, sector)->0 + i % 512 == place(l, i)
        }),
{
    let sector = i / 512;
    let sectors = l.block_size as int / 512;
    assert(sectors > 0);
    let k = sector % sectors;
    vstd::arithmetic::div_mod::lemma_mod_bound(sector, sectors);
    vstd::arithmetic::div_mod::lemma_div_pos_is_pos(sector, sectors);
    bitmap_forms(sectors);
    if stores(l, sector) {
        bit_forms(img[bitmap_start(l, sector) + k / 8], k % 8);
    }
}

/// A dynamic VHD gives each byte from where its table and bitmaps put it, and
/// zero for a sector that is not marked as stored.
pub proof fn dynamic_disk_is_where_the_table_says<S: BackingStore>(v: DynamicVhd<S>, i: int)
    requires
        v.layout().wf(),
        0 <= i < v.content().len(),
    ensures
        v.content().len() == v.layout().size,
        v.content()[i] == if marks(v.layout(), v.image().content(), i / 512) {
            v.image().content()[place(v.layout(), i)]
        } else {
            0
        },
        i / 512 / (v.layout().block_size as int / 512) >= v.layout().bat.len() ==> !v.readable(i),
{
    layout_forms(v.layout(), v.image().content(), i);
}

/// The newest increment that marks a sector gives it: an explicit write wins
/// over everything older, and over what any increment holds unmarked.
pub proof fn newest_mark_gives_the_sector<B: BackingStore, S: BackingStore>(
    c: ChainedVhd<B, S>,
    k: int,
    i: int,
)
    requires
        0 <= i < c.content().len(),
        0 <= k < c.layers().len(),
        forall|j: int| 0 <= j < c.layers().len() ==> (#[trigger] c.layers()[j]).layout().wf(),
        marks(c.layers()[k].layout(), c.layers()[k].image().content(), i / 512),
        forall|j: int| 0 <= j < k ==> !marks(
            (#[trigger] c.layers()[j]).layout(),
            c.layers()[j].image().content(),
            i / 512,
        ),
    ensures
        c.content()[i] == c.layers()[k].image().content()[place(c.layers()[k].layout(), i)],
{
    let layers = c.layers();
    assert forall|j: int| 0 <= j < k implies (#[trigger] layers[j]).layout().sector_data(
        layers[j].image().content(),
        i / 512,
    ) is None by {
        layout_forms(layers[j].layout(), layers[j].image().content(), i);
    }
    layout_forms(layers[k].layout(), layers[k].image().content(), i);
    chain::newest_claim_wins(c.base().content(), layers, k, i);
}

/// A sector that no increment marks is given by the newest increment that
/// stores its block, whatever an older one or the base holds for it.
pub proof fn newest_stored_block_gives_the_sector<B: BackingStore, S: BackingStore>(
    c: ChainedVhd<B, S>,
    k: int,
    i: int,
)
    requires
        0 <= i < c.content().len(),
        0 <= k < c.layers().len(),
        forall|j: int| 0 <= j < c.layers().len() ==> (#[trigger] c.layers()[j]).layout().wf(),
        forall|j: int| 0 <= j < c.layers().len() ==> !marks(
            (#[trigger] c.layers()[j]).layout(),
            c.layers()[j].image().content(),
            i / 512,
        ),
        stores(c.layers()[k].layout(), i / 512),
        forall|j: int| 0 <= j < k ==> !stores((#[trigger] c.layers()[j]).layout(), i / 512),
    ensures
        c.content()[i] == c.layers()[k].image().content()[place(c.layers()[k].layout(), i)],
{
    let layers = c.layers();
    assert forall|j: int| 0 <= j < layers.len() implies (#[trigger] layers[j]).layout().sector_data(
        layers[j].image().content(),
        i / 512,
    ) is None by {
        layout_forms(layers[j].layout(), layers[j].image().content(), i);
    }
    assert forall|j: int| 0 <= j < k implies (#[trigger] layers[j]).layout().block_data(i / 512) is None by {
        layout_forms(layers[j].layout(), layers[j].image().content(), i);
    }
    layout_forms(layers[k].layout(), layers[k].image().content(), i);
    chain::newest_capture_wins(c.base().content(), layers, k, i);
}

/// A sector whose block no increment stores is that of the base.
pub proof fn base_gives_what_no_increment_stores<B: BackingStore, S: BackingStore>(
    c: ChainedVhd<B, S>,
    i: int,
)
    requires
        0 <= i < c.content().len(),
        forall|j: int| 0 <= j < c.layers().len() ==> (#[trigger] c.layers()[j]).layout().wf(),
        forall|j: int| 0 <= j < c.layers().len() ==> !stores(
            (#[trigger] c.layers()[j]).layout(),
            i / 512,
        ),
    ensures
        c.content()[i] == c.base().content()[i],
{
    let layers = c.layers();
    assert forall|j: int| 0 <= j < layers.len() implies (#[trigger] layers[j]).layout().block_data(
        i / 512,
    ) is None by {
        layout_forms(layers[j].layout(), layers[j].image().content(), i);
    }
    chain::uncaptured_sector_reads_base(c.base().content(), layers, i);
}

/// A chain is as large as its base, and so is each increment; increments are
/// the dynamic VHDs in their files.
pub proof fn layers_are_their_files<S: BackingStore>(layer: DynamicVhd<S>, image: S, base_size: int)
    requires
        chain::is_layer(layer, image, base_size),
    ensures
        layer.layout().wf(),
        layer.image() == image,
        layer.content().len() == base_size,
        image.content().len() >= 512,
{
    dynamic::stored_data_has_an_offset(image.content(), 0);
}

/// The last 512 bytes of a VHD image say what it is: a dynamic one has type 3
/// at byte 60, the disk's size at byte 48, and at byte 16 where its header is;
/// the header has the place of the table at byte 16, its number of entries at
/// byte 28, and the block size at byte 32. The table is as many numbers of four
/// bytes.
pub proof fn dynamic_layout_is_in_the_image(img: Seq<u8>)
    ensures
        dynamic::layout_of(img) matches Ok(l) ==> {
            let f = img.skip(img.len() - 512);
            let at = wire::number(f.subrange(16, 24));
            let h = img.subrange(at, at + 1024);
            let table = wire::number(h.subrange(16, 24));
            &&& img.len() >= 512
            &&& wire::number(f.subrange(60, 64)) == 3
            &&& l.size == wire::number(f.subrange(48, 56))
            &&& 0 <= at && at + 1024 <= img.len()
            &&& l.block_size == wire::number(h.subrange(32, 36))
            &&& l.block_size % 512 == 0 && l.block_size > 0
            &&& l.bat.len() == wire::number(h.subrange(28, 32))
            &&& forall|b: int|
                0 <= b < l.bat.len() ==> (#[trigger] l.bat[b]) == wire::number(
                    img.subrange(table + 4 * b, table + 4 * b + 4),
                )
        },
{
    if let Ok(l) = dynamic::layout_of(img) {
        let f = img.skip(img.len() - 512);
        assert(f =~= img.subrange(img.len() - 512, img.len() as int));
        wire::be64_at_is_number(f, 16);
        wire::be64_at_is_number(f, 48);
        wire::be32_at_is_number(f, 60);
        let at = wire::number(f.subrange(16, 24));
        let h = img.subrange(at, at + 1024);
        wire::be64_at_is_number(h, 16);
        wire::be32_at_is_number(h, 28);
        wire::be32_at_is_number(h, 32);
        let table = wire::number(h.subrange(16, 24));
        dynamic::stored_data_has_an_offset(img, 0);
        assert forall|b: int| 0 <= b < l.bat.len() implies (#[trigger] l.bat[b]) == wire::number(
            img.subrange(table + 4 * b, table + 4 * b + 4),
        ) by {
            wire::be32_at_is_number(img, table + 4 * b);
        }
    }
}

/// A fixed VHD has type 2 at byte 60 of its last 512 bytes, and the disk's size
/// at byte 48.
pub proof fn fixed_size_is_in_the_image(img: Seq<u8>)
    ensures
        fixed::fixed_of(img) matches Ok(size) ==> {
            let f = img.skip(img.len() - 512);
            &&& img.len() >= 512
            &&& wire::number(f.subrange(60, 64)) == 2
            &&& size == wire::number(f.subrange(48, 56))
        },
{
    if img.len() >= 512 {
        let f = img.skip(img.len() - 512);
        assert(f =~= img.subrange(img.len() - 512, img.len() as int));
        wire::be64_at_is_number(f, 48);
        wire::be32_at_is_number(f, 60);
    }
}

/// A footer starts with `conectix`, and no single wrong byte in it goes unseen.
pub proof fn wrong_footer_bytes_are_seen(b: Seq<u8>, j: int, x: u8)
    requires
        b.len() >= 512,
        0 <= j < 512,
        x != b[j],
    ensures
        footer::footer_of(b) is Ok ==> {
            &&& b.take(8) == seq![0x63u8, 0x6f, 0x6e, 0x65, 0x63, 0x74, 0x69, 0x78]
            &&& footer::footer_of(b.update(j, x)) is Err
        },
{
    if footer::footer_of(b) is Ok {
        let c = b.update(j, x);
        let (p, q) = (b.take(512), c.take(512));
        assert(b.take(8)[0] == 0x63);
        if j < 8 {
            assert(c.take(8)[j] != b.take(8)[j]);
        } else {
            assert(q =~= p.update(j, x));
            sums_differ(p, q, j, x, 512);
            sum_is_small(p, 512);
            sum_is_small(q, 512);
            if 64 <= j < 68 {
                assert(footer::byte_sum(p, 64, 68, 512) == footer::byte_sum(q, 64, 68, 512));
            }
        }
    }
}

proof fn sums_differ(p: Seq<u8>, q: Seq<u8>, j: int, x: u8, k: int)
    requires
        p.len() == 512,
        0 <= j < 512,
        q == p.update(j, x),
        0 <= k <= 512,
    ensures
        footer::byte_sum(q, 64, 68, k) == footer::byte_sum(p, 64, 68, k) + if j < k && !(64 <= j
            < 68) {
            x - p[j]
        } else {
            0
        },
    decreases k,
{
    if k > 0 {
        sums_differ(p, q, j, x, k - 1);
    }
}

proof fn sum_is_small(p: Seq<u8>, k: int)
    requires
        0 <= k <= p.len(),
    ensures
        0 <= footer::byte_sum(p, 64, 68, k) <= 255 * k,
    decreases k,
{
    if k > 0 {
        sum_is_small(p, k - 1);
    }
}

/// What the checksum of a footer is: with the sum of the other bytes it makes
/// all ones.
pub proof fn footer_sums_to_ones(b: Seq<u8>)
    ensures
        footer::footer_of(b) is Ok ==> wire::number(b.subrange(64, 68)) + footer::byte_sum(
            b.take(512),
            64,
            68,
            512,
        ) == 0xffff_ffff,
{
    if footer::footer_of(b) is Ok {
        sum_is_small(b.take(512), 512);
        wire::be32_at_is_number(b, 64);
    }
}

/// What is no VHD is refused for what it is not: without room for a footer, or
/// without its cookie.
pub proof fn what_is_no_vhd_is_refused(img: Seq<u8>)
    ensures
        img.len() < 512 ==> dynamic::layout_of(img) == Err::<Layout, Option<StorageError>>(
            Some(StorageError::FileTooShort),
        ),
        img.len() >= 512 && img.skip(img.len() - 512).take(8) != seq![
            0x63u8, 0x6f, 0x6e, 0x65, 0x63, 0x74, 0x69, 0x78,
        ] ==> dynamic::layout_of(img) == Err::<Layout, Option<StorageError>>(
            Some(StorageError::FooterCookie),
        ),
{
    if img.len() >= 512 {
        assert(img.skip(img.len() - 512) =~= img.subrange(img.len() - 512, img.len() as int));
    }
}

/// Bit `k` of the bitmap at `at` is set, the most significant bit of a byte
/// first.
pub open spec fn bit_at(img: Seq<u8>, at: int, k: int) -> bool {
    (img[at + k / 8] >> ((7 - k % 8) as u8)) & 1 == 1
}

/// The bits below `k` that are set.
pub open spec fn bits_below(img: Seq<u8>, at: int, k: int) -> Set<int> {
    Set::new(|j: int| 0 <= j < k && bit_at(img, at, j))
}

proof fn bits_are_counted(img: Seq<u8>, at: int, k: int)
    requires
        0 <= k,
    ensures
        bits_below(img, at, k).finite(),
        dynamic::bits_set(img, at, k) == bits_below(img, at, k).len(),
    decreases k,
{
    let all = bits_below(img, at, k);
    if k == 0 {
        assert(all =~= Set::empty());
    } else {
        bits_are_counted(img, at, k - 1);
        let fewer = bits_below(img, at, k - 1);
        bit_forms(img[at + (k - 1) / 8], (k - 1) % 8);
        if bit_at(img, at, k - 1) {
            assert(all =~= fewer.insert(k - 1));
        } else {
            assert(all =~= fewer);
        }
    }
}

/// As many sectors of a stored block are counted as its bitmap has bits set.
pub proof fn marked_sectors_are_counted(l: Layout, img: Seq<u8>, sector: int)
    requires
        l.wf(),
        0 <= sector,
    ensures
        (l.bit_count(img, sector) is Some) == stores(l, sector),
        stores(l, sector) ==> l.bit_count(img, sector) == Some(
            bits_below(img, bitmap_start(l, sector), l.block_size as int / 512).len() as int,
        ),
{
    layout_forms(l, img, sector * 512);
    bits_are_counted(img, bitmap_start(l, sector), l.block_size as int / 512);
}

/// The line of a layer in a report of the sector with byte `i`: its name, padded
/// to 16 characters, whether it stores the block, how many of its sectors are
/// marked, whether this one is, and its first 8 bytes.
pub proof fn line_tells_what_a_layer_holds(name: Seq<char>, img: Seq<u8>, l: Layout, sector: int)
    requires
        l.wf(),
        0 <= sector,
    ensures
        ({
            let line = probe::layer_line(name, img, l, sector);
            let pad = Seq::new(
                if name.len() < 16 {
                    (16 - name.len()) as nat
                } else {
                    0
                },
                |i: int| ' ',
            );
            let start = "  "@ + name + pad;
            if stores(l, sector) {
                let at = place(l, sector * 512);
                let marked = bits_below(img, bitmap_start(l, sector), l.block_size as int / 512);
                line == start + " alloc="@ + "true"@ + " blockbits="@ + ("Some("@ + text::decimal(
                    marked.len(),
                ) + ")"@) + " bitset="@ + (if marks(l, img, sector) {
                    "true"@
                } else {
                    "false"@
                }) + " raw8="@ + probe::bytes_text(img.subrange(at, at + 8)) + "\n"@
            } else {
                line == start + " alloc="@ + "false"@ + " blockbits="@ + "None"@ + " bitset="@
                    + "false"@ + " raw8="@ + "----"@ + "\n"@
            }
        }),
{
    layout_forms(l, img, sector * 512);
    marked_sectors_are_counted(l, img, sector);
    let pad = Seq::new(
        if name.len() < 16 {
            (16 - name.len()) as nat
        } else {
            0
        },
        |i: int| ' ',
    );
    assert("  "@ + probe::padded(name) =~= "  "@ + name + pad);
}

proof fn same_layers_same_lines<S: BackingStore>(
    a: Seq<(String, S)>,
    b: Seq<(String, S)>,
    k: int,
    sector: int,
)
    requires
        k <= a.len(),
        k <= b.len(),
        forall|j: int| 0 <= j < k ==> a[j] == b[j],
    ensures
        probe::layer_lines(a, k, sector) == probe::layer_lines(b, k, sector),
    decreases k,
{
    if k > 0 {
        same_layers_same_lines(a, b, k - 1, sector);
    }
}

/// A report has the newest layer in front: with one layer more, its line comes
/// before all the others.
pub proof fn newest_layer_is_told_first<S: BackingStore>(
    layers: Seq<(String, S)>,
    newest: (String, S),
    sector: int,
)
    ensures
        probe::layer_lines(Seq::<(String, S)>::empty(), 0, sector).len() == 0,
        probe::layer_lines(layers.push(newest), layers.len() as int + 1, sector) == probe::layer_line(
            newest.0@,
            newest.1.content(),
            dynamic::layout_of(newest.1.content())->Ok_0,
            sector,
        ) + probe::layer_lines(layers, layers.len() as int, sector),
{
    same_layers_same_lines(layers.push(newest), layers, layers.len() as int, sector);
}

/// The bytes in a report are in hexadecimal, with commas between them.
pub proof fn bytes_are_listed(b: Seq<u8>, x: u8)
    ensures
        probe::bytes_text(seq![x]) == "["@ + text::hex2(x) + "]"@,
        b.len() > 0 ==> probe::hex_list(b.push(x), b.len() as int + 1) == probe::hex_list(
            b,
            b.len() as int,
        ) + ", "@ + text::hex2(x),
{
    assert(probe::hex_list(seq![x], 1) =~= text::hex2(x));
    if b.len() > 0 {
        same_bytes_same_list(b.push(x), b, b.len() as int);
    }
}

proof fn same_bytes_same_list(a: Seq<u8>, b: Seq<u8>, k: int)
    requires
        0 <= k <= a.len(),
        k <= b.len(),
        forall|j: int| 0 <= j < k ==> a[j] == b[j],
    ensures
        probe::hex_list(a, k) == probe::hex_list(b, k),
    decreases k,
{
    if k > 1 {
        same_bytes_same_list(a, b, k - 1);
    }
}

/// The table of a dynamic VHD lists the block of `sector`.
pub open spec fn lists(l: Layout, sector: int) -> bool {
    sector / (l.block_size as int / 512) < l.bat.len()
}

/// A byte of a dynamic VHD can be read where its table lists the block and,
/// where the sector is marked, the image can be read at the byte's place. A
/// block that the table does not list fails as beyond it.
pub proof fn listed_bytes_can_be_read<S: BackingStore>(
    v: DynamicVhd<S>,
    i: int,
    e: StorageError,
)
    requires
        v.layout().wf(),
        0 <= i,
    ensures
        v.readable(i) <==> lists(v.layout(), i / 512) && (marks(
            v.layout(),
            v.image().content(),
            i / 512,
        ) ==> place(v.layout(), i) < v.image().content().len() && v.image().readable(
            place(v.layout(), i),
        )),
        !lists(v.layout(), i / 512) && v.fails(i, e) ==> e is BeyondBat,
{
    layout_forms(v.layout(), v.image().content(), i);
}

/// Which bytes of a chain can be read: a marked one where every increment down to
/// the newest that marks it lists its block, and the image of that one can be
/// read; one that no increment stores where all of them list its block, and the
/// base can be read.
pub proof fn bytes_of_a_chain_can_be_read<B: BackingStore, S: BackingStore>(
    c: ChainedVhd<B, S>,
    k: int,
    i: int,
)
    requires
        0 <= i,
        forall|j: int| 0 <= j < c.layers().len() ==> (#[trigger] c.layers()[j]).layout().wf(),
    ensures
        0 <= k < c.layers().len() && marks(
            c.layers()[k].layout(),
            c.layers()[k].image().content(),
            i / 512,
        ) && (forall|j: int|
            0 <= j < k ==> !marks(
                (#[trigger] c.layers()[j]).layout(),
                c.layers()[j].image().content(),
                i / 512,
            )) ==> {
            let at = place(c.layers()[k].layout(), i);
            c.readable(i) <==> (forall|j: int|
                0 <= j <= k ==> lists((#[trigger] c.layers()[j]).layout(), i / 512)) && at
                < c.layers()[k].image().content().len() && c.layers()[k].image().readable(at)
        },
        (forall|j: int|
            0 <= j < c.layers().len() ==> !stores((#[trigger] c.layers()[j]).layout(), i / 512))
            ==> (c.readable(i) <==> (forall|j: int|
            0 <= j < c.layers().len() ==> lists((#[trigger] c.layers()[j]).layout(), i / 512))
            && c.base().readable(i)),
{
    let layers = c.layers();
    let sector = i / 512;
    assert forall|j: int| 0 <= j < layers.len() implies {
        &&& (#[trigger] layers[j]).lists(sector) == lists(layers[j].layout(), sector)
        &&& (layers[j].layout().block_data(sector) is Some) == stores(layers[j].layout(), sector)
        &&& (layers[j].layout().sector_data(layers[j].image().content(), sector) is Some) == marks(
            layers[j].layout(),
            layers[j].image().content(),
            sector,
        )
    } by {
        layout_forms(layers[j].layout(), layers[j].image().content(), i);
    }
    if 0 <= k < layers.len() && marks(
        layers[k].layout(),
        layers[k].image().content(),
        sector,
    ) && (forall|j: int|
        0 <= j < k ==> !marks(
            (#[trigger] layers[j]).layout(),
            layers[j].image().content(),
            sector,
        )) {
        layout_forms(layers[k].layout(), layers[k].image().content(), i);
        chain::first_claim(layers, 0, k, sector);
    }
    if forall|j: int|
        0 <= j < layers.len() ==> !stores((#[trigger] layers[j]).layout(), sector) {
        chain::none_from(layers, 0, sector);
    }
}

/// The disk in a VHD image: of a fixed one, type 2, the bytes of the image from
/// the start; of a dynamic one, type 3, each byte from where the table and the
/// bitmaps put it, and zero where they put none. It is as large as byte 48 of
/// the last 512 says.
pub proof fn disk_is_in_the_image(disk: Seq<u8>, img: Seq<u8>, i: int)
    requires
        super::is_disk_of(disk, img),
        0 <= i < disk.len(),
    ensures
        ({
            let f = img.skip(img.len() - 512);
            let kind = wire::number(f.subrange(60, 64));
            let l = dynamic::layout_of(img)->Ok_0;
            &&& img.len() >= 512
            &&& disk.len() == wire::number(f.subrange(48, 56))
            &&& kind == 2 || kind == 3
            &&& kind == 2 ==> disk[i] == img[i]
            &&& kind == 3 ==> disk[i] == if marks(l, img, i / 512) {
                img[place(l, i)]
            } else {
                0
            }
        }),
{
    fixed_size_is_in_the_image(img);
    dynamic_layout_is_in_the_image(img);
    if dynamic::layout_of(img) is Ok {
        dynamic::stored_data_has_an_offset(img, 0);
        layout_forms(dynamic::layout_of(img)->Ok_0, img, i);
    }
}

} // verus!
