//! Diagnostics of increment chains.
use vstd::prelude::*;
use super::dynamic;
use super::dynamic::{DynamicVhd, Layout};
use super::footer::SECTOR;
use crate::storage;
use crate::storage::{BackingStore, StorageError};
use crate::text;
use crate::wire;

verus! {

/// `n` spaces.
pub open spec fn spaces(n: int) -> Seq<char> {
    Seq::new(n as nat, |i: int| ' ')
}

/// `name` followed by spaces up to 16 characters.
pub open spec fn padded(name: Seq<char>) -> Seq<char> {
    if name.len() < 16 {
        name + spaces(16 - name.len())
    } else {
        name
    }
}

/// The first `k` bytes as hexadecimal pairs with commas between them.
pub open spec fn hex_list(b: Seq<u8>, k: int) -> Seq<char>
    decreases k,
{
    if k <= 0 {
        Seq::empty()
    } else if k == 1 {
        text::hex2(b[0])
    } else {
        hex_list(b, k - 1) + ", "@ + text::hex2(b[k - 1])
    }
}

/// Bytes as a list in brackets.
pub open spec fn bytes_text(b: Seq<u8>) -> Seq<char> {
    "["@ + hex_list(b, b.len() as int) + "]"@
}

pub open spec fn bool_text(b: bool) -> Seq<char> {
    if b {
        "true"@
    } else {
        "false"@
    }
}

pub open spec fn count_text(n: Option<int>) -> Seq<char> {
    match n {
        Some(v) => "Some("@ + text::decimal(v as nat) + ")"@,
        None => "None"@,
    }
}

/// What the layer `name` with image `img` and layout `l` holds for `sector`:
/// whether the block is allocated, how many of its bits are set, whether the
/// sector's bit is, and the first 8 raw bytes.
pub open spec fn layer_line(name: Seq<char>, img: Seq<u8>, l: Layout, sector: int) -> Seq<char> {
    let data = l.block_data(sector);
    "  "@ + padded(name) + " alloc="@ + bool_text(data is Some) + " blockbits="@ + count_text(
        l.bit_count(img, sector),
    ) + " bitset="@ + bool_text(l.sector_data(img, sector) is Some) + " raw8="@ + match data {
        Some(at) => bytes_text(img.subrange(at, at + 8)),
        None => "----"@,
    } + "\n"@
}

/// What the base holds.
pub open spec fn base_line(raw: Seq<u8>) -> Seq<char> {
    "  "@ + padded("BASE"@) + " base raw8="@ + bytes_text(raw) + "\n"@
}

/// The lines of the first `k` layers (oldest first), newest of them first.
pub open spec fn layer_lines<S: BackingStore>(
    layers: Seq<(String, S)>,
    k: int,
    sector: int,
) -> Seq<char>
    decreases k,
{
    if k <= 0 {
        Seq::empty()
    } else {
        let img = layers[k - 1].1.content();
        layer_line(layers[k - 1].0@, img, dynamic::layout_of(img)->Ok_0, sector) + layer_lines(
            layers,
            k - 1,
            sector,
        )
    }
}

/// The heading of a report.
pub open spec fn heading(offset: u64) -> Seq<char> {
    "probe offset "@ + text::decimal(offset as nat) + " (sector "@ + text::decimal(
        (offset / SECTOR) as nat,
    ) + "):\n"@
}

/// What the layer in `image` holds for `sector` can be read.
pub open spec fn shows<S: BackingStore>(image: S, sector: int) -> bool {
    &&& storage::all_readable(&image)
    &&& dynamic::layout_of(image.content()) matches Ok(l) && l.lists(sector) && (l.block_data(
        sector,
    ) matches Some(at) ==> at + 8 <= image.content().len())
}

fn push_padded(out: &mut String, name: &str)
    ensures
        final(out)@ == old(out)@ + padded(name@),
{
    let n: usize = name.unicode_len();
    out.append(name);
    let mut i: usize = n;
    while i < 16
        invariant
            n == name@.len(),
            n < 16 ==> n <= i <= 16,
            n >= 16 ==> i == n,
            out@ == old(out)@ + name@ + spaces(i - n),
        decreases 16 - i,
    {
        out.push(' ');
        i += 1;
        assert(spaces(i - n) =~= spaces(i - n - 1).push(' '));
        assert(out@ =~= old(out)@ + name@ + spaces(i - n));
    }
    assert(out@ =~= old(out)@ + padded(name@));
}

fn push_bytes_text(out: &mut String, b: &[u8])
    ensures
        final(out)@ == old(out)@ + bytes_text(b@),
{
    out.append("[");
    let mut i: usize = 0;
    assert(out@ =~= old(out)@ + "["@ + hex_list(b@, 0));
    while i < b.len()
        invariant
            i <= b@.len(),
            out@ == old(out)@ + "["@ + hex_list(b@, i as int),
        decreases b@.len() - i,
    {
        let ghost before = out@;
        if i > 0 {
            out.append(", ");
        }
        text::push_hex2(out, b[i]);
        i += 1;
        assert(out@ =~= old(out)@ + "["@ + hex_list(b@, i as int));
    }
    out.append("]");
    assert(out@ =~= old(out)@ + bytes_text(b@));
}

fn push_bool(out: &mut String, b: bool)
    ensures
        final(out)@ == old(out)@ + bool_text(b),
{
    if b {
        out.append("true");
    } else {
        out.append("false");
    }
}

fn push_count(out: &mut String, n: Option<u64>)
    ensures
        final(out)@ == old(out)@ + count_text(dynamic::offset_view(n)),
{
    match n {
        Some(v) => {
            out.append("Some(");
            text::push_decimal(out, v);
            out.append(")");
            assert(out@ =~= old(out)@ + count_text(Some(v as int)));
        },
        None => {
            out.append("None");
        },
    }
}

/// Append the line of one layer.
fn push_layer<S: BackingStore>(
    out: &mut String,
    name: &str,
    layer: &DynamicVhd<S>,
    sector: u64,
) -> (r: Result<(), StorageError>)
    ensures
        r is Ok ==> final(out)@ == old(out)@ + layer_line(
            name@,
            layer.image().content(),
            layer.layout(),
            sector as int,
        ),
        r is Err ==> !(layer.lists(sector as int) && (layer.layout().block_data(
            sector as int,
        ) matches Some(at) ==> storage::span_readable(&layer.image(), at, at + 8))),
{
    let bitset = match layer.sector_offset(sector) {
        Ok(at) => at.is_some(),
        Err(e) => {
            return Err(e);
        },
    };
    let bits = match layer.block_bit_count(sector) {
        Ok(n) => n,
        Err(e) => {
            return Err(e);
        },
    };
    let block = match layer.block_sector_offset(sector) {
        Ok(at) => at,
        Err(e) => {
            return Err(e);
        },
    };
    out.append("  ");
    push_padded(out, name);
    out.append(" alloc=");
    push_bool(out, block.is_some());
    out.append(" blockbits=");
    push_count(out, bits);
    out.append(" bitset=");
    push_bool(out, bitset);
    out.append(" raw8=");
    match block {
        Some(at) => {
            let mut raw: Vec<u8> = wire::zeroed(8);
            match layer.read_phys(at, raw.as_mut_slice()) {
                Ok(_) => {},
                Err(e) => {
                    return Err(e);
                },
            }
            push_bytes_text(out, raw.as_slice());
        },
        None => {
            out.append("----");
        },
    }
    out.append("\n");
    assert(out@ =~= old(out)@ + layer_line(
        name@,
        layer.image().content(),
        layer.layout(),
        sector as int,
    ));
    Ok(())
}

/// Diagnostic: for one virtual byte `offset`, report what each layer (newest
/// first) and the base hold for that sector: whether the block is allocated,
/// whether the bitmap bit is set, and the first 8 raw bytes. `layers` are the
/// increments with their file names, oldest first.
pub fn probe<B: BackingStore, S: BackingStore>(
    base: &B,
    layers: Vec<(String, S)>,
    offset: u64,
) -> (r: Result<String, StorageError>)
    ensures
        r matches Ok(s) ==> {
            &&& forall|k: int| 0 <= k < layers@.len() ==> dynamic::layout_of(
                (#[trigger] layers@[k]).1.content(),
            ) is Ok
            &&& offset + 8 <= base.content().len()
            &&& s@ == heading(offset) + layer_lines(
                layers@,
                layers@.len() as int,
                offset as int / (SECTOR as int),
            ) + base_line(base.content().subrange(offset as int, offset + 8))
        },
        (forall|k: int|
            0 <= k < layers@.len() ==> shows(
                (#[trigger] layers@[k]).1,
                offset as int / (SECTOR as int),
            )) && storage::span_readable(base, offset as int, offset + 8) ==> r is Ok,
{
    let sector: u64 = offset / SECTOR;
    let mut s: String = String::from_str("probe offset ");
    text::push_decimal(&mut s, offset);
    s.append(" (sector ");
    text::push_decimal(&mut s, sector);
    s.append("):\n");
    assert(s@ =~= heading(offset));
    let ghost all = layers@;
    let ghost n = all.len() as int;
    let mut left = layers;
    while left.len() > 0
        invariant
            all == layers@,
            n == all.len(),
            left@.len() <= n,
            left@ == all.take(left@.len() as int),
            sector == offset / SECTOR,
            s@ + layer_lines(all, left@.len() as int, sector as int) == heading(offset)
                + layer_lines(all, n, sector as int),
            forall|k: int| left@.len() <= k < n ==> dynamic::layout_of(
                (#[trigger] all[k]).1.content(),
            ) is Ok,
        decreases left@.len(),
    {
        let ghost k = left@.len() as int;
        let (name, image) = match left.pop() {
            Some(l) => l,
            None => {
                return Err(StorageError::BeyondBat);
            },
        };
        assert(all[k - 1] == (name, image));
        let layer = match DynamicVhd::open(image) {
            Ok(l) => l,
            Err(e) => {
                assert(!shows(all[k - 1].1, sector as int));
                return Err(e);
            },
        };
        let ghost before = s@;
        match push_layer(&mut s, name.as_str(), &layer, sector) {
            Ok(_) => {},
            Err(e) => {
                assert(!shows(all[k - 1].1, sector as int)) by {
                    let img = all[k - 1].1;
                    assert(layer.image() == img);
                    if shows(img, sector as int) {
                        dynamic::stored_data_has_an_offset(img.content(), sector as int);
                    }
                }
                return Err(e);
            },
        }
        assert(left@ =~= all.take(k - 1));
        assert(s@ + layer_lines(all, k - 1, sector as int) =~= before + layer_lines(
            all,
            k,
            sector as int,
        ));
    }
    let mut raw: Vec<u8> = wire::zeroed(8);
    match base.read_at(offset, raw.as_mut_slice()) {
        Ok(_) => {},
        Err(e) => {
            return Err(e);
        },
    }
    let ghost before = s@;
    assert(before =~= heading(offset) + layer_lines(all, n, sector as int));
    s.append("  ");
    push_padded(&mut s, "BASE");
    s.append(" base raw8=");
    push_bytes_text(&mut s, raw.as_slice());
    s.append("\n");
    assert(s@ =~= before + base_line(raw@));
    Ok(s)
}

} // verus!
