//! What a master image and its increments are served as.
use vstd::prelude::*;
use super::vhd;
use super::vhd::chain;
use super::vhd::dynamic;
use super::vhd::dynamic::Layout;
use super::vhdx;
use super::{Backing, BackingStore};
use crate::text;

verus! {

/// `img` starts with `vhdxfile`.
pub open spec fn starts_as_vhdx(img: Seq<u8>) -> bool {
    &&& img.len() >= 8
    &&& img[0] == 0x76 && img[1] == 0x68 && img[2] == 0x64 && img[3] == 0x78
    &&& img[4] == 0x66 && img[5] == 0x69 && img[6] == 0x6c && img[7] == 0x65
}

/// The last 512 bytes of `img` start with `conectix`.
pub open spec fn ends_as_vhd(img: Seq<u8>) -> bool {
    let n = img.len() as int;
    &&& n >= 512
    &&& img[n - 512] == 0x63 && img[n - 511] == 0x6f && img[n - 510] == 0x6e && img[n - 509] == 0x65
    &&& img[n - 508] == 0x63 && img[n - 507] == 0x74 && img[n - 506] == 0x69 && img[n - 505] == 0x78
}

proof fn eight_bytes(s: Seq<u8>, i: int, t: Seq<u8>)
    requires
        0 <= i,
        i + 8 <= s.len(),
        t.len() == 8,
    ensures
        s.subrange(i, i + 8) == t <==> s[i] == t[0] && s[i + 1] == t[1] && s[i + 2] == t[2] && s[i
            + 3] == t[3] && s[i + 4] == t[4] && s[i + 5] == t[5] && s[i + 6] == t[6] && s[i + 7]
            == t[7],
{
    let p = s.subrange(i, i + 8);
    assert(p[0] == s[i] && p[1] == s[i + 1] && p[2] == s[i + 2] && p[3] == s[i + 3] && p[4] == s[i
        + 4] && p[5] == s[i + 5] && p[6] == s[i + 6] && p[7] == s[i + 7]);
    if p[0] == t[0] && p[1] == t[1] && p[2] == t[2] && p[3] == t[3] && p[4] == t[4] && p[5] == t[5]
        && p[6] == t[6] && p[7] == t[7] {
        assert(p =~= t);
    }
}

/// The bytes of an image tell its format, whatever its name: `vhdxfile` in front
/// before `conectix` 512 bytes before the end, and raw without either.
pub proof fn bytes_tell_the_format(img: Seq<u8>)
    ensures
        super::format_of(img) is Vhdx <==> starts_as_vhdx(img),
        super::format_of(img) is Vhd <==> ends_as_vhd(img) && !starts_as_vhdx(img),
        super::format_of(img) is Raw <==> !ends_as_vhd(img) && !starts_as_vhdx(img),
{
    if img.len() >= 8 {
        assert(img.take(8) =~= img.subrange(0, 8));
        eight_bytes(img, 0, super::vhdx_identifier());
    }
    if img.len() >= 512 {
        eight_bytes(img, img.len() - 512, vhd::footer::footer_cookie());
    }
}

/// A raw image is served as it is, and a VHDX as the disk that its layout
/// describes.
pub proof fn image_is_served<S: BackingStore>(image: S, increments: Seq<S>, b: Backing<S>)
    requires
        super::opens_as(image, increments, b),
    ensures
        !starts_as_vhdx(image.content()) && !ends_as_vhd(image.content()) ==> b.content()
            == image.content(),
        starts_as_vhdx(image.content()) ==> vhdx::layout_of(image.content()) is Ok && b.content()
            == vhdx::layout_of(image.content())->Ok_0.disk(image.content()),
        ends_as_vhd(image.content()) && !starts_as_vhdx(image.content()) && increments.len() == 0
            ==> vhd::is_disk_of(b.content(), image.content()),
{
    bytes_tell_the_format(image.content());
}

/// The layout of the increment in `image`.
pub open spec fn layout<S: BackingStore>(image: S) -> Layout {
    dynamic::layout_of(image.content())->Ok_0
}

/// A VHD with increments, given oldest first, is served as a chain: a sector
/// comes from the last increment that marks it.
pub proof fn last_increment_that_marks_counts<S: BackingStore>(
    image: S,
    increments: Seq<S>,
    b: Backing<S>,
    k: int,
    i: int,
)
    requires
        super::opens_as(image, increments, b),
        ends_as_vhd(image.content()),
        !starts_as_vhdx(image.content()),
        0 <= k < increments.len(),
        0 <= i < b.content().len(),
        vhd::laws::marks(layout(increments[k]), increments[k].content(), i / 512),
        forall|j: int|
            k < j < increments.len() ==> !vhd::laws::marks(
                layout(#[trigger] increments[j]),
                increments[j].content(),
                i / 512,
            ),
    ensures
        b.content()[i] == increments[k].content()[vhd::laws::place(layout(increments[k]), i)],
{
    bytes_tell_the_format(image.content());
    let c = b->Chain_0;
    let n = increments.len() as int;
    layers_in_order(c, increments);
    assert(c.layers()[n - 1 - k].layout() == layout(increments[k]));
    assert forall|j: int| 0 <= j < n - 1 - k implies !vhd::laws::marks(
        (#[trigger] c.layers()[j]).layout(),
        c.layers()[j].image().content(),
        i / 512,
    ) by {
        assert(c.layers()[j].layout() == layout(increments[n - 1 - j]));
    }
    vhd::laws::newest_mark_gives_the_sector(c, n - 1 - k, i);
}

/// A sector that no increment marks comes from the last increment that stores
/// its block, and from the base where none does.
pub proof fn last_increment_that_stores_counts<S: BackingStore>(
    image: S,
    increments: Seq<S>,
    b: Backing<S>,
    k: int,
    i: int,
)
    requires
        super::opens_as(image, increments, b),
        ends_as_vhd(image.content()),
        !starts_as_vhdx(image.content()),
        increments.len() > 0,
        -1 <= k < increments.len(),
        0 <= i < b.content().len(),
        forall|j: int|
            0 <= j < increments.len() ==> !vhd::laws::marks(
                layout(#[trigger] increments[j]),
                increments[j].content(),
                i / 512,
            ),
        k >= 0 ==> vhd::laws::stores(layout(increments[k]), i / 512),
        forall|j: int|
            k < j < increments.len() ==> !vhd::laws::stores(
                layout(#[trigger] increments[j]),
                i / 512,
            ),
    ensures
        k >= 0 ==> b.content()[i] == increments[k].content()[vhd::laws::place(
            layout(increments[k]),
            i,
        )],
        k == -1 ==> exists|base: Seq<u8>| #[trigger]
            vhd::is_disk_of(base, image.content()) && base.len() == b.content().len()
                && b.content()[i] == base[i],
{
    bytes_tell_the_format(image.content());
    let c = b->Chain_0;
    let n = increments.len() as int;
    layers_in_order(c, increments);
    assert forall|j: int| 0 <= j < n implies !vhd::laws::marks(
        (#[trigger] c.layers()[j]).layout(),
        c.layers()[j].image().content(),
        i / 512,
    ) by {
        assert(c.layers()[j].layout() == layout(increments[n - 1 - j]));
    }
    assert forall|j: int| 0 <= j < n - 1 - k && j < n implies !vhd::laws::stores(
        (#[trigger] c.layers()[j]).layout(),
        i / 512,
    ) by {
        assert(c.layers()[j].layout() == layout(increments[n - 1 - j]));
    }
    if k >= 0 {
        assert(c.layers()[n - 1 - k].layout() == layout(increments[k]));
        vhd::laws::newest_stored_block_gives_the_sector(c, n - 1 - k, i);
    } else {
        vhd::laws::base_gives_what_no_increment_stores(c, i);
        assert(vhd::is_disk_of(c.base().content(), image.content()));
    }
}

proof fn layers_in_order<S: BackingStore>(
    c: chain::ChainedVhd<vhd::Vhd<S>, S>,
    increments: Seq<S>,
)
    requires
        c.layers().len() == increments.len(),
        forall|j: int|
            0 <= j < c.layers().len() ==> chain::is_layer(
                #[trigger] c.layers()[j],
                increments[increments.len() - 1 - j],
                c.base().content().len() as int,
            ),
    ensures
        forall|j: int|
            0 <= j < c.layers().len() ==> {
                &&& (#[trigger] c.layers()[j]).layout().wf()
                &&& c.layers()[j].layout() == layout(increments[increments.len() - 1 - j])
                &&& c.layers()[j].image() == increments[increments.len() - 1 - j]
            },
{
    assert forall|j: int| 0 <= j < c.layers().len() implies {
        &&& (#[trigger] c.layers()[j]).layout().wf()
        &&& c.layers()[j].layout() == layout(increments[increments.len() - 1 - j])
        &&& c.layers()[j].image() == increments[increments.len() - 1 - j]
    } by {
        vhd::laws::layers_are_their_files(
            c.layers()[j],
            increments[increments.len() - 1 - j],
            c.base().content().len() as int,
        );
    }
}

/// The increments of the base `stem.ext` are the files `stem.<digits>.ext`,
/// numbered by the digits, with letters of either case, as far as the number
/// fits in 32 bits.
pub proof fn increments_are_numbered(
    stem: Seq<char>,
    ext: Seq<char>,
    digits: Seq<char>,
    number: int,
)
    requires
        vstd::utf8::is_ascii_chars(stem),
        vstd::utf8::is_ascii_chars(ext),
        text::parse_number(digits, u32::MAX as int) == Some(number),
        digits[0] != '+',
    ensures
        chain::increment_number(stem, ext, stem + seq!['.'] + digits + seq!['.'] + ext) == Some(
            number,
        ),
        chain::increment_number(
            text::ascii_lower(stem),
            text::ascii_lower(ext),
            stem + seq!['.'] + digits + seq!['.'] + ext,
        ) == Some(number),
{
    let name = stem + seq!['.'] + digits + seq!['.'] + ext;
    assert(vstd::utf8::is_ascii_chars(name)) by {
        assert forall|i: int| 0 <= i < name.len() implies '\0' <= #[trigger] name[i] <= '\u{7f}' by {
            if stem.len() < i < stem.len() + 1 + digits.len() {
                assert(text::is_digit(digits[i - stem.len() - 1]));
            }
        }
    }
    let s = text::ascii_lower(stem);
    let e = text::ascii_lower(ext);
    let n = text::ascii_lower(name);
    assert(vstd::utf8::is_ascii_chars(s));
    assert(vstd::utf8::is_ascii_chars(e));
    assert(text::ascii_lower(s) =~= s);
    assert(text::ascii_lower(e) =~= e);
    assert(n.take(s.len() as int) =~= s);
    assert(n.skip(s.len() as int + digits.len() + 2) =~= e);
    assert forall|i: int| 0 <= i < digits.len() implies n[s.len() + 1 + i] == #[trigger] digits[i] by {
        assert(text::is_digit(digits[i]));
        assert(name[s.len() + 1 + i] == digits[i]);
    }
    assert(n.subrange(s.len() as int + 1, s.len() as int + 1 + digits.len()) =~= digits);
}

/// A name with anything but the base's stem in front, its extension behind and a
/// number between is no increment of it.
pub proof fn other_files_are_no_increments(stem: Seq<char>, ext: Seq<char>, name: Seq<char>)
    requires
        vstd::utf8::is_ascii_chars(stem),
        vstd::utf8::is_ascii_chars(ext),
        vstd::utf8::is_ascii_chars(name),
    ensures
        chain::increment_number(stem, ext, name) matches Some(number) ==> {
            let k = name.len() - stem.len() - ext.len() - 2;
            let digits = name.subrange(stem.len() as int + 1, stem.len() + 1 + k);
            &&& k > 0
            &&& text::same_ignoring_case(name.take(stem.len() as int), stem)
            &&& text::same_ignoring_case(name.skip(stem.len() + 2 + k), ext)
            &&& name[stem.len() as int] == '.' && name[stem.len() + 1 + k] == '.'
            &&& text::parse_number(digits, u32::MAX as int) == Some(number)
        },
{
    if chain::increment_number(stem, ext, name) is Some {
        let k = name.len() - stem.len() - ext.len() - 2;
        let n = text::ascii_lower(name);
        let digits = name.subrange(stem.len() as int + 1, stem.len() + 1 + k);
        let num = n.subrange(stem.len() as int + 1, stem.len() + 1 + k);
        assert(text::ascii_lower(name.take(stem.len() as int)) =~= n.take(stem.len() as int));
        assert(text::ascii_lower(name.skip(stem.len() + 2 + k)) =~= n.skip(stem.len() + 2 + k));
        assert forall|i: int| 0 <= i < k implies #[trigger] digits[i] == num[i] by {
            assert(text::is_digit(num[i]));
            assert(num[i] == text::lower_char(digits[i]));
        }
        assert(digits =~= num);
        assert(text::is_digit(num[0]));
    }
}

/// Increments are put in the order of their numbers; files of one number, which
/// differ in the case of letters or in leading zeros, stay as they were listed.
pub proof fn numbers_give_the_order(a: int, i: int, b: int, j: int)
    ensures
        a < b ==> chain::before(a, i, b, j) && !chain::before(b, j, a, i),
        a == b && i < j ==> chain::before(a, i, b, j) && !chain::before(b, j, a, i),
        !chain::before(a, i, a, i),
{
}

} // verus!
