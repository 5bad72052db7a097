//! CCBoot-style VHD increment chains.
//!
//! CCBoot stores a master image as a base VHD plus numbered increment files
//! (`name.vhd` + `name.001.vhd` .. `name.00N.vhd`). Each increment is a plain
//! *dynamic* VHD (disk type 3, not differencing) whose per-sector bitmap marks
//! which sectors that layer overrides; parent linkage is purely the file-name
//! convention. A read must take each sector from the highest-numbered layer
//! whose bitmap claims it, falling through to the base otherwise.
use vstd::prelude::*;
use super::dynamic;
use super::dynamic::{DynamicVhd, Layout};
use super::footer::SECTOR;
use crate::storage;
use crate::storage::blockmap;
use crate::storage::raw;
use crate::storage::{BackingStore, StorageError};
use crate::text;

verus! {

/// The first layer from `k` on whose bitmap claims `sector`, and where the
/// sector's data is in it.
pub open spec fn claimed_from<S: BackingStore>(
    layers: Seq<DynamicVhd<S>>,
    k: int,
    sector: int,
) -> Option<(int, int)>
    decreases layers.len() - k,
{
    if k < 0 || k >= layers.len() {
        None
    } else {
        match layers[k].layout().sector_data(layers[k].image().content(), sector) {
            Some(at) => Some((k, at)),
            None => claimed_from(layers, k + 1, sector),
        }
    }
}

/// The first layer from `k` on that stores the block of `sector`, and where
/// the sector's data is in it.
pub open spec fn captured_from<S: BackingStore>(
    layers: Seq<DynamicVhd<S>>,
    k: int,
    sector: int,
) -> Option<(int, int)>
    decreases layers.len() - k,
{
    if k < 0 || k >= layers.len() {
        None
    } else {
        match layers[k].layout().block_data(sector) {
            Some(at) => Some((k, at)),
            None => captured_from(layers, k + 1, sector),
        }
    }
}

/// Which layer serves `sector`, and where its data is: the newest whose bitmap
/// claims it; otherwise the newest that stores its block, since CCBoot captures
/// whole blocks without always setting every bit; otherwise none, and the base
/// does.
pub open spec fn resolved<S: BackingStore>(layers: Seq<DynamicVhd<S>>, sector: int) -> Option<
    (int, int),
> {
    match claimed_from(layers, 0, sector) {
        Some(place) => Some(place),
        None => captured_from(layers, 0, sector),
    }
}

/// Byte `i` of a base overlaid by `layers`, newest first.
pub open spec fn chain_byte<S: BackingStore>(
    base: Seq<u8>,
    layers: Seq<DynamicVhd<S>>,
    i: int,
) -> u8 {
    match resolved(layers, i / (SECTOR as int)) {
        Some((k, at)) => layers[k].image().content()[at + i % (SECTOR as int)],
        None => base[i],
    }
}

/// A base backing store overlaid by CCBoot increment layers (newest first).
pub struct ChainedVhd<B, S: BackingStore> {
    overlays: Vec<DynamicVhd<S>>,
    base: B,
}

/// `layer` is the dynamic VHD in `image`, of the base's size.
pub open spec fn is_layer<S: BackingStore>(layer: DynamicVhd<S>, image: S, base_size: int) -> bool {
    &&& layer.image() == image
    &&& dynamic::layout_of(image.content()) == Ok::<Layout, Option<StorageError>>(layer.layout())
    &&& layer.layout().size == base_size
}

/// `e` is why the increment in `image`, number `index`, does not belong to a
/// base of `base_size` bytes.
pub open spec fn refuses<S: BackingStore>(
    image: S,
    index: int,
    base_size: int,
    e: StorageError,
) -> bool {
    match dynamic::layout_of(image.content()) {
        Ok(l) => l.size != base_size && e == (StorageError::IncrementSize {
            index: index as usize,
            size: l.size,
            base: base_size as u64,
        }),
        Err(reason) => reason == Some(e),
    }
}

/// The image is a dynamic VHD of the base's size.
pub open spec fn belongs<S: BackingStore>(image: S, base_size: int) -> bool {
    dynamic::layout_of(image.content()) matches Ok(l) && l.size == base_size
}

/// Increment `k` is the newest that does not go with a base of `base_size`
/// bytes, and `e` says why.
pub open spec fn newest_refused<S: BackingStore>(
    increments: Seq<S>,
    k: int,
    base_size: int,
    e: StorageError,
) -> bool {
    &&& 0 <= k < increments.len()
    &&& refuses(increments[k], k, base_size, e) || e is Unreadable && unfit(increments[k])
    &&& forall|j: int| k < j < increments.len() ==> belongs(#[trigger] increments[j], base_size)
}

/// The image cannot be read in full, or its structures lead outside it.
pub open spec fn unfit<S: BackingStore>(image: S) -> bool {
    !storage::all_readable(&image) || dynamic::layout_of(image.content()) == Err::<
        Layout,
        Option<StorageError>,
    >(None)
}

spec fn newer_belong<S: BackingStore>(all: Seq<S>, k: int, base_size: int) -> bool {
    forall|j: int| k < j < all.len() ==> belongs(#[trigger] all[j], base_size)
}

proof fn layers_belong<S: BackingStore>(
    all: Seq<S>,
    layers: Seq<DynamicVhd<S>>,
    k: int,
    base_size: int,
)
    requires
        k == all.len() - 1 - layers.len(),
        forall|j: int| 0 <= j < layers.len() ==> is_layer(
            #[trigger] layers[j],
            all[all.len() - 1 - j],
            base_size,
        ),
    ensures
        newer_belong(all, k, base_size),
{
    assert forall|j: int| k < j < all.len() implies belongs(#[trigger] all[j], base_size) by {
        let i = all.len() - 1 - j;
        assert(is_layer(layers[i], all[all.len() - 1 - i], base_size));
    }
}

impl<B: BackingStore, S: BackingStore> ChainedVhd<B, S> {
    /// The base image.
    pub closed spec fn base(&self) -> B {
        self.base
    }

    /// The layers, newest first.
    pub closed spec fn layers(&self) -> Seq<DynamicVhd<S>> {
        self.overlays@
    }

    /// Assemble a chain from an already-open base and increment images ordered
    /// oldest -> newest (the `.001`, `.002`, ... order on disk).
    pub fn open(base: B, increments: Vec<S>) -> (r: Result<Self, StorageError>)
        ensures
            match r {
                Ok(c) => {
                    &&& c.base() == base
                    &&& c.layers().len() == increments@.len()
                    &&& forall|j: int| 0 <= j < c.layers().len() ==> is_layer(
                        #[trigger] c.layers()[j],
                        increments@[increments@.len() - 1 - j],
                        base.content().len() as int,
                    )
                },
                Err(e) => exists|k: int| #[trigger]
                    newest_refused(increments@, k, base.content().len() as int, e),
            },
    {
        let virtual_size: u64 = base.size_bytes();
        let ghost all = increments@;
        let mut left = increments;
        let mut overlays: Vec<DynamicVhd<S>> = Vec::new();
        // Newest increment wins, so probe layers in reverse file order.
        while left.len() > 0
            invariant
                virtual_size == base.content().len(),
                all == increments@,
                left@.len() + overlays@.len() == all.len(),
                left@ == all.take(left@.len() as int),
                forall|j: int| 0 <= j < overlays@.len() ==> is_layer(
                    #[trigger] overlays@[j],
                    all[all.len() - 1 - j],
                    virtual_size as int,
                ),
            decreases left@.len(),
        {
            let index: usize = left.len() - 1;
            let image = match left.pop() {
                Some(image) => image,
                None => {
                    return Ok(ChainedVhd { overlays, base });
                },
            };
            assert(image == all[index as int]);
            let layer = match DynamicVhd::open(image) {
                Ok(l) => l,
                Err(e) => {
                    assert(newer_belong(all, index as int, virtual_size as int)) by {
                        layers_belong(all, overlays@, index as int, virtual_size as int);
                    }
                    assert(newest_refused(all, index as int, virtual_size as int, e));
                    return Err(e);
                },
            };
            let size: u64 = layer.size_bytes();
            if size != virtual_size {
                let e = StorageError::IncrementSize { index, size, base: virtual_size };
                assert(newer_belong(all, index as int, virtual_size as int)) by {
                    layers_belong(all, overlays@, index as int, virtual_size as int);
                }
                assert(newest_refused(all, index as int, virtual_size as int, e));
                return Err(e);
            }
            overlays.push(layer);
            assert(left@ =~= all.take(left@.len() as int));
        }
        Ok(ChainedVhd { overlays, base })
    }

    /// The BAT of every layer that is asked for `sector` lists its block: of every
    /// layer down to the one that claims it.
    pub open spec fn lists(&self, sector: int) -> bool {
        forall|k: int|
            0 <= k < self.layers().len() && (claimed_from(self.layers(), 0, sector) matches Some(
                claim,
            ) ==> k <= claim.0) ==> (#[trigger] self.layers()[k]).lists(sector)
    }

    /// Reading byte `i` gives the error `e`: the BAT of a layer that is asked for
    /// it does not list its block, or it is stored where it cannot be read.
    pub open spec fn fails(&self, i: int, e: StorageError) -> bool {
        let sector = i / (SECTOR as int);
        ||| !self.lists(sector) && e == StorageError::BeyondBat
        ||| self.lists(sector) && !self.readable(i)
    }

    /// Which layer serves `sector`, and where its data is.
    fn resolve(&self, sector: u64) -> (r: Result<Option<(usize, u64)>, StorageError>)
        ensures
            match r {
                Ok(Some((k, at))) => {
                    &&& resolved(self.layers(), sector as int) == Some((k as int, at as int))
                    &&& k < self.layers().len()
                    &&& at <= dynamic::MAX_OFFSET
                    &&& self.lists(sector as int)
                },
                Ok(None) => resolved(self.layers(), sector as int) is None && self.lists(
                    sector as int,
                ),
                Err(e) => e == StorageError::BeyondBat && !self.lists(sector as int),
            },
    {
        let n: usize = self.overlays.len();
        let mut k: usize = 0;
        while k < n
            invariant
                k <= n,
                n == self.overlays@.len(),
                claimed_from(self.overlays@, 0, sector as int) == claimed_from(
                    self.overlays@,
                    k as int,
                    sector as int,
                ),
                forall|j: int| 0 <= j < k ==> (#[trigger] self.layers()[j]).lists(sector as int),
            decreases n - k,
        {
            match self.overlays[k].sector_offset(sector) {
                Ok(Some(at)) => {
                    return Ok(Some((k, at)));
                },
                Ok(None) => {},
                Err(e) => {
                    proof {
                        claim_is_behind(self.layers(), k as int, sector as int);
                        assert(!self.layers()[k as int].lists(sector as int));
                    }
                    return Err(e);
                },
            }
            k += 1;
        }
        let mut j: usize = 0;
        while j < n
            invariant
                j <= n,
                n == self.overlays@.len(),
                claimed_from(self.overlays@, 0, sector as int) is None,
                forall|i: int| 0 <= i < n ==> (#[trigger] self.layers()[i]).lists(sector as int),
                captured_from(self.overlays@, 0, sector as int) == captured_from(
                    self.overlays@,
                    j as int,
                    sector as int,
                ),
            decreases n - j,
        {
            match self.overlays[j].block_sector_offset(sector) {
                Ok(Some(at)) => {
                    return Ok(Some((j, at)));
                },
                Ok(None) => {},
                Err(e) => {
                    assert(!self.layers()[j as int].lists(sector as int));
                    return Err(e);
                },
            }
            j += 1;
        }
        Ok(None)
    }
}

impl<B: BackingStore, S: BackingStore> BackingStore for ChainedVhd<B, S> {
    open spec fn content(&self) -> Seq<u8> {
        Seq::new(
            self.base().content().len(),
            |i: int| chain_byte(self.base().content(), self.layers(), i),
        )
    }

    /// The BATs asked for the byte list its block, and the byte can be read where
    /// it is stored.
    open spec fn readable(&self, i: int) -> bool {
        &&& self.lists(i / (SECTOR as int))
        &&& match resolved(self.layers(), i / (SECTOR as int)) {
            Some((k, at)) => {
                let image = self.layers()[k].image();
                at + i % (SECTOR as int) < image.content().len() && image.readable(
                    at + i % (SECTOR as int),
                )
            },
            None => self.base().readable(i),
        }
    }

    fn size_bytes(&self) -> (n: u64) {
        self.base.size_bytes()
    }

    fn read_at(&self, offset: u64, buf: &mut [u8]) -> (r: Result<(), StorageError>)
        ensures
            offset + old(buf)@.len() > self.content().len() ==> r == Err::<(), StorageError>(
                raw::range_error(offset, old(buf)@.len() as int, self.content().len() as u64),
            ),
            r matches Err(e) ==> offset + old(buf)@.len() <= self.content().len() ==> exists|i: int|
                offset <= i < offset + old(buf)@.len() && #[trigger] self.fails(i, e),
    {
        let n: usize = buf.len();
        let size: u64 = self.base.size_bytes();
        match raw::check_range(offset, n, size) {
            Ok(_) => {},
            Err(e) => {
                return Err(e);
            },
        }
        let mut done: usize = 0;
        while done < n
            invariant
                done <= n,
                n == old(buf)@.len(),
                buf@.len() == n,
                size == self.content().len(),
                offset + n <= size,
                forall|i: int| 0 <= i < done ==> buf@[i] == self.content()[offset + i],
            decreases n - done,
        {
            let pos: u64 = offset + done as u64;
            let sector: u64 = pos / SECTOR;
            let within: u64 = pos % SECTOR;
            let left: u64 = (n - done) as u64;
            let take: usize = if SECTOR - within < left {
                (SECTOR - within) as usize
            } else {
                left as usize
            };
            let ghost before = buf@;
            let place = match self.resolve(sector) {
                Ok(p) => p,
                Err(e) => {
                    assert(!self.readable(pos as int));
                    assert(self.fails(pos as int, e));
                    return Err(e);
                },
            };
            let (_head, rest) = buf.split_at_mut(done);
            let (seg, _tail) = rest.split_at_mut(take);
            match place {
                Some((k, at)) => {
                    let r = self.overlays[k].read_phys(at + within, seg);
                    if r.is_err() {
                        proof {
                            let e = r->Err_0;
                            let img = self.layers()[k as int].image();
                            let start = at + within;
                            let i = storage::unreadable_byte(&img, start, start + take);
                            blockmap::same_unit(pos as int, SECTOR as int, i - start);
                            assert(self.fails(pos + (i - start), e));
                            assert(!self.readable(pos + (i - start)));
                        }
                        return r;
                    }
                },
                None => {
                    let r = self.base.read_at(pos, seg);
                    if r.is_err() {
                        proof {
                            let e = r->Err_0;
                            let i = storage::unreadable_byte(&self.base(), pos as int, pos + take);
                            blockmap::same_unit(pos as int, SECTOR as int, i - pos);
                            assert(self.fails(i, e));
                            assert(!self.readable(i));
                        }
                        return r;
                    }
                },
            }
            proof {
                assert forall|i: int| 0 <= i < done + take implies buf@[i] == self.content()[offset
                    + i] by {
                    if i < done {
                        assert(buf@[i] == before[i]);
                    } else {
                        blockmap::same_unit(pos as int, SECTOR as int, i - done);
                        if let Some((k, at)) = place {
                            let img = self.overlays@[k as int].image().content();
                            assert(buf@[i] == img.subrange(at + within, at + within + take)[i
                                - done]);
                        } else {
                            assert(buf@[i] == self.base.content().subrange(
                                pos as int,
                                pos + take,
                            )[i - done]);
                        }
                    }
                }
            }
            done += take;
        }
        assert(buf@ =~= self.content().subrange(offset as int, offset + n));
        Ok(())
    }
}

/// A sector that no layer stores reads from the base.
pub proof fn uncaptured_sector_reads_base<S: BackingStore>(
    base: Seq<u8>,
    layers: Seq<DynamicVhd<S>>,
    i: int,
)
    requires
        forall|k: int| 0 <= k < layers.len() ==> (#[trigger] layers[k]).layout().block_data(
            i / (SECTOR as int),
        ) is None,
    ensures
        chain_byte(base, layers, i) == base[i],
{
    none_from(layers, 0, i / (SECTOR as int));
}

pub(crate) proof fn none_from<S: BackingStore>(layers: Seq<DynamicVhd<S>>, k: int, sector: int)
    requires
        0 <= k,
        forall|j: int| k <= j < layers.len() ==> (#[trigger] layers[j]).layout().block_data(
            sector,
        ) is None,
    ensures
        claimed_from(layers, k, sector) is None,
        captured_from(layers, k, sector) is None,
    decreases layers.len() - k,
{
    if k < layers.len() {
        none_from(layers, k + 1, sector);
    }
}

/// A claim found from `k` on is at `k` or behind it.
proof fn claim_is_behind<S: BackingStore>(layers: Seq<DynamicVhd<S>>, k: int, sector: int)
    ensures
        claimed_from(layers, k, sector) matches Some(claim) ==> k <= claim.0,
    decreases layers.len() - k,
{
    if 0 <= k < layers.len() {
        claim_is_behind(layers, k + 1, sector);
    }
}

/// An explicit write wins over everything older: a sector that a layer claims,
/// and no newer one does, reads from that layer.
pub proof fn newest_claim_wins<S: BackingStore>(
    base: Seq<u8>,
    layers: Seq<DynamicVhd<S>>,
    k: int,
    i: int,
)
    requires
        0 <= k < layers.len(),
        forall|j: int| 0 <= j < k ==> (#[trigger] layers[j]).layout().sector_data(
            layers[j].image().content(),
            i / (SECTOR as int),
        ) is None,
        layers[k].layout().sector_data(layers[k].image().content(), i / (SECTOR as int)) is Some,
    ensures
        chain_byte(base, layers, i) == layers[k].image().content()[layers[k].layout().sector_data(
            layers[k].image().content(),
            i / (SECTOR as int),
        )->0 + i % (SECTOR as int)],
{
    first_claim(layers, 0, k, i / (SECTOR as int));
}

pub(crate) proof fn first_claim<S: BackingStore>(layers: Seq<DynamicVhd<S>>, from: int, k: int, sector: int)
    requires
        0 <= from <= k < layers.len(),
        forall|j: int| from <= j < k ==> (#[trigger] layers[j]).layout().sector_data(
            layers[j].image().content(),
            sector,
        ) is None,
        layers[k].layout().sector_data(layers[k].image().content(), sector) is Some,
    ensures
        claimed_from(layers, from, sector) == Some(
            (k, layers[k].layout().sector_data(layers[k].image().content(), sector)->0),
        ),
    decreases k - from,
{
    if from < k {
        first_claim(layers, from + 1, k, sector);
    }
}

/// A sector that no layer claims reads from the newest layer that stores its
/// block.
pub proof fn newest_capture_wins<S: BackingStore>(
    base: Seq<u8>,
    layers: Seq<DynamicVhd<S>>,
    k: int,
    i: int,
)
    requires
        0 <= k < layers.len(),
        forall|j: int| 0 <= j < layers.len() ==> (#[trigger] layers[j]).layout().sector_data(
            layers[j].image().content(),
            i / (SECTOR as int),
        ) is None,
        forall|j: int| 0 <= j < k ==> (#[trigger] layers[j]).layout().block_data(
            i / (SECTOR as int),
        ) is None,
        layers[k].layout().block_data(i / (SECTOR as int)) is Some,
    ensures
        chain_byte(base, layers, i) == layers[k].image().content()[layers[k].layout().block_data(
            i / (SECTOR as int),
        )->0 + i % (SECTOR as int)],
{
    no_claim(layers, 0, i / (SECTOR as int));
    first_capture(layers, 0, k, i / (SECTOR as int));
}

proof fn no_claim<S: BackingStore>(layers: Seq<DynamicVhd<S>>, from: int, sector: int)
    requires
        0 <= from,
        forall|j: int| from <= j < layers.len() ==> (#[trigger] layers[j]).layout().sector_data(
            layers[j].image().content(),
            sector,
        ) is None,
    ensures
        claimed_from(layers, from, sector) is None,
    decreases layers.len() - from,
{
    if from < layers.len() {
        no_claim(layers, from + 1, sector);
    }
}

proof fn first_capture<S: BackingStore>(
    layers: Seq<DynamicVhd<S>>,
    from: int,
    k: int,
    sector: int,
)
    requires
        0 <= from <= k < layers.len(),
        forall|j: int| from <= j < k ==> (#[trigger] layers[j]).layout().block_data(sector) is None,
        layers[k].layout().block_data(sector) is Some,
    ensures
        captured_from(layers, from, sector) == Some((k, layers[k].layout().block_data(sector)->0)),
    decreases k - from,
{
    if from < k {
        first_capture(layers, from + 1, k, sector);
    }
}

/// The number of the increment file `name` of the base `stem.ext`: `name` is
/// `stem.<digits>.ext`, but for case.
pub open spec fn increment_number(stem: Seq<char>, ext: Seq<char>, name: Seq<char>) -> Option<int> {
    let s = text::lowercase(stem);
    let e = text::lowercase(ext);
    let n = text::lowercase(name);
    let k = n.len() - s.len() - e.len() - 2;
    let num = n.subrange(s.len() as int + 1, s.len() + 1 + k);
    if k > 0 && n.take(s.len() as int) == s && n[s.len() as int] == '.' && n[s.len() + 1 + k]
        == '.' && n.skip(s.len() + k + 2) == e && text::all_digits(num) && text::digits_value(num)
        <= u32::MAX {
        Some(text::digits_value(num))
    } else {
        None
    }
}

/// The number of an increment file, given the lower-case stem and extension.
fn number_of(stem_lc: &[char], ext_lc: &[char], name: &str) -> (r: Option<u32>)
    ensures
        forall|stem: Seq<char>, ext: Seq<char>|
            text::lowercase(stem) == stem_lc@ && text::lowercase(ext) == ext_lc@
                ==> match #[trigger] increment_number(stem, ext, name@) {
                Some(v) => r matches Some(n) && n == v,
                None => r is None,
            },
{
    let lc = text::to_lowercase(name);
    let n: Vec<char> = text::chars_of(lc.as_str());
    let len: usize = n.len();
    let s: usize = stem_lc.len();
    let e: usize = ext_lc.len();
    if len <= 2 || s > len - 2 || e >= len - 2 - s {
        return None;
    }
    let k: usize = len - s - e - 2;
    let ghost num = n@.subrange(s + 1, s + 1 + k);
    assert(n@.take(s as int) =~= n@.subrange(0, s as int));
    assert(n@.skip(s + k + 2) =~= n@.subrange(s + k + 2, len as int));
    if !text::chars_eq(vstd::slice::slice_subrange(n.as_slice(), 0, s), stem_lc) || n[s] != '.'
        || n[s + 1 + k] != '.' || !text::chars_eq(
        vstd::slice::slice_subrange(n.as_slice(), s + k + 2, len),
        ext_lc,
    ) {
        return None;
    }
    if !text::are_digits(n.as_slice(), s + 1, s + 1 + k) {
        return None;
    }
    let digits = text::string_of(n.as_slice(), s + 1, s + 1 + k);
    assert(text::is_digit(num[0]));
    assert(text::unsigned_part(num) == num);
    text::parse_u32(digits.as_str())
}

/// `(a, i)` comes before `(b, j)`: by number, then by place in the listing.
pub open spec fn before(a: int, i: int, b: int, j: int) -> bool {
    a < b || (a == b && i < j)
}

/// Find CCBoot increment files of the base `stem.ext` among the `names` of its
/// directory (`stem.001.ext`, `stem.002.ext`, ...), matched
/// case-insensitively: their places among `names`, oldest -> newest.
pub fn find_increments(stem: &str, ext: &str, names: &[String]) -> (out: Vec<usize>)
    ensures
        forall|a: int| 0 <= a < out@.len() ==> (#[trigger] out@[a]) < names@.len()
            && increment_number(stem@, ext@, names@[out@[a] as int]@) is Some,
        forall|a: int, b: int| #![trigger out@[a], out@[b]]
            0 <= a < b < out@.len() ==> before(
                increment_number(stem@, ext@, names@[out@[a] as int]@)->0,
                out@[a] as int,
                increment_number(stem@, ext@, names@[out@[b] as int]@)->0,
                out@[b] as int,
            ),
        forall|j: int| 0 <= j < names@.len() && increment_number(
            stem@,
            ext@,
            (#[trigger] names@[j])@,
        ) is Some ==> out@.contains(j as usize),
{
    let stem_lc: Vec<char> = text::chars_of(text::to_lowercase(stem).as_str());
    let ext_lc: Vec<char> = text::chars_of(text::to_lowercase(ext).as_str());
    let mut nums: Vec<u32> = Vec::new();
    let mut out: Vec<usize> = Vec::new();
    let mut i: usize = 0;
    while i < names.len()
        invariant
            i <= names@.len(),
            stem_lc@ == text::lowercase(stem@),
            ext_lc@ == text::lowercase(ext@),
            nums@.len() == out@.len(),
            forall|a: int| 0 <= a < out@.len() ==> (#[trigger] out@[a]) < i && increment_number(
                stem@,
                ext@,
                names@[out@[a] as int]@,
            ) == Some(nums@[a] as int),
            forall|a: int, b: int| #![trigger out@[a], out@[b]]
                0 <= a < b < out@.len() ==> before(
                    nums@[a] as int,
                    out@[a] as int,
                    nums@[b] as int,
                    out@[b] as int,
                ),
            forall|j: int| 0 <= j < i && increment_number(
                stem@,
                ext@,
                (#[trigger] names@[j])@,
            ) is Some ==> out@.contains(j as usize),
        decreases names@.len() - i,
    {
        assert(names@.len() == names.len());
        match number_of(stem_lc.as_slice(), ext_lc.as_slice(), names[i].as_str()) {
            None => {
                assert(increment_number(stem@, ext@, names@[i as int]@) is None);
            },
            Some(n) => {
                assert(increment_number(stem@, ext@, names@[i as int]@) == Some(n as int));
                let mut p: usize = 0;
                while p < nums.len() && nums[p] <= n
                    invariant
                        p <= nums@.len(),
                        forall|a: int| 0 <= a < p ==> nums@[a] <= n,
                    decreases nums@.len() - p,
                {
                    p += 1;
                }
                let ghost out0 = out@;
                let ghost nums0 = nums@;
                proof {
                    assert forall|a: int| p <= a < nums0.len() implies n < nums0[a] by {
                        if a > p {
                            assert(before(
                                nums0[p as int] as int,
                                out0[p as int] as int,
                                nums0[a] as int,
                                out0[a] as int,
                            ));
                        }
                    }
                }
                nums.insert(p, n);
                out.insert(p, i);
                proof {
                    assert forall|j: int| 0 <= j < i + 1 && increment_number(
                        stem@,
                        ext@,
                        (#[trigger] names@[j])@,
                    ) is Some implies out@.contains(j as usize) by {
                        if j < i {
                            let a = choose|a: int| 0 <= a < out0.len() && out0[a] == j;
                            assert(out0.contains(j as usize));
                            if a < p {
                                assert(out@[a] == j);
                            } else {
                                assert(out@[a + 1] == j);
                            }
                        } else {
                            assert(out@[p as int] == i);
                        }
                    }
                }
            },
        }
        i += 1;
    }
    out
}

} // verus!
