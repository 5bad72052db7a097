//! Reads across fixed-size allocation units.
use vstd::prelude::*;
use super::raw;
use super::{BackingStore, StorageError};

verus! {

/// Where an allocation unit's data lives.
pub enum Unit {
    /// Unit is unallocated: reads as zeros.
    Zero,
    /// Unit's data starts at this absolute byte offset in the backing file.
    At(u64),
}

/// Byte number `within` of a unit that lives in `image` as `u` says.
pub open spec fn unit_byte(u: Unit, image: Seq<u8>, within: int) -> u8 {
    match u {
        Unit::Zero => 0,
        Unit::At(base) => image[base + within],
    }
}

/// `b` is the byte at virtual offset `pos`, where `locate` places its unit.
pub open spec fn located<F: Fn(u64) -> Result<Unit, StorageError>>(
    locate: F,
    image: Seq<u8>,
    unit_size: int,
    pos: int,
    b: u8,
) -> bool {
    exists|u: Unit| #[trigger]
        call_ensures(locate, ((pos / unit_size) as u64,), Ok::<Unit, StorageError>(u)) && b
            == unit_byte(u, image, pos % unit_size)
}

/// `locate` places the unit of virtual offset `pos` for sure, and the byte there
/// can be read.
pub open spec fn surely_located<S: BackingStore, F: Fn(u64) -> Result<Unit, StorageError>>(
    locate: F,
    image: &S,
    unit_size: int,
    pos: int,
) -> bool {
    forall|u: Result<Unit, StorageError>| #[trigger]
        call_ensures(locate, ((pos / unit_size) as u64,), u) ==> match u {
            Ok(Unit::Zero) => true,
            Ok(Unit::At(base)) => base + pos % unit_size < image.content().len() && image.readable(
                base + pos % unit_size,
            ),
            Err(_) => false,
        }
}

/// `e` may come of reading the byte at `pos`: `locate` gave it for the unit, or
/// the unit is in `image` and the byte there cannot be read.
pub open spec fn fails_at<S: BackingStore, F: Fn(u64) -> Result<Unit, StorageError>>(
    locate: F,
    image: &S,
    unit_size: int,
    pos: int,
    e: StorageError,
) -> bool {
    let unit = (pos / unit_size) as u64;
    ||| call_ensures(locate, (unit,), Err::<Unit, StorageError>(e))
    ||| exists|base: u64| #[trigger]
        call_ensures(locate, (unit,), Ok::<Unit, StorageError>(Unit::At(base))) && !(base + pos
            % unit_size < image.content().len() && image.readable(base + pos % unit_size))
}

/// Read `buf.len()` bytes starting at virtual byte `offset`, splitting the range
/// across fixed-size allocation units. `locate(unit_index)` says where each unit
/// is in `image`.
///
/// `offset + buf.len()` must not exceed `virtual_size`.
pub fn read_units<S: BackingStore, F: Fn(u64) -> Result<Unit, StorageError>>(
    offset: u64,
    buf: &mut [u8],
    virtual_size: u64,
    unit_size: u64,
    locate: F,
    image: &S,
) -> (r: Result<(), StorageError>)
    requires
        forall|u: u64| call_requires(locate, (u,)),
        forall|u: u64, base: u64| #[trigger]
            call_ensures(locate, (u,), Ok::<Unit, StorageError>(Unit::At(base))) ==> base
                + unit_size <= u64::MAX,
    ensures
        final(buf)@.len() == old(buf)@.len(),
        unit_size == 0 ==> r == Err::<(), StorageError>(StorageError::ZeroUnit),
        unit_size > 0 && offset + old(buf)@.len() > virtual_size ==> r == Err::<(), StorageError>(
            raw::range_error(offset, old(buf)@.len() as int, virtual_size),
        ),
        unit_size == 0 || offset + old(buf)@.len() > virtual_size ==> final(buf)@ == old(buf)@,
        r is Ok ==> unit_size > 0 && offset + old(buf)@.len() <= virtual_size && forall|i: int|
            0 <= i < old(buf)@.len() ==> located(
                locate,
                image.content(),
                unit_size as int,
                offset + i,
                #[trigger] final(buf)@[i],
            ),
        unit_size > 0 && offset + old(buf)@.len() <= virtual_size && (forall|pos: int|
            offset <= pos < offset + old(buf)@.len() ==> #[trigger] surely_located(
                locate,
                image,
                unit_size as int,
                pos,
            )) ==> r is Ok,
        r matches Err(e) ==> unit_size > 0 && offset + old(buf)@.len() <= virtual_size ==> exists|
            pos: int,
        |
            offset <= pos < offset + old(buf)@.len() && #[trigger] fails_at(
                locate,
                image,
                unit_size as int,
                pos,
                e,
            ),
{
    if unit_size == 0 {
        return Err(StorageError::ZeroUnit);
    }
    let n: usize = buf.len();
    match raw::check_range(offset, n, virtual_size) {
        Ok(_) => {},
        Err(e) => {
            return Err(e);
        },
    }
    let mut done: usize = 0;
    while done < n
        invariant
            done <= n,
            n == old(buf)@.len(),
            buf@.len() == n,
            unit_size > 0,
            offset + n <= virtual_size,
            forall|u: u64| call_requires(locate, (u,)),
            forall|u: u64, base: u64| #[trigger]
                call_ensures(locate, (u,), Ok::<Unit, StorageError>(Unit::At(base))) ==> base
                    + unit_size <= u64::MAX,
            forall|i: int| 0 <= i < done ==> located(
                locate,
                image.content(),
                unit_size as int,
                offset + i,
                #[trigger] buf@[i],
            ),
        decreases n - done,
    {
        let pos: u64 = offset + done as u64;
        let unit_index: u64 = pos / unit_size;
        let within: u64 = pos % unit_size;
        let left: u64 = (n - done) as u64;
        let take: usize = if unit_size - within < left {
            (unit_size - within) as usize
        } else {
            left as usize
        };
        let ghost before = buf@;
        let unit = match locate(unit_index) {
            Ok(u) => u,
            Err(e) => {
                assert(!surely_located(locate, image, unit_size as int, pos as int));
                assert(fails_at(locate, image, unit_size as int, pos as int, e));
                return Err(e);
            },
        };
        match unit {
            Unit::Zero => {
                fill_zero(buf, done, done + take);
            },
            Unit::At(base) => {
                assert(call_ensures(locate, (unit_index,), Ok::<Unit, StorageError>(Unit::At(base))));
                let (_head, rest) = buf.split_at_mut(done);
                let (seg, _tail) = rest.split_at_mut(take);
                let r = image.read_at(base + within, seg);
                if r.is_err() {
                    proof {
                        if forall|p: int|
                            offset <= p < offset + n ==> #[trigger] surely_located(
                                locate,
                                image,
                                unit_size as int,
                                p,
                            ) {
                            sure_span_is_readable(
                                locate,
                                image,
                                unit_size as int,
                                pos as int,
                                base,
                                take as int,
                            );
                        }
                        let start = base + within;
                        let i = super::unreadable_byte(image, start, start + take);
                        same_unit(pos as int, unit_size as int, i - start);
                        assert(fails_at(
                            locate,
                            image,
                            unit_size as int,
                            pos + (i - start),
                            r->Err_0,
                        ));
                    }
                    return r;
                }
            },
        }
        proof {
            assert forall|i: int| 0 <= i < done + take implies located(
                locate,
                image.content(),
                unit_size as int,
                offset + i,
                #[trigger] buf@[i],
            ) by {
                if i < done {
                    assert(buf@[i] == before[i]);
                } else {
                    same_unit(pos as int, unit_size as int, i - done);
                    assert(call_ensures(locate, (unit_index,), Ok::<Unit, StorageError>(unit)));
                    if let Unit::At(base) = unit {
                        assert(buf@[i] == image.content().subrange(
                            base + within,
                            base + within + take,
                        )[i - done]);
                    }
                }
            }
        }
        done += take;
    }
    Ok(())
}

proof fn sure_span_is_readable<S: BackingStore, F: Fn(u64) -> Result<Unit, StorageError>>(
    locate: F,
    image: &S,
    unit_size: int,
    pos: int,
    base: u64,
    take: int,
)
    requires
        0 <= pos,
        0 < unit_size,
        0 < take <= unit_size - pos % unit_size,
        call_ensures(
            locate,
            ((pos / unit_size) as u64,),
            Ok::<Unit, StorageError>(Unit::At(base)),
        ),
        forall|p: int|
            pos <= p < pos + take ==> #[trigger] surely_located(locate, image, unit_size, p),
    ensures
        super::span_readable(image, base + pos % unit_size, base + pos % unit_size + take),
{
    let within = pos % unit_size;
    let u = Ok::<Unit, StorageError>(Unit::At(base));
    assert forall|i: int| base + within <= i < base + within + take implies i
        < image.content().len() && #[trigger] image.readable(i) by {
        let k = i - base - within;
        same_unit(pos, unit_size, k);
        assert(surely_located(locate, image, unit_size, pos + k));
        assert(call_ensures(locate, (((pos + k) / unit_size) as u64,), u));
    }
    assert(image.readable(base + within + take - 1));
}

/// Bytes up to the end of a unit are in that unit.
pub proof fn same_unit(pos: int, unit: int, k: int)
    requires
        0 <= pos,
        0 < unit,
        0 <= k < unit - pos % unit,
    ensures
        (pos + k) / unit == pos / unit,
        (pos + k) % unit == pos % unit + k,
{
    vstd::arithmetic::div_mod::lemma_fundamental_div_mod(pos, unit);
    vstd::arithmetic::mul::lemma_mul_is_commutative(unit, pos / unit);
    vstd::arithmetic::div_mod::lemma_mod_bound(pos, unit);
    vstd::arithmetic::div_mod::lemma_fundamental_div_mod_converse(
        pos + k,
        unit,
        pos / unit,
        pos % unit + k,
    );
}

/// Zero `buf[from..to]`.
pub fn fill_zero(buf: &mut [u8], from: usize, to: usize)
    requires
        from <= to <= old(buf)@.len(),
    ensures
        final(buf)@.len() == old(buf)@.len(),
        forall|i: int| 0 <= i < old(buf)@.len() ==> #[trigger] final(buf)@[i] == if from <= i < to {
            0u8
        } else {
            old(buf)@[i]
        },
{
    let mut i: usize = from;
    while i < to
        invariant
            from <= i <= to <= old(buf)@.len(),
            buf@.len() == old(buf)@.len(),
            forall|j: int| 0 <= j < buf@.len() ==> #[trigger] buf@[j] == if from <= j < i {
                0u8
            } else {
                old(buf)@[j]
            },
        decreases to - i,
    {
        buf[i] = 0;
        i += 1;
    }
}

} // verus!
