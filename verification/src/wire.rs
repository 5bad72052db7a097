//! Fixed-width integers in byte sequences, and small byte-buffer helpers.
use vstd::prelude::*;
use vstd::slice::slice_subrange;

verus! {

/// Big-endian 16-bit integer at `i`.
pub open spec fn be16_at(s: Seq<u8>, i: int) -> u16 {
    (s[i] * 0x100 + s[i + 1]) as u16
}

/// Big-endian 24-bit integer at `i`.
pub open spec fn be24_at(s: Seq<u8>, i: int) -> int {
    s[i] * 0x1_0000 + s[i + 1] * 0x100 + s[i + 2]
}

/// Big-endian 32-bit integer at `i`.
pub open spec fn be32_at(s: Seq<u8>, i: int) -> u32 {
    (s[i] * 0x100_0000 + s[i + 1] * 0x1_0000 + s[i + 2] * 0x100 + s[i + 3]) as u32
}

/// Big-endian 64-bit integer at `i`.
pub open spec fn be64_at(s: Seq<u8>, i: int) -> u64 {
    (be32_at(s, i) * 0x1_0000_0000 + be32_at(s, i + 4)) as u64
}

/// Little-endian 16-bit integer at `i`.
pub open spec fn le16_at(s: Seq<u8>, i: int) -> u16 {
    (s[i] + s[i + 1] * 0x100) as u16
}

/// Little-endian 32-bit integer at `i`.
pub open spec fn le32_at(s: Seq<u8>, i: int) -> u32 {
    (s[i] + s[i + 1] * 0x100 + s[i + 2] * 0x1_0000 + s[i + 3] * 0x100_0000) as u32
}

/// Little-endian 64-bit integer at `i`.
pub open spec fn le64_at(s: Seq<u8>, i: int) -> u64 {
    (le32_at(s, i) + le32_at(s, i + 4) * 0x1_0000_0000) as u64
}

/// The two bytes of `x`, most significant first.
pub open spec fn be16(x: u16) -> Seq<u8> {
    seq![(x / 0x100) as u8, (x % 0x100) as u8]
}

/// The low three bytes of `x`, most significant first.
pub open spec fn be24(x: int) -> Seq<u8> {
    seq![(x / 0x1_0000 % 0x100) as u8, (x / 0x100 % 0x100) as u8, (x % 0x100) as u8]
}

/// The four bytes of `x`, most significant first.
pub open spec fn be32(x: u32) -> Seq<u8> {
    seq![
        (x / 0x100_0000) as u8,
        (x / 0x1_0000 % 0x100) as u8,
        (x / 0x100 % 0x100) as u8,
        (x % 0x100) as u8,
    ]
}

/// The eight bytes of `x`, most significant first.
pub open spec fn be64(x: u64) -> Seq<u8> {
    be32((x / 0x1_0000_0000) as u32) + be32((x % 0x1_0000_0000) as u32)
}

/// `n` zero bytes.
pub open spec fn zeros(n: int) -> Seq<u8> {
    Seq::new(n as nat, |i: int| 0u8)
}

/// `s` with the bytes from `at` on replaced by `patch`.
pub open spec fn splice(s: Seq<u8>, at: int, patch: Seq<u8>) -> Seq<u8> {
    Seq::new(s.len(), |i: int| if at <= i < at + patch.len() { patch[i - at] } else { s[i] })
}

pub fn get_be16(s: &[u8], i: usize) -> (x: u16)
    requires
        i + 2 <= s@.len(),
    ensures
        x == be16_at(s@, i as int),
{
    s[i] as u16 * 0x100 + s[i + 1] as u16
}

pub fn get_be24(s: &[u8], i: usize) -> (x: usize)
    requires
        i + 3 <= s@.len(),
    ensures
        x == be24_at(s@, i as int),
{
    s[i] as usize * 0x1_0000 + s[i + 1] as usize * 0x100 + s[i + 2] as usize
}

pub fn get_be32(s: &[u8], i: usize) -> (x: u32)
    requires
        i + 4 <= s@.len(),
    ensures
        x == be32_at(s@, i as int),
{
    s[i] as u32 * 0x100_0000 + s[i + 1] as u32 * 0x1_0000 + s[i + 2] as u32 * 0x100
        + s[i + 3] as u32
}

pub fn get_be64(s: &[u8], i: usize) -> (x: u64)
    requires
        i + 8 <= s@.len(),
    ensures
        x == be64_at(s@, i as int),
{
    assert(s@.len() == s.len());
    get_be32(s, i) as u64 * 0x1_0000_0000 + get_be32(s, i + 4) as u64
}

pub fn get_le16(s: &[u8], i: usize) -> (x: u16)
    requires
        i + 2 <= s@.len(),
    ensures
        x == le16_at(s@, i as int),
{
    s[i] as u16 + s[i + 1] as u16 * 0x100
}

pub fn get_le32(s: &[u8], i: usize) -> (x: u32)
    requires
        i + 4 <= s@.len(),
    ensures
        x == le32_at(s@, i as int),
{
    s[i] as u32 + s[i + 1] as u32 * 0x100 + s[i + 2] as u32 * 0x1_0000
        + s[i + 3] as u32 * 0x100_0000
}

pub fn get_le64(s: &[u8], i: usize) -> (x: u64)
    requires
        i + 8 <= s@.len(),
    ensures
        x == le64_at(s@, i as int),
{
    assert(s@.len() == s.len());
    get_le32(s, i) as u64 + get_le32(s, i + 4) as u64 * 0x1_0000_0000
}

pub fn push_be16(out: &mut Vec<u8>, x: u16)
    ensures
        final(out)@ == old(out)@ + be16(x),
{
    out.push((x / 0x100) as u8);
    out.push((x % 0x100) as u8);
}

/// Append the low three bytes of `x`, most significant first.
pub fn push_be24(out: &mut Vec<u8>, x: usize)
    ensures
        final(out)@ == old(out)@ + be24(x as int),
{
    out.push((x / 0x1_0000 % 0x100) as u8);
    out.push((x / 0x100 % 0x100) as u8);
    out.push((x % 0x100) as u8);
}

pub fn push_be32(out: &mut Vec<u8>, x: u32)
    ensures
        final(out)@ == old(out)@ + be32(x),
{
    out.push((x / 0x100_0000) as u8);
    out.push((x / 0x1_0000 % 0x100) as u8);
    out.push((x / 0x100 % 0x100) as u8);
    out.push((x % 0x100) as u8);
}

pub fn push_be64(out: &mut Vec<u8>, x: u64)
    ensures
        final(out)@ == old(out)@ + be64(x),
{
    push_be32(out, (x / 0x1_0000_0000) as u32);
    push_be32(out, (x % 0x1_0000_0000) as u32);
}

/// Append all of `src`.
pub fn push_bytes(out: &mut Vec<u8>, src: &[u8])
    ensures
        final(out)@ == old(out)@ + src@,
{
    out.extend_from_slice(src);
    assert(out@ =~= old(out)@ + src@);
}

/// Append `n` zero bytes.
pub fn push_zeros(out: &mut Vec<u8>, n: usize)
    ensures
        final(out)@ == old(out)@ + zeros(n as int),
{
    let mut i: usize = 0;
    while i < n
        invariant
            i <= n,
            out@ == old(out)@ + zeros(i as int),
        decreases n - i,
    {
        out.push(0);
        i += 1;
    }
}

/// A buffer of `n` zero bytes.
pub fn zeroed(n: usize) -> (out: Vec<u8>)
    ensures
        out@ == zeros(n as int),
{
    let out: Vec<u8> = vec![0u8; n];
    assert(out@ =~= zeros(n as int));
    out
}

/// A copy of `src[from..to]`.
pub fn sub_vec(src: &[u8], from: usize, to: usize) -> (out: Vec<u8>)
    requires
        from <= to <= src@.len(),
    ensures
        out@ == src@.subrange(from as int, to as int),
{
    let mut out: Vec<u8> = Vec::new();
    push_bytes(&mut out, slice_subrange(src, from, to));
    assert(out@ =~= src@.subrange(from as int, to as int));
    out
}

/// Overwrite `dst[at..at + src.len()]` with `src`.
pub fn copy_into(dst: &mut [u8], at: usize, src: &[u8])
    requires
        at + src@.len() <= old(dst)@.len(),
    ensures
        final(dst)@ == splice(old(dst)@, at as int, src@),
{
    let n: usize = dst.len();
    let mut i: usize = 0;
    while i < src.len()
        invariant
            i <= src@.len(),
            at + src@.len() <= n,
            dst@.len() == n,
            dst@ == splice(old(dst)@, at as int, src@.subrange(0, i as int)),
        decreases src@.len() - i,
    {
        dst[at + i] = src[i];
        i += 1;
        assert(dst@ =~= splice(old(dst)@, at as int, src@.subrange(0, i as int)));
    }
    assert(src@.subrange(0, i as int) =~= src@);
}

/// Whether two byte slices hold the same bytes.
pub fn bytes_eq(a: &[u8], b: &[u8]) -> (eq: bool)
    ensures
        eq == (a@ == b@),
{
    if a.len() != b.len() {
        return false;
    }
    let mut i: usize = 0;
    while i < a.len()
        invariant
            i <= a@.len(),
            a@.len() == b@.len(),
            forall|j: int| 0 <= j < i ==> a@[j] == b@[j],
        decreases a@.len() - i,
    {
        if a[i] != b[i] {
            return false;
        }
        i += 1;
    }
    assert(a@ =~= b@);
    true
}

/// `x` is a power of two.
pub open spec fn power_of_two(x: int) -> bool {
    exists|k: nat| x == #[trigger] vstd::arithmetic::power2::pow2(k)
}

/// Whether `x` is a power of two.
pub fn is_power_of_two(x: u64) -> (r: bool)
    ensures
        r == power_of_two(x as int),
{
    let mut p: u64 = 1;
    let ghost mut k: nat = 0;
    proof {
        vstd::arithmetic::power2::lemma2_to64();
    }
    while p < x
        invariant
            p == vstd::arithmetic::power2::pow2(k),
            p >= 1,
            k > 0 ==> vstd::arithmetic::power2::pow2((k - 1) as nat) < x,
        decreases 0x1_0000_0000_0000_0000 - p,
    {
        proof {
            vstd::arithmetic::power2::lemma_pow2_unfold(k + 1);
        }
        if p > u64::MAX / 2 {
            proof {
                not_between_powers(x as int, k);
            }
            return false;
        }
        p = p * 2;
        proof {
            k = k + 1;
        }
    }
    proof {
        if p == x {
            assert(power_of_two(x as int));
        } else if k == 0 {
            assert forall|j: nat| x != #[trigger] vstd::arithmetic::power2::pow2(j) by {
                vstd::arithmetic::power2::lemma_pow2_pos(j);
            }
        } else {
            not_between_powers(x as int, (k - 1) as nat);
        }
    }
    p == x
}

/// There is no power of two between two neighbouring ones.
proof fn not_between_powers(x: int, k: nat)
    requires
        vstd::arithmetic::power2::pow2(k) < x,
        x < vstd::arithmetic::power2::pow2(k + 1),
    ensures
        !power_of_two(x),
{
    assert forall|j: nat| x != #[trigger] vstd::arithmetic::power2::pow2(j) by {
        if j < k {
            vstd::arithmetic::power2::lemma_pow2_strictly_increases(j, k);
        } else if j > k + 1 {
            vstd::arithmetic::power2::lemma_pow2_strictly_increases(k + 1, j);
        }
    }
}

/// Writing a 16-bit integer and reading it back gives the same integer.
pub proof fn be16_round_trip(x: u16, before: Seq<u8>, after: Seq<u8>)
    ensures
        be16_at(before + be16(x) + after, before.len() as int) == x,
{
}

/// Writing a 32-bit integer and reading it back gives the same integer.
pub proof fn be32_round_trip(x: u32, before: Seq<u8>, after: Seq<u8>)
    ensures
        be32_at(before + be32(x) + after, before.len() as int) == x,
{
}

/// Writing a 64-bit integer and reading it back gives the same integer.
pub proof fn be64_round_trip(x: u64, before: Seq<u8>, after: Seq<u8>)
    ensures
        be64_at(before + be64(x) + after, before.len() as int) == x,
{
    let hi = (x / 0x1_0000_0000) as u32;
    let lo = (x % 0x1_0000_0000) as u32;
    let all = before + be64(x) + after;
    let n = before.len() as int;
    assert(be32_at(all, n) == hi) by {
        be32_round_trip(hi, before, be32(lo) + after);
        assert(all =~= before + be32(hi) + (be32(lo) + after));
    }
    assert(be32_at(all, n + 4) == lo) by {
        be32_round_trip(lo, before + be32(hi), after);
        assert(all =~= (before + be32(hi)) + be32(lo) + after);
    }
    assert(x == hi * 0x1_0000_0000 + lo);
}

/// The number that the bytes of `s` spell, most significant first.
pub open spec fn number(s: Seq<u8>) -> int
    decreases s.len(),
{
    if s.len() == 0 {
        0
    } else {
        number(s.drop_last()) * 0x100 + s.last()
    }
}

/// The number that the bytes of `s` spell, least significant first.
pub open spec fn number_le(s: Seq<u8>) -> int
    decreases s.len(),
{
    if s.len() == 0 {
        0
    } else {
        s[0] + 0x100 * number_le(s.drop_first())
    }
}

/// One byte more at the end is one digit more.
pub proof fn number_grows(s: Seq<u8>, i: int, j: int)
    requires
        0 <= i <= j < s.len(),
    ensures
        number(s.subrange(i, j + 1)) == number(s.subrange(i, j)) * 0x100 + s[j],
        number(s.subrange(i, i)) == 0,
{
    assert(s.subrange(i, j + 1).drop_last() =~= s.subrange(i, j));
}

/// One byte more at the front is one digit less significant than the rest.
proof fn number_le_grows(s: Seq<u8>, i: int, j: int)
    requires
        0 <= i < j <= s.len(),
    ensures
        number_le(s.subrange(i, j)) == s[i] + 0x100 * number_le(s.subrange(i + 1, j)),
        number_le(s.subrange(j, j)) == 0,
{
    assert(s.subrange(i, j).drop_first() =~= s.subrange(i + 1, j));
}

/// A 16-bit big-endian field holds the number that its two bytes spell.
pub proof fn be16_at_is_number(s: Seq<u8>, i: int)
    requires
        0 <= i,
        i + 2 <= s.len(),
    ensures
        be16_at(s, i) == number(s.subrange(i, i + 2)),
{
    number_grows(s, i, i);
    number_grows(s, i, i + 1);
}

/// A 24-bit big-endian field holds the number that its three bytes spell.
pub proof fn be24_at_is_number(s: Seq<u8>, i: int)
    requires
        0 <= i,
        i + 3 <= s.len(),
    ensures
        be24_at(s, i) == number(s.subrange(i, i + 3)),
{
    number_grows(s, i, i);
    number_grows(s, i, i + 1);
    number_grows(s, i, i + 2);
}

/// A 32-bit big-endian field holds the number that its four bytes spell.
pub proof fn be32_at_is_number(s: Seq<u8>, i: int)
    requires
        0 <= i,
        i + 4 <= s.len(),
    ensures
        be32_at(s, i) == number(s.subrange(i, i + 4)),
{
    number_grows(s, i, i);
    number_grows(s, i, i + 1);
    number_grows(s, i, i + 2);
    number_grows(s, i, i + 3);
}

/// A 64-bit big-endian field holds the number that its eight bytes spell.
pub proof fn be64_at_is_number(s: Seq<u8>, i: int)
    requires
        0 <= i,
        i + 8 <= s.len(),
    ensures
        be64_at(s, i) == number(s.subrange(i, i + 8)),
{
    be32_at_is_number(s, i);
    number_grows(s, i, i + 4);
    number_grows(s, i, i + 5);
    number_grows(s, i, i + 6);
    number_grows(s, i, i + 7);
}

/// A 16-bit little-endian field holds the number that its two bytes spell.
pub proof fn le16_at_is_number(s: Seq<u8>, i: int)
    requires
        0 <= i,
        i + 2 <= s.len(),
    ensures
        le16_at(s, i) == number_le(s.subrange(i, i + 2)),
{
    number_le_grows(s, i, i + 2);
    number_le_grows(s, i + 1, i + 2);
}

/// A 32-bit little-endian field holds the number that its four bytes spell.
pub proof fn le32_at_is_number(s: Seq<u8>, i: int)
    requires
        0 <= i,
        i + 4 <= s.len(),
    ensures
        le32_at(s, i) == number_le(s.subrange(i, i + 4)),
{
    number_le_grows(s, i, i + 4);
    number_le_grows(s, i + 1, i + 4);
    number_le_grows(s, i + 2, i + 4);
    number_le_grows(s, i + 3, i + 4);
}

/// A 64-bit little-endian field holds the number that its eight bytes spell.
pub proof fn le64_at_is_number(s: Seq<u8>, i: int)
    requires
        0 <= i,
        i + 8 <= s.len(),
    ensures
        le64_at(s, i) == number_le(s.subrange(i, i + 8)),
{
    number_le_grows(s, i, i + 8);
    number_le_grows(s, i + 1, i + 8);
    number_le_grows(s, i + 2, i + 8);
    number_le_grows(s, i + 3, i + 8);
    number_le_grows(s, i + 4, i + 8);
    number_le_grows(s, i + 5, i + 8);
    number_le_grows(s, i + 6, i + 8);
    number_le_grows(s, i + 7, i + 8);
}

/// The bytes of an integer, most significant first, spell the integer.
pub proof fn bytes_spell_the_integer(a: u16, b: int, c: u32, d: u64)
    requires
        0 <= b < 0x100_0000,
    ensures
        be16(a).len() == 2 && number(be16(a)) == a,
        be24(b).len() == 3 && number(be24(b)) == b,
        be32(c).len() == 4 && number(be32(c)) == c,
        be64(d).len() == 8 && number(be64(d)) == d,
{
    be16_spells(a);
    be24_spells(b);
    be32_spells(c);
    be64_spells(d);
}

proof fn be16_spells(x: u16)
    ensures
        be16(x).len() == 2 && number(be16(x)) == x,
{
    let none = Seq::<u8>::empty();
    be16_round_trip(x, none, none);
    assert(none + be16(x) + none =~= be16(x));
    be16_at_is_number(be16(x), 0);
    assert(be16(x).subrange(0, 2) =~= be16(x));
}

proof fn be24_spells(x: int)
    requires
        0 <= x < 0x100_0000,
    ensures
        be24(x).len() == 3 && number(be24(x)) == x,
{
    be24_at_is_number(be24(x), 0);
    assert(be24(x).subrange(0, 3) =~= be24(x));
}

proof fn be32_spells(x: u32)
    ensures
        be32(x).len() == 4 && number(be32(x)) == x,
{
    let none = Seq::<u8>::empty();
    be32_round_trip(x, none, none);
    assert(none + be32(x) + none =~= be32(x));
    be32_at_is_number(be32(x), 0);
    assert(be32(x).subrange(0, 4) =~= be32(x));
}

proof fn be64_spells(x: u64)
    ensures
        be64(x).len() == 8 && number(be64(x)) == x,
{
    let none = Seq::<u8>::empty();
    be64_round_trip(x, none, none);
    assert(none + be64(x) + none =~= be64(x));
    be64_at_is_number(be64(x), 0);
    assert(be64(x).subrange(0, 8) =~= be64(x));
}

/// Storing bytes at a place puts each where it belongs and leaves the others.
pub proof fn splice_is_local(s: Seq<u8>, at: int, patch: Seq<u8>)
    requires
        0 <= at,
        at + patch.len() <= s.len(),
    ensures
        splice(s, at, patch).len() == s.len(),
        splice(s, at, patch).take(at) == s.take(at),
        splice(s, at, patch).subrange(at, at + patch.len()) == patch,
        splice(s, at, patch).skip(at + patch.len()) == s.skip(at + patch.len()),
{
    assert(splice(s, at, patch).take(at) =~= s.take(at));
    assert(splice(s, at, patch).subrange(at, at + patch.len()) =~= patch);
    assert(splice(s, at, patch).skip(at + patch.len()) =~= s.skip(at + patch.len()));
}

/// A run of zeros has its length and holds nothing but zeros.
pub proof fn zeros_are_zero(n: int)
    requires
        0 <= n,
    ensures
        zeros(n).len() == n,
        forall|i: int| 0 <= i < n ==> #[trigger] zeros(n)[i] == 0,
{
}

} // verus!
