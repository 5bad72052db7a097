//! CRC-32C (Castagnoli, polynomial 0x82F63B78 reflected), init 0xFFFFFFFF,
//! final XOR 0xFFFFFFFF: the variant VHDX uses.
use vstd::prelude::*;

verus! {

/// One bit of polynomial division.
pub open spec fn crc_bit(crc: u32) -> u32 {
    if crc & 1 == 1 {
        (crc >> 1) ^ 0x82F6_3B78
    } else {
        crc >> 1
    }
}

/// `n` bits of polynomial division.
pub open spec fn crc_bits(crc: u32, n: nat) -> u32
    decreases n,
{
    if n == 0 {
        crc
    } else {
        crc_bit(crc_bits(crc, (n - 1) as nat))
    }
}

/// The remainder after the bytes of `data`.
pub open spec fn crc_bytes(data: Seq<u8>) -> u32
    decreases data.len(),
{
    if data.len() == 0 {
        0xFFFF_FFFF
    } else {
        crc_bits(crc_bytes(data.drop_last()) ^ (data.last() as u32), 8)
    }
}

/// The CRC of `data`.
pub open spec fn crc_of(data: Seq<u8>) -> u32 {
    !crc_bytes(data)
}

pub fn crc32c(data: &[u8]) -> (c: u32)
    ensures
        c == crc_of(data@),
{
    let mut crc: u32 = 0xFFFF_FFFF;
    let mut i: usize = 0;
    assert(data@.take(0) =~= Seq::empty());
    while i < data.len()
        invariant
            i <= data@.len(),
            crc == crc_bytes(data@.take(i as int)),
        decreases data@.len() - i,
    {
        let ghost before = crc;
        crc = crc ^ data[i] as u32;
        let ghost start = crc;
        let mut k: u32 = 0;
        while k < 8
            invariant
                k <= 8,
                crc == crc_bits(start, k as nat),
            decreases 8 - k,
        {
            if crc & 1 == 1 {
                crc = (crc >> 1) ^ 0x82F6_3B78;
            } else {
                crc = crc >> 1;
            }
            k += 1;
        }
        assert(data@.take(i + 1).drop_last() =~= data@.take(i as int));
        i += 1;
    }
    assert(data@.take(i as int) =~= data@);
    !crc
}

proof fn bits_tell_apart(a: u32, b: u32, n: nat)
    requires
        a != b,
    ensures
        crc_bits(a, n) != crc_bits(b, n),
    decreases n,
{
    if n > 0 {
        bits_tell_apart(a, b, (n - 1) as nat);
        let x = crc_bits(a, (n - 1) as nat);
        let y = crc_bits(b, (n - 1) as nat);
        assert(x != y ==> (if x & 1 == 1 {
            (x >> 1) ^ 0x82F6_3B78
        } else {
            x >> 1
        }) != (if y & 1 == 1 {
            (y >> 1) ^ 0x82F6_3B78
        } else {
            y >> 1
        })) by (bit_vector);
    }
}

proof fn one_byte_tells_apart(a: Seq<u8>, b: Seq<u8>, at: int)
    requires
        a.len() == b.len(),
        0 <= at < a.len(),
        a[at] != b[at],
        forall|i: int| 0 <= i < a.len() && i != at ==> a[i] == b[i],
    ensures
        crc_bytes(a) != crc_bytes(b),
    decreases a.len(),
{
    let x = crc_bytes(a.drop_last());
    let y = crc_bytes(b.drop_last());
    let p = a.last() as u32;
    let q = b.last() as u32;
    if at == a.len() - 1 {
        assert(a.drop_last() =~= b.drop_last());
        assert(p != q ==> x ^ p != x ^ q) by (bit_vector);
    } else {
        one_byte_tells_apart(a.drop_last(), b.drop_last(), at);
        assert(x != y ==> x ^ p != y ^ p) by (bit_vector);
    }
    bits_tell_apart(x ^ p, y ^ q, 8);
}

/// One wrong byte is always seen: data that differs in one place has another
/// CRC.
pub proof fn one_wrong_byte_is_seen(a: Seq<u8>, b: Seq<u8>, at: int)
    requires
        a.len() == b.len(),
        0 <= at < a.len(),
        a[at] != b[at],
        forall|i: int| 0 <= i < a.len() && i != at ==> a[i] == b[i],
    ensures
        crc_of(a) != crc_of(b),
{
    one_byte_tells_apart(a, b, at);
    let x = crc_bytes(a);
    let y = crc_bytes(b);
    assert(x != y ==> !x != !y) by (bit_vector);
}

} // verus!
