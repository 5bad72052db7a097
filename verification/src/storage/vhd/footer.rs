//! The 512-byte footer that ends every VHD.
use vstd::prelude::*;
use crate::storage::StorageError;
use crate::wire;

verus! {

/// Sector size of a VHD.
pub const SECTOR: u64 = 512;

pub const FOOTER_LEN: usize = 512;

pub const DISK_TYPE_FIXED: u32 = 2;

pub const DISK_TYPE_DYNAMIC: u32 = 3;

/// The cookie `conectix`.
pub open spec fn footer_cookie() -> Seq<u8> {
    seq![0x63, 0x6f, 0x6e, 0x65, 0x63, 0x74, 0x69, 0x78]
}

/// Sum of the first `k` bytes of `s` but for those in `from..to`.
pub open spec fn byte_sum(s: Seq<u8>, from: int, to: int, k: int) -> int
    decreases k,
{
    if k <= 0 {
        0
    } else {
        byte_sum(s, from, to, k - 1) + if from <= k - 1 < to {
            0
        } else {
            s[k - 1] as int
        }
    }
}

/// Ones-complement checksum of `s` with the bytes in `from..to` left out.
pub open spec fn checksum_of(s: Seq<u8>, from: int, to: int) -> u32 {
    (0xffff_ffff - byte_sum(s, from, to, s.len() as int) % 0x1_0000_0000) as u32
}

/// Ones-complement checksum over a structure with `from..to` (the checksum
/// field itself) treated as zero.
pub fn checksum(buf: &[u8], from: usize, to: usize) -> (c: u32)
    ensures
        c == checksum_of(buf@, from as int, to as int),
{
    let mut sum: u32 = 0;
    let mut i: usize = 0;
    while i < buf.len()
        invariant
            i <= buf@.len(),
            sum == byte_sum(buf@, from as int, to as int, i as int) % 0x1_0000_0000,
        decreases buf@.len() - i,
    {
        if i < from || i >= to {
            sum = sum.wrapping_add(buf[i] as u32);
        }
        i += 1;
    }
    u32::MAX - sum
}

/// The parsed fields of a VHD footer that we use.
pub struct VhdFooter {
    pub data_offset: u64,
    pub current_size: u64,
    pub disk_type: u32,
}

/// The footer at the front of `b`, or why there is none.
pub open spec fn footer_of(b: Seq<u8>) -> Result<VhdFooter, StorageError> {
    if b.len() < FOOTER_LEN {
        Err(StorageError::FooterTooShort)
    } else if b.take(8) != footer_cookie() {
        Err(StorageError::FooterCookie)
    } else if checksum_of(b.take(FOOTER_LEN as int), 64, 68) != wire::be32_at(b, 64) {
        Err(StorageError::FooterChecksum)
    } else {
        Ok(
            VhdFooter {
                data_offset: wire::be64_at(b, 16),
                current_size: wire::be64_at(b, 48),
                disk_type: wire::be32_at(b, 60),
            },
        )
    }
}

/// Whether `b` starts with the cookie of a footer.
pub fn has_cookie(b: &[u8]) -> (r: bool)
    requires
        b@.len() >= 8,
    ensures
        r == (b@.take(8) == footer_cookie()),
{
    let cookie: [u8; 8] = [0x63, 0x6f, 0x6e, 0x65, 0x63, 0x74, 0x69, 0x78];
    assert(cookie@ =~= footer_cookie());
    assert(b@.subrange(0, 8) =~= b@.take(8));
    wire::bytes_eq(vstd::slice::slice_subrange(b, 0, 8), cookie.as_slice())
}

impl VhdFooter {
    /// Parse and validate a footer from at least 512 bytes.
    pub fn parse(bytes: &[u8]) -> (r: Result<VhdFooter, StorageError>)
        ensures
            r == footer_of(bytes@),
    {
        if bytes.len() < FOOTER_LEN {
            return Err(StorageError::FooterTooShort);
        }
        if !has_cookie(bytes) {
            return Err(StorageError::FooterCookie);
        }
        let f = vstd::slice::slice_subrange(bytes, 0, FOOTER_LEN);
        assert(f@ =~= bytes@.take(FOOTER_LEN as int));
        if checksum(f, 64, 68) != wire::get_be32(bytes, 64) {
            return Err(StorageError::FooterChecksum);
        }
        Ok(
            VhdFooter {
                data_offset: wire::get_be64(bytes, 16),
                current_size: wire::get_be64(bytes, 48),
                disk_type: wire::get_be32(bytes, 60),
            },
        )
    }
}

} // verus!
