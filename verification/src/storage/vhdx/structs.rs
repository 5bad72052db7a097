//! VHDX headers and the region table.
use vstd::prelude::*;
use super::crc32c;
use crate::storage::StorageError;
use crate::wire;

verus! {

pub const HEADER_LEN: usize = 4096;

pub const REGION_TABLE_LEN: usize = 65536;

/// GUID of the BAT region.
pub open spec fn bat_guid() -> Seq<u8> {
    seq![
        0x66, 0x77, 0xC2, 0x2D, 0x23, 0xF6, 0x00, 0x42,
        0x9D, 0x64, 0x11, 0x5E, 0x9B, 0xFD, 0x4A, 0x08,
    ]
}

/// GUID of the metadata region.
pub open spec fn metadata_guid() -> Seq<u8> {
    seq![
        0x06, 0xA2, 0x7C, 0x8B, 0x90, 0x47, 0x9A, 0x4B,
        0xB8, 0xFE, 0x57, 0x5F, 0x05, 0x0F, 0x88, 0x6E,
    ]
}

/// `s` with its checksum field, bytes 4 to 7, zeroed.
pub open spec fn unsummed(s: Seq<u8>) -> Seq<u8> {
    wire::splice(s, 4, wire::zeros(4))
}

/// Whether the structure `s` carries its own CRC in bytes 4 to 7.
pub fn crc_matches(s: &[u8]) -> (r: bool)
    requires
        s@.len() >= 8,
    ensures
        r == (crc32c::crc_of(unsummed(s@)) == wire::le32_at(s@, 4)),
{
    let mut tmp: Vec<u8> = vstd::slice::slice_to_vec(s);
    let blank: [u8; 4] = [0, 0, 0, 0];
    assert(blank@ =~= wire::zeros(4));
    wire::copy_into(tmp.as_mut_slice(), 4, blank.as_slice());
    crc32c::crc32c(tmp.as_slice()) == wire::get_le32(s, 4)
}

/// A VHDX header, as far as we use it.
#[derive(Debug, Clone, Copy, PartialEq, Eq, Structural)]
pub struct VhdxHeader {
    pub sequence: u64,
}

/// The header at the front of `h`, or why it is none: signature, CRC, version
/// and empty log must hold, in that order.
pub open spec fn header_of(h: Seq<u8>) -> Result<VhdxHeader, StorageError> {
    if h.len() < HEADER_LEN || h.take(4) != seq![0x68u8, 0x65, 0x61, 0x64] {
        Err(StorageError::VhdxHeaderSignature)
    } else if crc32c::crc_of(unsummed(h.take(HEADER_LEN as int))) != wire::le32_at(h, 4) {
        Err(StorageError::VhdxHeaderCrc)
    } else if wire::le16_at(h, 66) != 1 {
        Err(StorageError::VhdxHeaderVersion)
    } else if h.subrange(48, 64) != wire::zeros(16) {
        Err(StorageError::VhdxLog)
    } else {
        Ok(VhdxHeader { sequence: wire::le64_at(h, 8) })
    }
}

/// Parse one 4096-byte header if its signature, version, CRC, and empty-log
/// invariant hold.
pub fn parse_one_header(h: &[u8]) -> (r: Result<VhdxHeader, StorageError>)
    ensures
        r == header_of(h@),
{
    if h.len() < HEADER_LEN {
        return Err(StorageError::VhdxHeaderSignature);
    }
    let head: [u8; 4] = [0x68, 0x65, 0x61, 0x64];
    assert(head@ =~= seq![0x68u8, 0x65, 0x61, 0x64]);
    assert(h@.subrange(0, 4) =~= h@.take(4));
    if !wire::bytes_eq(vstd::slice::slice_subrange(h, 0, 4), head.as_slice()) {
        return Err(StorageError::VhdxHeaderSignature);
    }
    let body = vstd::slice::slice_subrange(h, 0, HEADER_LEN);
    assert(body@ =~= h@.take(HEADER_LEN as int));
    if !crc_matches(body) {
        return Err(StorageError::VhdxHeaderCrc);
    }
    if wire::get_le16(h, 66) != 1 {
        return Err(StorageError::VhdxHeaderVersion);
    }
    // Log GUID must be all-zero (no log to replay).
    let log = wire::zeroed(16);
    if !wire::bytes_eq(vstd::slice::slice_subrange(h, 48, 64), log.as_slice()) {
        return Err(StorageError::VhdxLog);
    }
    Ok(VhdxHeader { sequence: wire::get_le64(h, 8) })
}

/// The valid header with the greater sequence number, the first of equals.
pub open spec fn best_header(h1: Seq<u8>, h2: Seq<u8>) -> Result<VhdxHeader, StorageError> {
    match (header_of(h1), header_of(h2)) {
        (Ok(a), Ok(b)) => Ok(
            if a.sequence >= b.sequence {
                a
            } else {
                b
            },
        ),
        (Ok(a), Err(_)) => Ok(a),
        (Err(_), Ok(b)) => Ok(b),
        (Err(_), Err(_)) => Err(StorageError::VhdxHeader),
    }
}

/// Choose the valid header with the greatest sequence number.
pub fn parse_best_header(h1: &[u8], h2: &[u8]) -> (r: Result<VhdxHeader, StorageError>)
    ensures
        r == best_header(h1@, h2@),
{
    match (parse_one_header(h1), parse_one_header(h2)) {
        (Ok(a), Ok(b)) => Ok(
            if a.sequence >= b.sequence {
                a
            } else {
                b
            },
        ),
        (Ok(a), Err(_)) => Ok(a),
        (Err(_), Ok(b)) => Ok(b),
        (Err(_), Err(_)) => Err(StorageError::VhdxHeader),
    }
}

/// Located regions: each is `(file_offset, length)`.
pub struct Regions {
    pub bat: Option<(u64, u64)>,
    pub metadata: Option<(u64, u64)>,
}

/// The last of the first `k` entries of a region table with `guid`.
pub open spec fn region(rt: Seq<u8>, guid: Seq<u8>, k: int) -> Option<(u64, u64)>
    decreases k,
{
    if k <= 0 {
        None
    } else {
        let e = 16 + (k - 1) * 32;
        if rt.subrange(e, e + 16) == guid {
            Some((wire::le64_at(rt, e + 16), wire::le32_at(rt, e + 24) as u64))
        } else {
            region(rt, guid, k - 1)
        }
    }
}

/// The regions in a region table, or why it is none.
pub open spec fn regions_of(rt: Seq<u8>) -> Result<Regions, StorageError> {
    let count = wire::le32_at(rt, 8) as int;
    if rt.len() < REGION_TABLE_LEN || rt.take(4) != seq![0x72u8, 0x65, 0x67, 0x69] {
        Err(StorageError::RegionSignature)
    } else if crc32c::crc_of(unsummed(rt.take(REGION_TABLE_LEN as int))) != wire::le32_at(rt, 4) {
        Err(StorageError::RegionCrc)
    } else if 16 + count * 32 > REGION_TABLE_LEN {
        Err(StorageError::RegionCount)
    } else {
        Ok(
            Regions {
                bat: region(rt, bat_guid(), count),
                metadata: region(rt, metadata_guid(), count),
            },
        )
    }
}

/// Parse a 64 KiB region table, validating its CRC, and pick out the BAT and
/// metadata regions by GUID.
pub fn parse_region_table(rt: &[u8]) -> (r: Result<Regions, StorageError>)
    ensures
        r == regions_of(rt@),
{
    if rt.len() < REGION_TABLE_LEN {
        return Err(StorageError::RegionSignature);
    }
    let regi: [u8; 4] = [0x72, 0x65, 0x67, 0x69];
    assert(regi@ =~= seq![0x72u8, 0x65, 0x67, 0x69]);
    assert(rt@.subrange(0, 4) =~= rt@.take(4));
    if !wire::bytes_eq(vstd::slice::slice_subrange(rt, 0, 4), regi.as_slice()) {
        return Err(StorageError::RegionSignature);
    }
    let body = vstd::slice::slice_subrange(rt, 0, REGION_TABLE_LEN);
    assert(body@ =~= rt@.take(REGION_TABLE_LEN as int));
    if !crc_matches(body) {
        return Err(StorageError::RegionCrc);
    }
    let count: u64 = wire::get_le32(rt, 8) as u64;
    // Each entry is 32 bytes; entries start at offset 16. Bound the count.
    if 16 + count * 32 > REGION_TABLE_LEN as u64 {
        return Err(StorageError::RegionCount);
    }
    let bat_id: [u8; 16] = [
        0x66, 0x77, 0xC2, 0x2D, 0x23, 0xF6, 0x00, 0x42,
        0x9D, 0x64, 0x11, 0x5E, 0x9B, 0xFD, 0x4A, 0x08,
    ];
    let metadata_id: [u8; 16] = [
        0x06, 0xA2, 0x7C, 0x8B, 0x90, 0x47, 0x9A, 0x4B,
        0xB8, 0xFE, 0x57, 0x5F, 0x05, 0x0F, 0x88, 0x6E,
    ];
    assert(bat_id@ =~= bat_guid());
    assert(metadata_id@ =~= metadata_guid());
    let n: usize = count as usize;
    let mut regions = Regions { bat: None, metadata: None };
    let mut i: usize = 0;
    while i < n
        invariant
            i <= n,
            16 + n * 32 <= REGION_TABLE_LEN,
            REGION_TABLE_LEN <= rt@.len(),
            bat_id@ == bat_guid(),
            metadata_id@ == metadata_guid(),
            regions.bat == region(rt@, bat_guid(), i as int),
            regions.metadata == region(rt@, metadata_guid(), i as int),
        decreases n - i,
    {
        let e: usize = 16 + i * 32;
        let guid = vstd::slice::slice_subrange(rt, e, e + 16);
        let off: u64 = wire::get_le64(rt, e + 16);
        let len: u64 = wire::get_le32(rt, e + 24) as u64;
        proof {
            assert(bat_guid()[0] != metadata_guid()[0]);
        }
        if wire::bytes_eq(guid, bat_id.as_slice()) {
            regions.bat = Some((off, len));
        } else if wire::bytes_eq(guid, metadata_id.as_slice()) {
            regions.metadata = Some((off, len));
        }
        i += 1;
    }
    Ok(regions)
}

} // verus!
