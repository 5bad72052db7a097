//! The VHDX metadata region.
use vstd::prelude::*;
use crate::storage::StorageError;
use crate::wire;

verus! {

/// GUID of the file parameters item.
pub open spec fn file_params_guid() -> Seq<u8> {
    seq![
        0x37, 0x67, 0xA1, 0xCA, 0x36, 0xFA, 0x43, 0x4D,
        0xB3, 0xB6, 0x33, 0xF0, 0xAA, 0x44, 0xE7, 0x6B,
    ]
}

/// GUID of the virtual disk size item.
pub open spec fn vdisk_size_guid() -> Seq<u8> {
    seq![
        0x24, 0x42, 0xA5, 0x2F, 0x1B, 0xCD, 0x76, 0x48,
        0xB2, 0x11, 0x5D, 0xBE, 0xD8, 0x3B, 0xF4, 0xB8,
    ]
}

/// GUID of the logical sector size item.
pub open spec fn logical_sector_guid() -> Seq<u8> {
    seq![
        0x1D, 0xBF, 0x41, 0x81, 0x6F, 0xA9, 0x09, 0x47,
        0xBA, 0x47, 0xF2, 0x33, 0xA8, 0xFA, 0xAB, 0x5F,
    ]
}

/// The metadata we need.
#[derive(Debug, Clone, Copy, PartialEq, Eq, Structural)]
pub struct VhdxMetadata {
    pub block_size: u64,
    pub logical_sector_size: u64,
    pub virtual_size: u64,
}

/// The items found so far.
pub struct Items {
    pub block_size: Option<u64>,
    pub logical_sector_size: Option<u64>,
    pub virtual_size: Option<u64>,
}

/// `items` with entry `k` of the table taken in; later items of a kind replace
/// earlier ones.
pub open spec fn with_entry(region: Seq<u8>, k: int, items: Items) -> Result<Items, StorageError> {
    let e = 32 + k * 32;
    let guid = region.subrange(e, e + 16);
    let off = wire::le32_at(region, e + 16) as int;
    let len = wire::le32_at(region, e + 20) as int;
    if off + len > region.len() {
        Err(StorageError::MetadataBounds)
    } else if guid == file_params_guid() {
        if len < 8 {
            Err(StorageError::FileParametersShort)
        } else if wire::le32_at(region, off + 4) & 2 != 0 {
            Err(StorageError::HasParent)
        } else {
            Ok(Items { block_size: Some(wire::le32_at(region, off) as u64), ..items })
        }
    } else if guid == vdisk_size_guid() {
        if len < 8 {
            Err(StorageError::VirtualSizeShort)
        } else {
            Ok(Items { virtual_size: Some(wire::le64_at(region, off)), ..items })
        }
    } else if guid == logical_sector_guid() {
        if len < 4 {
            Err(StorageError::SectorSizeShort)
        } else {
            Ok(Items { logical_sector_size: Some(wire::le32_at(region, off) as u64), ..items })
        }
    } else {
        Ok(items)
    }
}

/// The items in the first `k` entries, or the first error among them.
pub open spec fn items_in(region: Seq<u8>, k: int) -> Result<Items, StorageError>
    decreases k,
{
    if k <= 0 {
        Ok(Items { block_size: None, logical_sector_size: None, virtual_size: None })
    } else {
        match items_in(region, k - 1) {
            Ok(items) => with_entry(region, k - 1, items),
            Err(e) => Err(e),
        }
    }
}

/// The metadata that items make, or what is missing or invalid.
pub open spec fn metadata_from(items: Items) -> Result<VhdxMetadata, StorageError> {
    match (items.block_size, items.logical_sector_size, items.virtual_size) {
        (None, _, _) => Err(StorageError::BlockSizeMissing),
        (_, None, _) => Err(StorageError::SectorSizeMissing),
        (_, _, None) => Err(StorageError::VirtualSizeMissing),
        (Some(block_size), Some(logical_sector_size), Some(virtual_size)) => if !wire::power_of_two(
            block_size as int,
        ) {
            Err(StorageError::VhdxBlockSize)
        } else if !wire::power_of_two(logical_sector_size as int) {
            Err(StorageError::VhdxSectorSize)
        } else {
            Ok(VhdxMetadata { block_size, logical_sector_size, virtual_size })
        },
    }
}

/// The signature `metadata`.
pub open spec fn signature() -> Seq<u8> {
    seq![0x6d, 0x65, 0x74, 0x61, 0x64, 0x61, 0x74, 0x61]
}

/// The metadata in a region, or why there is none.
pub open spec fn metadata_of(region: Seq<u8>) -> Result<VhdxMetadata, StorageError> {
    let count = wire::le16_at(region, 10) as int;
    if region.len() < 32 || region.take(8) != signature() {
        Err(StorageError::MetadataSignature)
    } else if 32 + count * 32 > region.len() {
        Err(StorageError::MetadataCount)
    } else {
        match items_in(region, count) {
            Ok(items) => metadata_from(items),
            Err(e) => Err(e),
        }
    }
}

/// Take entry `k` of the table in.
fn take_entry(region: &[u8], k: usize, items: Items) -> (r: Result<Items, StorageError>)
    requires
        32 + k * 32 + 32 <= region@.len(),
    ensures
        r == with_entry(region@, k as int, items),
{
    assert(region@.len() == region.len());
    let e: usize = 32 + k * 32;
    let guid = vstd::slice::slice_subrange(region, e, e + 16);
    let off: u64 = wire::get_le32(region, e + 16) as u64;
    let len: u64 = wire::get_le32(region, e + 20) as u64;
    if off + len > region.len() as u64 {
        return Err(StorageError::MetadataBounds);
    }
    let params_id: [u8; 16] = [
        0x37, 0x67, 0xA1, 0xCA, 0x36, 0xFA, 0x43, 0x4D,
        0xB3, 0xB6, 0x33, 0xF0, 0xAA, 0x44, 0xE7, 0x6B,
    ];
    let size_id: [u8; 16] = [
        0x24, 0x42, 0xA5, 0x2F, 0x1B, 0xCD, 0x76, 0x48,
        0xB2, 0x11, 0x5D, 0xBE, 0xD8, 0x3B, 0xF4, 0xB8,
    ];
    let sector_id: [u8; 16] = [
        0x1D, 0xBF, 0x41, 0x81, 0x6F, 0xA9, 0x09, 0x47,
        0xBA, 0x47, 0xF2, 0x33, 0xA8, 0xFA, 0xAB, 0x5F,
    ];
    assert(params_id@ =~= file_params_guid());
    assert(size_id@ =~= vdisk_size_guid());
    assert(sector_id@ =~= logical_sector_guid());
    let at: usize = off as usize;
    let mut items = items;
    if wire::bytes_eq(guid, params_id.as_slice()) {
        if len < 8 {
            return Err(StorageError::FileParametersShort);
        }
        if wire::get_le32(region, at + 4) & 2 != 0 {
            return Err(StorageError::HasParent);
        }
        items.block_size = Some(wire::get_le32(region, at) as u64);
    } else if wire::bytes_eq(guid, size_id.as_slice()) {
        if len < 8 {
            return Err(StorageError::VirtualSizeShort);
        }
        items.virtual_size = Some(wire::get_le64(region, at));
    } else if wire::bytes_eq(guid, sector_id.as_slice()) {
        if len < 4 {
            return Err(StorageError::SectorSizeShort);
        }
        items.logical_sector_size = Some(wire::get_le32(region, at) as u64);
    }
    Ok(items)
}

/// Parse the metadata region: its table header plus the three items we need.
/// Rejects images with a parent (differencing VHDX): masters are standalone.
pub fn parse_metadata(region: &[u8]) -> (r: Result<VhdxMetadata, StorageError>)
    ensures
        r == metadata_of(region@),
{
    if region.len() < 32 {
        return Err(StorageError::MetadataSignature);
    }
    let name: [u8; 8] = [0x6d, 0x65, 0x74, 0x61, 0x64, 0x61, 0x74, 0x61];
    assert(name@ =~= signature());
    assert(region@.subrange(0, 8) =~= region@.take(8));
    if !wire::bytes_eq(vstd::slice::slice_subrange(region, 0, 8), name.as_slice()) {
        return Err(StorageError::MetadataSignature);
    }
    let count: usize = wire::get_le16(region, 10) as usize;
    if 32 + count * 32 > region.len() {
        return Err(StorageError::MetadataCount);
    }
    let mut items = Items { block_size: None, logical_sector_size: None, virtual_size: None };
    let mut i: usize = 0;
    while i < count
        invariant
            i <= count,
            count == wire::le16_at(region@, 10),
            32 + count * 32 <= region@.len(),
            region@.len() >= 32,
            region@.take(8) == signature(),
            items_in(region@, i as int) == Ok::<Items, StorageError>(items),
        decreases count - i,
    {
        match take_entry(region, i, items) {
            Ok(more) => {
                items = more;
            },
            Err(e) => {
                proof {
                    error_stays(region@, i + 1, count as int);
                }
                return Err(e);
            },
        }
        i += 1;
    }
    let block_size: u64 = match items.block_size {
        Some(v) => v,
        None => {
            return Err(StorageError::BlockSizeMissing);
        },
    };
    let logical_sector_size: u64 = match items.logical_sector_size {
        Some(v) => v,
        None => {
            return Err(StorageError::SectorSizeMissing);
        },
    };
    let virtual_size: u64 = match items.virtual_size {
        Some(v) => v,
        None => {
            return Err(StorageError::VirtualSizeMissing);
        },
    };
    if !wire::is_power_of_two(block_size) {
        return Err(StorageError::VhdxBlockSize);
    }
    if !wire::is_power_of_two(logical_sector_size) {
        return Err(StorageError::VhdxSectorSize);
    }
    Ok(VhdxMetadata { block_size, logical_sector_size, virtual_size })
}

/// The first error among the entries is the error.
proof fn error_stays(region: Seq<u8>, k: int, n: int)
    requires
        0 <= k <= n,
        items_in(region, k) is Err,
    ensures
        items_in(region, n) == items_in(region, k),
    decreases n - k,
{
    if k < n {
        assert(items_in(region, k + 1) == items_in(region, k));
        error_stays(region, k + 1, n);
    }
}

} // verus!
