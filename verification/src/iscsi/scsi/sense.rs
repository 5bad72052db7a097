//! SCSI status codes and fixed-format sense data (SPC-3).
use vstd::prelude::*;

verus! {

// SCSI status byte values.
pub const GOOD: u8 = 0x00;

pub const CHECK_CONDITION: u8 = 0x02;

// Sense keys (byte 2, low nibble).
pub const NO_SENSE: u8 = 0x00;

pub const NOT_READY: u8 = 0x02;

pub const MEDIUM_ERROR: u8 = 0x03;

pub const ILLEGAL_REQUEST: u8 = 0x05;

pub const UNIT_ATTENTION: u8 = 0x06;

// (ASC, ASCQ) pairs we emit.
pub const ASC_INVALID_OPCODE: (u8, u8) = (0x20, 0x00);

pub const ASC_LBA_OUT_OF_RANGE: (u8, u8) = (0x21, 0x00);

pub const ASC_INVALID_FIELD_IN_CDB: (u8, u8) = (0x24, 0x00);

pub const ASC_LUN_NOT_SUPPORTED: (u8, u8) = (0x25, 0x00);

pub const ASC_UNRECOVERED_READ_ERROR: (u8, u8) = (0x11, 0x00);

pub const ASC_WRITE_ERROR: (u8, u8) = (0x0c, 0x00);

/// 18 bytes of fixed-format sense data: response code 0x70 (current error),
/// the sense key in byte 2, 10 more bytes after byte 7, ASC and ASCQ in bytes
/// 12 and 13.
pub open spec fn sense_bytes(key: u8, asc: u8, ascq: u8) -> Seq<u8> {
    seq![0x70, 0, key & 0x0f, 0, 0, 0, 0, 10, 0, 0, 0, 0, asc, ascq, 0, 0, 0, 0]
}

/// Build 18-byte fixed-format sense data (response code 0x70).
pub fn fixed_sense(key: u8, asc: u8, ascq: u8) -> (s: Vec<u8>)
    ensures
        s@ == sense_bytes(key, asc, ascq),
{
    let s: Vec<u8> = vec![0x70, 0, key & 0x0f, 0, 0, 0, 0, 10, 0, 0, 0, 0, asc, ascq, 0, 0, 0, 0];
    assert(s@ =~= sense_bytes(key, asc, ascq));
    s
}

} // verus!
