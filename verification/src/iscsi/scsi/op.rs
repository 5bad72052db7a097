//! SCSI operation codes we recognize (CDB byte 0).
use vstd::prelude::*;

verus! {

pub const TEST_UNIT_READY: u8 = 0x00;

pub const REQUEST_SENSE: u8 = 0x03;

pub const INQUIRY: u8 = 0x12;

pub const MODE_SENSE_6: u8 = 0x1a;

pub const START_STOP_UNIT: u8 = 0x1b;

pub const PREVENT_ALLOW: u8 = 0x1e;

pub const READ_CAPACITY_10: u8 = 0x25;

pub const READ_10: u8 = 0x28;

pub const WRITE_10: u8 = 0x2a;

pub const SYNC_CACHE_10: u8 = 0x35;

pub const MODE_SENSE_10: u8 = 0x5a;

pub const READ_16: u8 = 0x88;

pub const WRITE_16: u8 = 0x8a;

pub const SYNC_CACHE_16: u8 = 0x91;

pub const SERVICE_ACTION_IN_16: u8 = 0x9e;

pub const REPORT_LUNS: u8 = 0xa0;

} // verus!
