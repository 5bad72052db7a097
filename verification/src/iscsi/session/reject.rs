//! iSCSI Reject reason codes (RFC 7143 §11.17.1) we emit.
use vstd::prelude::*;

verus! {

pub const PROTOCOL_ERROR: u8 = 0x04;

pub const COMMAND_NOT_SUPPORTED: u8 = 0x05;

pub const INVALID_PDU_FIELD: u8 = 0x0a;

} // verus!
