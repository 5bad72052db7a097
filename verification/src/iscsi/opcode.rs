//! iSCSI opcodes (low 6 bits of BHS byte 0).
use vstd::prelude::*;

verus! {

// initiator -> target
pub const NOP_OUT: u8 = 0x00;

pub const SCSI_COMMAND: u8 = 0x01;

pub const TASK_MGMT: u8 = 0x02;

pub const LOGIN_REQ: u8 = 0x03;

pub const TEXT_REQ: u8 = 0x04;

pub const DATA_OUT: u8 = 0x05;

pub const LOGOUT_REQ: u8 = 0x06;

// target -> initiator
pub const NOP_IN: u8 = 0x20;

pub const SCSI_RESP: u8 = 0x21;

pub const TASK_MGMT_RESP: u8 = 0x22;

pub const LOGIN_RESP: u8 = 0x23;

pub const TEXT_RESP: u8 = 0x24;

pub const DATA_IN: u8 = 0x25;

pub const LOGOUT_RESP: u8 = 0x26;

pub const R2T: u8 = 0x31;

pub const REJECT: u8 = 0x3f;

} // verus!
