//! PXE option-43 sub-option codes (Intel PXE specification 2.1).
use vstd::prelude::*;

verus! {

pub const DISCOVERY_CONTROL: u8 = 6;
pub const BOOT_SERVERS: u8 = 8;
pub const BOOT_ITEM: u8 = 71;
pub const END: u8 = 255;

} // verus!
