//! DHCP message types (option 53 values).
use vstd::prelude::*;

verus! {

pub const DISCOVER: u8 = 1;
pub const OFFER: u8 = 2;
pub const REQUEST: u8 = 3;
pub const ACK: u8 = 5;

} // verus!
