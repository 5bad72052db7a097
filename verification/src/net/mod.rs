//! Network services.
pub mod addr;
pub mod dhcp;
pub mod http;
pub mod path;
pub mod tftp;

use vstd::prelude::*;

verus! {

/// Why a packet could not be received or sent.
#[derive(Debug)]
pub struct NetError {
    pub message: String,
}

/// Abstraction over raw packet send/receive, hiding platform differences.
pub trait NetIo: Send + Sync {
    /// Receive the next inbound packet into `buf`; returns the number of bytes
    /// read.
    fn recv(&self, buf: &mut [u8]) -> (r: Result<usize, NetError>)
        ensures
            final(buf)@.len() == old(buf)@.len(),
            r matches Ok(n) ==> n <= old(buf)@.len(),
    ;

    /// Send one raw packet.
    fn send(&self, packet: &[u8]) -> (r: Result<(), NetError>);
}

} // verus!
