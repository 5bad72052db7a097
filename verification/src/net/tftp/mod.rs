//! TFTP (RFC 1350, options of RFC 2347 to 2349): packets and transfers.
pub mod laws;
pub mod packet;
pub mod server;
