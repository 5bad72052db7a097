//! DHCP and proxyDHCP: packets, options, what to offer, and whom to answer.
pub mod decide;
pub mod laws;
pub mod options;
pub mod packet;
pub mod server;
