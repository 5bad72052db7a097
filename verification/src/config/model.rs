//! What a configuration holds.
use vstd::prelude::*;
use super::size::ByteSize;
use crate::net::addr::{IpAddr, Ipv4Addr};

verus! {

#[derive(Debug, Clone, Copy, PartialEq, Eq, Structural)]
pub enum DiskType {
    Image,
    Game,
    Writeback,
}

#[derive(Debug, Clone, Copy, PartialEq, Eq, Structural)]
pub enum DiskMode {
    Readonly,
    Readwrite,
}

#[derive(Debug, Clone, Copy, PartialEq, Eq, Structural)]
pub enum WritebackPolicy {
    Volatile,
}

#[derive(Debug, PartialEq, Eq)]
pub struct Disk {
    pub id: String,
    pub disk_type: DiskType,
    pub backing: String,
    pub mode: Option<DiskMode>,
    pub ram_cache: ByteSize,
    pub policy: Option<WritebackPolicy>,
}

#[derive(Debug, PartialEq, Eq)]
pub struct Client {
    pub mac: String,
    pub name: Option<String>,
    pub system: String,
    pub games: Vec<String>,
    pub writeback: String,
}

#[derive(Debug, PartialEq, Eq)]
pub struct ClientDefaults {
    pub system: String,
    pub games: Vec<String>,
    pub writeback: String,
}

/// Optional `[boot]` section: enables the DHCP / PXE network-boot service.
/// When absent, the DHCP server is not started.
#[derive(Debug, PartialEq, Eq)]
pub struct BootConfig {
    /// Our IP: used for next-server (siaddr / option 66) and server-id (option 54).
    pub server_ip: Ipv4Addr,
    /// Listen address for the `:67` and `:4011` UDP sockets.
    pub bind: IpAddr,
    /// Listen address of the HTTP server.
    pub http_bind: IpAddr,
    /// Port of the HTTP server.
    pub http_port: u16,
    /// Port of the iSCSI target.
    pub iscsi_port: u16,
    /// Directory from which TFTP files are served.
    pub tftp_root: String,
    /// TFTP file for legacy BIOS (arch 0x0000), relative to tftp_root.
    pub bios_filename: String,
    /// TFTP file for UEFI x64 (arch 0x0007/0x0009).
    pub uefi_filename: String,
    /// iPXE arm HTTP boot script; `?mac=...` is appended at runtime.
    pub http_script_url: String,
}

#[derive(Debug, PartialEq, Eq)]
pub struct Config {
    pub disks: Vec<Disk>,
    pub clients: Vec<Client>,
    pub client_defaults: Option<ClientDefaults>,
    pub boot: Option<BootConfig>,
}

} // verus!
