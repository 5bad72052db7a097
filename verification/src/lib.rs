//! Core of a diskless network-boot server: disk-image formats, copy-on-write
//! volumes, the iSCSI target that serves them, and the DHCP, TFTP and HTTP
//! decisions that get a client from power-on to its disk.
//!
//! Everything here is sans-I/O. Sockets, files, clocks and threads belong to
//! the application around the library; the library takes plain values and
//! hands plain values back, and its contracts say which.
pub mod text;
pub mod wire;
pub mod storage;
pub mod volume;
pub mod iscsi;
pub mod cache;
pub mod net;
pub mod config;
pub mod manager;
pub mod tools;
