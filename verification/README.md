# xboot

A diskless network-boot server. A client finds it over DHCP, loads iPXE over
TFTP, fetches its boot script over HTTP, and boots from an iSCSI target whose
disks are read-only master images under a copy-on-write overlay.

The library (`src/`) holds the server's logic without its I/O, verified with
Verus:

- `storage`: raw, VHD and VHDX images, increment chains, and the VHD writer
- `volume`: a master under an overlay; `cache`: a byte-budgeted block cache, and
  one that the clients of a master share
- `iscsi`: the PDU codec, SCSI commands, sessions, the registry of targets, and
  what a peer gets back for a stream of bytes
- `net`: DHCP, TFTP and HTTP; `manager`: clients by MAC address
- `config`: the configuration, its sizes and its validation
- `tools`: what the command-line tools compute

Contracts speak of disks as sequences of bytes and of text as sequences of
characters. A store (`storage::BackingStore`) says which of its bytes can be
read; a read of such bytes is sure to succeed, and everything above a store
says when it does in those terms.

The application (`app/`) is the program around the library: sockets, files, the
clock and the command line. Before it calls a library function it checks what
the function requires.
