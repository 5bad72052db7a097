//! iSCSI target: PDU codec, SCSI command execution, sessions, and the registry
//! of targets.
pub mod laws;
pub mod opcode;
pub mod pdu;
pub mod registry;
pub mod scsi;
pub mod session;
pub mod stream;
pub mod text;
pub mod transport;

pub use pdu::{
    decode, LoginRequest, LoginResponse, LogoutRequest, LogoutResponse, NopIn, NopOut, R2t, Reject,
    Request, ScsiCommand, ScsiDataIn, ScsiDataOut, ScsiResponse, TaskMgmt, TaskMgmtResponse,
    TextRequest, TextResponse,
};

use vstd::prelude::*;

verus! {

/// Fixed size of the iSCSI Basic Header Segment.
pub const BHS_LEN: usize = 48;

/// Defensive cap on a single PDU's data segment length. The *negotiated*
/// MaxRecvDataSegmentLength is the session's concern; this is only a sanity
/// bound so a hostile length field can't trigger a huge allocation. 256 KiB.
pub const MAX_DATA_SEGMENT: usize = 256 * 1024;

/// Errors from decoding a PDU. Structural corruption only: an unknown *opcode*
/// is not an error (it becomes `Request::Unsupported`).
#[derive(Debug, Clone, Copy, PartialEq, Eq, Structural)]
pub enum PduError {
    /// Buffer shorter than the 48-byte BHS.
    ShortHeader,
    /// Declared data segment runs past the end of the buffer.
    ShortData,
    /// AHS present but unsupported (TotalAHSLength != 0).
    UnexpectedAhs,
    /// Data segment length exceeds `MAX_DATA_SEGMENT`.
    DataSegmentTooLong,
}

impl PduError {
    /// The error in words.
    pub fn message(&self) -> (m: &'static str)
        ensures
            m@ == match self {
                PduError::ShortHeader => "buffer shorter than the 48-byte BHS"@,
                PduError::ShortData => "declared data segment runs past the end of the buffer"@,
                PduError::UnexpectedAhs => "AHS present but unsupported (TotalAHSLength != 0)"@,
                PduError::DataSegmentTooLong => "data segment length exceeds MAX_DATA_SEGMENT"@,
            },
    {
        match self {
            PduError::ShortHeader => "buffer shorter than the 48-byte BHS",
            PduError::ShortData => "declared data segment runs past the end of the buffer",
            PduError::UnexpectedAhs => "AHS present but unsupported (TotalAHSLength != 0)",
            PduError::DataSegmentTooLong => "data segment length exceeds MAX_DATA_SEGMENT",
        }
    }
}

/// Padding that rounds `n` bytes up to a 4-byte boundary.
pub open spec fn padding(n: int) -> int {
    (4 - n % 4) % 4
}

/// Padding needed to round `n` bytes up to a 4-byte boundary.
pub fn pad4(n: usize) -> (p: usize)
    ensures
        p == padding(n as int),
        p < 4,
        (n + p) % 4 == 0,
{
    (4 - (n % 4)) % 4
}

} // verus!
