//! PDU decoding (initiator -> target) and response encoding (target ->
//! initiator). BHS offsets follow RFC 7143. Multi-byte fields are big-endian.
use vstd::prelude::*;
use super::text;
use super::{opcode, pad4, PduError, BHS_LEN, MAX_DATA_SEGMENT};
use crate::wire;

verus! {

// ---- request types (initiator -> target) ----

/// A decoded initiator PDU.
#[derive(Debug, PartialEq, Eq)]
pub enum Request {
    Login(LoginRequest),
    Text(TextRequest),
    ScsiCommand(ScsiCommand),
    DataOut(ScsiDataOut),
    NopOut(NopOut),
    Logout(LogoutRequest),
    TaskMgmt(TaskMgmt),
    /// Any opcode we do not handle. The session answers with a Reject; never an
    /// error.
    Unsupported { opcode: u8, itt: u32 },
}

#[derive(Debug, PartialEq, Eq)]
pub struct LoginRequest {
    pub transit: bool,
    pub continue_: bool,
    pub csg: u8,
    pub nsg: u8,
    pub version_max: u8,
    pub version_min: u8,
    pub isid: [u8; 6],
    pub tsih: u16,
    pub itt: u32,
    pub cid: u16,
    pub cmd_sn: u32,
    pub exp_stat_sn: u32,
    pub text: Vec<(String, String)>,
}

#[derive(Debug, PartialEq, Eq)]
pub struct TextRequest {
    pub final_: bool,
    pub continue_: bool,
    pub lun: u64,
    pub itt: u32,
    pub ttt: u32,
    pub cmd_sn: u32,
    pub exp_stat_sn: u32,
    pub text: Vec<(String, String)>,
}

#[derive(Debug, PartialEq, Eq)]
pub struct ScsiCommand {
    pub final_: bool,
    pub read: bool,
    pub write: bool,
    pub attr: u8,
    pub lun: u64,
    pub itt: u32,
    pub edtl: u32,
    pub cmd_sn: u32,
    pub exp_stat_sn: u32,
    pub cdb: [u8; 16],
    pub data: Vec<u8>,
}

#[derive(Debug, PartialEq, Eq)]
pub struct ScsiDataOut {
    pub final_: bool,
    pub lun: u64,
    pub itt: u32,
    pub ttt: u32,
    pub exp_stat_sn: u32,
    pub data_sn: u32,
    pub buffer_offset: u32,
    pub data: Vec<u8>,
}

#[derive(Debug, PartialEq, Eq)]
pub struct NopOut {
    pub lun: u64,
    pub itt: u32,
    pub ttt: u32,
    pub cmd_sn: u32,
    pub exp_stat_sn: u32,
    pub data: Vec<u8>,
}

#[derive(Debug, PartialEq, Eq)]
pub struct LogoutRequest {
    pub reason: u8,
    pub itt: u32,
    pub cid: u16,
    pub cmd_sn: u32,
    pub exp_stat_sn: u32,
}

#[derive(Debug, PartialEq, Eq)]
pub struct TaskMgmt {
    pub function: u8,
    pub lun: u64,
    pub itt: u32,
    pub ref_task_tag: u32,
    pub cmd_sn: u32,
    pub exp_stat_sn: u32,
}

/// The data segment length that a header declares.
pub open spec fn declared_len(b: Seq<u8>) -> int {
    wire::be24_at(b, 5)
}

/// Length of the PDU that a header starts: BHS, data, padding.
pub open spec fn pdu_len(b: Seq<u8>) -> int {
    BHS_LEN + declared_len(b) + super::padding(declared_len(b))
}

/// Why no PDU can be taken from the front of `b`, if none can.
pub open spec fn framing_error(b: Seq<u8>) -> Option<PduError> {
    if b.len() < BHS_LEN {
        Some(PduError::ShortHeader)
    } else if b[4] != 0 {
        Some(PduError::UnexpectedAhs)
    } else if declared_len(b) > MAX_DATA_SEGMENT {
        Some(PduError::DataSegmentTooLong)
    } else if b.len() < pdu_len(b) {
        Some(PduError::ShortData)
    } else {
        None
    }
}

/// The data segment of the PDU at the front of `b`.
pub open spec fn data_segment(b: Seq<u8>) -> Seq<u8> {
    b.subrange(BHS_LEN as int, BHS_LEN + declared_len(b))
}

/// `l` is the Login Request with header `h` and data segment `data`.
pub open spec fn is_login(l: LoginRequest, h: Seq<u8>, data: Seq<u8>) -> bool {
    &&& l.transit == (h[1] & 0x80 != 0)
    &&& l.continue_ == (h[1] & 0x40 != 0)
    &&& l.csg == (h[1] >> 2) & 0x3
    &&& l.nsg == h[1] & 0x3
    &&& l.version_max == h[2]
    &&& l.version_min == h[3]
    &&& l.isid@ == h.subrange(8, 14)
    &&& l.tsih == wire::be16_at(h, 14)
    &&& l.itt == wire::be32_at(h, 16)
    &&& l.cid == wire::be16_at(h, 20)
    &&& l.cmd_sn == wire::be32_at(h, 24)
    &&& l.exp_stat_sn == wire::be32_at(h, 28)
    &&& text::pairs_view(l.text@) == text::pairs_in(data)
}

/// `t` is the Text Request with header `h` and data segment `data`.
pub open spec fn is_text(t: TextRequest, h: Seq<u8>, data: Seq<u8>) -> bool {
    &&& t.final_ == (h[1] & 0x80 != 0)
    &&& t.continue_ == (h[1] & 0x40 != 0)
    &&& t.lun == wire::be64_at(h, 8)
    &&& t.itt == wire::be32_at(h, 16)
    &&& t.ttt == wire::be32_at(h, 20)
    &&& t.cmd_sn == wire::be32_at(h, 24)
    &&& t.exp_stat_sn == wire::be32_at(h, 28)
    &&& text::pairs_view(t.text@) == text::pairs_in(data)
}

/// `c` is the SCSI Command with header `h` and data segment `data`.
pub open spec fn is_scsi_command(c: ScsiCommand, h: Seq<u8>, data: Seq<u8>) -> bool {
    &&& c.final_ == (h[1] & 0x80 != 0)
    &&& c.read == (h[1] & 0x40 != 0)
    &&& c.write == (h[1] & 0x20 != 0)
    &&& c.attr == h[1] & 0x07
    &&& c.lun == wire::be64_at(h, 8)
    &&& c.itt == wire::be32_at(h, 16)
    &&& c.edtl == wire::be32_at(h, 20)
    &&& c.cmd_sn == wire::be32_at(h, 24)
    &&& c.exp_stat_sn == wire::be32_at(h, 28)
    &&& c.cdb@ == h.subrange(32, 48)
    &&& c.data@ == data
}

/// `d` is the SCSI Data-Out with header `h` and data segment `data`.
pub open spec fn is_data_out(d: ScsiDataOut, h: Seq<u8>, data: Seq<u8>) -> bool {
    &&& d.final_ == (h[1] & 0x80 != 0)
    &&& d.lun == wire::be64_at(h, 8)
    &&& d.itt == wire::be32_at(h, 16)
    &&& d.ttt == wire::be32_at(h, 20)
    &&& d.exp_stat_sn == wire::be32_at(h, 28)
    &&& d.data_sn == wire::be32_at(h, 36)
    &&& d.buffer_offset == wire::be32_at(h, 40)
    &&& d.data@ == data
}

/// `n` is the NOP-Out with header `h` and data segment `data`.
pub open spec fn is_nop_out(n: NopOut, h: Seq<u8>, data: Seq<u8>) -> bool {
    &&& n.lun == wire::be64_at(h, 8)
    &&& n.itt == wire::be32_at(h, 16)
    &&& n.ttt == wire::be32_at(h, 20)
    &&& n.cmd_sn == wire::be32_at(h, 24)
    &&& n.exp_stat_sn == wire::be32_at(h, 28)
    &&& n.data@ == data
}

/// `req` is the request with header `h` and data segment `data`.
pub open spec fn is_request(req: Request, h: Seq<u8>, data: Seq<u8>) -> bool {
    let op = h[0] & 0x3f;
    if op == opcode::LOGIN_REQ {
        req matches Request::Login(l) && is_login(l, h, data)
    } else if op == opcode::TEXT_REQ {
        req matches Request::Text(t) && is_text(t, h, data)
    } else if op == opcode::SCSI_COMMAND {
        req matches Request::ScsiCommand(c) && is_scsi_command(c, h, data)
    } else if op == opcode::DATA_OUT {
        req matches Request::DataOut(d) && is_data_out(d, h, data)
    } else if op == opcode::NOP_OUT {
        req matches Request::NopOut(n) && is_nop_out(n, h, data)
    } else if op == opcode::LOGOUT_REQ {
        req == Request::Logout(
            LogoutRequest {
                reason: h[1] & 0x7f,
                itt: wire::be32_at(h, 16),
                cid: wire::be16_at(h, 20),
                cmd_sn: wire::be32_at(h, 24),
                exp_stat_sn: wire::be32_at(h, 28),
            },
        )
    } else if op == opcode::TASK_MGMT {
        req == Request::TaskMgmt(
            TaskMgmt {
                function: h[1] & 0x7f,
                lun: wire::be64_at(h, 8),
                itt: wire::be32_at(h, 16),
                ref_task_tag: wire::be32_at(h, 20),
                cmd_sn: wire::be32_at(h, 24),
                exp_stat_sn: wire::be32_at(h, 28),
            },
        )
    } else {
        req == (Request::Unsupported { opcode: op, itt: wire::be32_at(h, 16) })
    }
}

/// Decode one PDU from the front of `buf`. Returns the parsed request and the
/// total number of bytes consumed (BHS + data + padding). Never panics.
pub fn decode(buf: &[u8]) -> (r: Result<(Request, usize), PduError>)
    ensures
        match r {
            Err(e) => framing_error(buf@) == Some(e),
            Ok((req, used)) => {
                &&& framing_error(buf@) is None
                &&& used == pdu_len(buf@)
                &&& is_request(req, buf@.take(BHS_LEN as int), data_segment(buf@))
            },
        },
{
    if buf.len() < BHS_LEN {
        return Err(PduError::ShortHeader);
    }
    let h = vstd::slice::slice_subrange(buf, 0, BHS_LEN);
    assert(h@ =~= buf@.take(BHS_LEN as int));
    let op: u8 = h[0] & 0x3f;
    if h[4] != 0 {
        return Err(PduError::UnexpectedAhs);
    }
    let data_len: usize = wire::get_be24(h, 5);
    if data_len > MAX_DATA_SEGMENT {
        return Err(PduError::DataSegmentTooLong);
    }
    let total: usize = BHS_LEN + data_len + pad4(data_len);
    if buf.len() < total {
        return Err(PduError::ShortData);
    }
    let data = vstd::slice::slice_subrange(buf, BHS_LEN, BHS_LEN + data_len);
    let req = match op {
        opcode::LOGIN_REQ => {
            let isid: [u8; 6] = [h[8], h[9], h[10], h[11], h[12], h[13]];
            assert(isid@ =~= h@.subrange(8, 14));
            Request::Login(
                LoginRequest {
                    transit: h[1] & 0x80 != 0,
                    continue_: h[1] & 0x40 != 0,
                    csg: (h[1] >> 2) & 0x3,
                    nsg: h[1] & 0x3,
                    version_max: h[2],
                    version_min: h[3],
                    isid,
                    tsih: wire::get_be16(h, 14),
                    itt: wire::get_be32(h, 16),
                    cid: wire::get_be16(h, 20),
                    cmd_sn: wire::get_be32(h, 24),
                    exp_stat_sn: wire::get_be32(h, 28),
                    text: text::parse_pairs(data),
                },
            )
        },
        opcode::TEXT_REQ => Request::Text(
            TextRequest {
                final_: h[1] & 0x80 != 0,
                continue_: h[1] & 0x40 != 0,
                lun: wire::get_be64(h, 8),
                itt: wire::get_be32(h, 16),
                ttt: wire::get_be32(h, 20),
                cmd_sn: wire::get_be32(h, 24),
                exp_stat_sn: wire::get_be32(h, 28),
                text: text::parse_pairs(data),
            },
        ),
        opcode::SCSI_COMMAND => {
            let cdb: [u8; 16] = [
                h[32], h[33], h[34], h[35], h[36], h[37], h[38], h[39],
                h[40], h[41], h[42], h[43], h[44], h[45], h[46], h[47],
            ];
            assert(cdb@ =~= h@.subrange(32, 48));
            Request::ScsiCommand(
                ScsiCommand {
                    final_: h[1] & 0x80 != 0,
                    read: h[1] & 0x40 != 0,
                    write: h[1] & 0x20 != 0,
                    attr: h[1] & 0x07,
                    lun: wire::get_be64(h, 8),
                    itt: wire::get_be32(h, 16),
                    edtl: wire::get_be32(h, 20),
                    cmd_sn: wire::get_be32(h, 24),
                    exp_stat_sn: wire::get_be32(h, 28),
                    cdb,
                    data: vstd::slice::slice_to_vec(data),
                },
            )
        },
        opcode::DATA_OUT => Request::DataOut(
            ScsiDataOut {
                final_: h[1] & 0x80 != 0,
                lun: wire::get_be64(h, 8),
                itt: wire::get_be32(h, 16),
                ttt: wire::get_be32(h, 20),
                exp_stat_sn: wire::get_be32(h, 28),
                data_sn: wire::get_be32(h, 36),
                buffer_offset: wire::get_be32(h, 40),
                data: vstd::slice::slice_to_vec(data),
            },
        ),
        opcode::NOP_OUT => Request::NopOut(
            NopOut {
                lun: wire::get_be64(h, 8),
                itt: wire::get_be32(h, 16),
                ttt: wire::get_be32(h, 20),
                cmd_sn: wire::get_be32(h, 24),
                exp_stat_sn: wire::get_be32(h, 28),
                data: vstd::slice::slice_to_vec(data),
            },
        ),
        opcode::LOGOUT_REQ => Request::Logout(
            LogoutRequest {
                reason: h[1] & 0x7f,
                itt: wire::get_be32(h, 16),
                cid: wire::get_be16(h, 20),
                cmd_sn: wire::get_be32(h, 24),
                exp_stat_sn: wire::get_be32(h, 28),
            },
        ),
        opcode::TASK_MGMT => Request::TaskMgmt(
            TaskMgmt {
                function: h[1] & 0x7f,
                lun: wire::get_be64(h, 8),
                itt: wire::get_be32(h, 16),
                ref_task_tag: wire::get_be32(h, 20),
                cmd_sn: wire::get_be32(h, 24),
                exp_stat_sn: wire::get_be32(h, 28),
            },
        ),
        other => Request::Unsupported { opcode: other, itt: wire::get_be32(h, 16) },
    };
    Ok((req, total))
}

/// Bytes that follow a complete PDU do not change how it decodes; bytes that
/// follow a broken header do not mend it.
pub proof fn framing_ignores_what_follows(b: Seq<u8>, more: Seq<u8>)
    ensures
        framing_error(b) is None ==> {
            &&& framing_error(b + more) is None
            &&& pdu_len(b + more) == pdu_len(b)
            &&& (b + more).take(BHS_LEN as int) == b.take(BHS_LEN as int)
            &&& data_segment(b + more) == data_segment(b)
        },
        framing_error(b) == Some(PduError::UnexpectedAhs) ==> framing_error(b + more)
            == framing_error(b),
        framing_error(b) == Some(PduError::DataSegmentTooLong) ==> framing_error(b + more)
            == framing_error(b),
{
    if framing_error(b) is None {
        assert((b + more).take(BHS_LEN as int) =~= b.take(BHS_LEN as int));
        assert(data_segment(b + more) =~= data_segment(b));
    }
}

// ---- response types (target -> initiator) ----

/// Login Response.
#[derive(Debug)]
pub struct LoginResponse {
    pub transit: bool,
    pub continue_: bool,
    pub csg: u8,
    pub nsg: u8,
    pub version_max: u8,
    pub version_active: u8,
    pub isid: [u8; 6],
    pub tsih: u16,
    pub itt: u32,
    pub stat_sn: u32,
    pub exp_cmd_sn: u32,
    pub max_cmd_sn: u32,
    pub status_class: u8,
    pub status_detail: u8,
    pub text: Vec<(String, String)>,
}

/// SCSI Response. A residual is an underflow.
#[derive(Debug)]
pub struct ScsiResponse {
    pub response: u8,
    pub status: u8,
    pub itt: u32,
    pub stat_sn: u32,
    pub exp_cmd_sn: u32,
    pub max_cmd_sn: u32,
    pub residual: u32,
    pub sense: Vec<u8>,
}

/// SCSI Data-In.
#[derive(Debug)]
pub struct ScsiDataIn {
    pub final_: bool,
    pub ack: bool,
    pub has_status: bool,
    pub status: u8,
    pub lun: u64,
    pub itt: u32,
    pub ttt: u32,
    pub stat_sn: u32,
    pub exp_cmd_sn: u32,
    pub max_cmd_sn: u32,
    pub data_sn: u32,
    pub buffer_offset: u32,
    pub data: Vec<u8>,
}

/// Ready To Transfer.
#[derive(Debug)]
pub struct R2t {
    pub lun: u64,
    pub itt: u32,
    pub ttt: u32,
    pub stat_sn: u32,
    pub exp_cmd_sn: u32,
    pub max_cmd_sn: u32,
    pub r2t_sn: u32,
    pub buffer_offset: u32,
    pub desired_length: u32,
}

/// NOP-In.
#[derive(Debug)]
pub struct NopIn {
    pub lun: u64,
    pub itt: u32,
    pub ttt: u32,
    pub stat_sn: u32,
    pub exp_cmd_sn: u32,
    pub max_cmd_sn: u32,
    pub data: Vec<u8>,
}

/// Text Response.
#[derive(Debug)]
pub struct TextResponse {
    pub final_: bool,
    pub continue_: bool,
    pub itt: u32,
    pub ttt: u32,
    pub stat_sn: u32,
    pub exp_cmd_sn: u32,
    pub max_cmd_sn: u32,
    pub text: Vec<(String, String)>,
}

/// Logout Response.
#[derive(Debug)]
pub struct LogoutResponse {
    pub response: u8,
    pub stat_sn: u32,
    pub exp_cmd_sn: u32,
    pub max_cmd_sn: u32,
}

/// Task Management Function Response.
#[derive(Debug)]
pub struct TaskMgmtResponse {
    pub response: u8,
    pub itt: u32,
    pub stat_sn: u32,
    pub exp_cmd_sn: u32,
    pub max_cmd_sn: u32,
}

/// Reject, carrying the header it refuses.
#[derive(Debug)]
pub struct Reject {
    pub reason: u8,
    pub stat_sn: u32,
    pub exp_cmd_sn: u32,
    pub max_cmd_sn: u32,
    pub header: Vec<u8>,
}

/// The fields of a target PDU's header. Every response has this shape; what
/// the words mean depends on the opcode.
pub struct Header {
    pub opcode: u8,
    pub flags: u8,
    pub byte2: u8,
    pub byte3: u8,
    pub lun: u64,
    pub itt: u32,
    pub ttt: u32,
    pub stat_sn: u32,
    pub exp_cmd_sn: u32,
    pub max_cmd_sn: u32,
    pub word36: u32,
    pub word40: u32,
    pub word44: u32,
}

/// The first eight bytes of a header, with the data segment's length in its
/// 24-bit field.
pub open spec fn header_start(h: Header, data_len: int) -> Seq<u8> {
    seq![h.opcode, h.flags, h.byte2, h.byte3, 0u8] + wire::be24(data_len)
}

/// The other forty bytes of a header.
pub open spec fn header_rest(h: Header) -> Seq<u8> {
    wire::be64(h.lun) + wire::be32(h.itt) + wire::be32(h.ttt) + wire::be32(h.stat_sn) + wire::be32(
        h.exp_cmd_sn,
    ) + wire::be32(h.max_cmd_sn) + wire::be32(h.word36) + wire::be32(h.word40) + wire::be32(
        h.word44,
    )
}

/// A PDU on the wire: the header, the data, and zero padding to a 4-byte
/// boundary.
pub open spec fn framed(h: Header, data: Seq<u8>) -> Seq<u8> {
    header_start(h, data.len() as int) + header_rest(h) + data + wire::zeros(
        super::padding(data.len() as int),
    )
}

fn frame(h: Header, data: &[u8]) -> (out: Vec<u8>)
    ensures
        out@ == framed(h, data@),
{
    let mut out: Vec<u8> = vec![h.opcode, h.flags, h.byte2, h.byte3, 0];
    wire::push_be24(&mut out, data.len());
    wire::push_be64(&mut out, h.lun);
    wire::push_be32(&mut out, h.itt);
    wire::push_be32(&mut out, h.ttt);
    wire::push_be32(&mut out, h.stat_sn);
    wire::push_be32(&mut out, h.exp_cmd_sn);
    wire::push_be32(&mut out, h.max_cmd_sn);
    wire::push_be32(&mut out, h.word36);
    wire::push_be32(&mut out, h.word40);
    wire::push_be32(&mut out, h.word44);
    wire::push_bytes(&mut out, data);
    wire::push_zeros(&mut out, pad4(data.len()));
    assert(out@ =~= framed(h, data@));
    out
}

/// A framed PDU tells its own length: a reader that takes the header, then as
/// many bytes as it declares, then the padding, has read exactly the PDU.
pub proof fn framed_pdu_is_self_delimiting(h: Header, data: Seq<u8>)
    requires
        data.len() < 0x100_0000,
    ensures
        framed(h, data).len() == pdu_len(framed(h, data)),
        framed(h, data).len() % 4 == 0,
        framed(h, data)[0] == h.opcode,
        data_segment(framed(h, data)) == data,
{
    assert(header_rest(h).len() == 40);
    frame_parts(h, data, header_rest(h));
}

proof fn frame_parts(h: Header, data: Seq<u8>, rest: Seq<u8>)
    requires
        data.len() < 0x100_0000,
        rest.len() == 40,
    ensures
        ({
            let pdu = header_start(h, data.len() as int) + rest + data + wire::zeros(
                super::padding(data.len() as int),
            );
            &&& pdu.len() == pdu_len(pdu)
            &&& pdu.len() % 4 == 0
            &&& pdu[0] == h.opcode
            &&& data_segment(pdu) == data
        }),
{
    let n = data.len() as int;
    let start = header_start(h, n);
    let pdu = start + rest + data + wire::zeros(super::padding(n));
    assert(pdu[0] == start[0] && pdu[5] == start[5] && pdu[6] == start[6] && pdu[7] == start[7]);
    assert(start[5] == wire::be24(n)[0]);
    assert(start[6] == wire::be24(n)[1]);
    assert(start[7] == wire::be24(n)[2]);
    assert(declared_len(pdu) == n);
    assert(data_segment(pdu) =~= data);
}

/// The stage byte of a Login Response.
pub open spec fn login_flags(transit: bool, continue_: bool, csg: u8, nsg: u8) -> u8 {
    (if transit { 0x80u8 } else { 0u8 }) | (if continue_ { 0x40u8 } else { 0u8 }) | ((csg & 0x3) << 2)
        | (nsg & 0x3)
}

/// ISID and TSIH as the 64-bit field they share a place with.
pub open spec fn isid_tsih(isid: Seq<u8>, tsih: u16) -> u64 {
    (wire::be32_at(isid, 0) * 0x1_0000_0000 + wire::be16_at(isid, 4) * 0x1_0000 + tsih) as u64
}

impl LoginResponse {
    /// The header this PDU is sent under.
    pub open spec fn header(&self) -> Header {
        Header {
            opcode: opcode::LOGIN_RESP,
            flags: login_flags(self.transit, self.continue_, self.csg, self.nsg),
            byte2: self.version_max,
            byte3: self.version_active,
            lun: isid_tsih(self.isid@, self.tsih),
            itt: self.itt,
            ttt: 0,
            stat_sn: self.stat_sn,
            exp_cmd_sn: self.exp_cmd_sn,
            max_cmd_sn: self.max_cmd_sn,
            word36: (self.status_class * 0x100_0000 + self.status_detail * 0x1_0000) as u32,
            word40: 0,
            word44: 0,
        }
    }

    /// The data segment this PDU carries.
    pub open spec fn segment(&self) -> Seq<u8> {
        text::pairs_bytes(text::pairs_view(self.text@))
    }

    /// The PDU on the wire.
    pub fn encode(&self) -> (out: Vec<u8>)
        ensures
            out@ == framed(self.header(), self.segment()),
    {
        let data = text::encode_pairs(self.text.as_slice());
        let flags: u8 = (if self.transit { 0x80u8 } else { 0u8 }) | (if self.continue_ {
            0x40u8
        } else {
            0u8
        }) | ((self.csg & 0x3) << 2) | (self.nsg & 0x3);
        let session: u64 = wire::get_be32(self.isid.as_slice(), 0) as u64 * 0x1_0000_0000
            + wire::get_be16(self.isid.as_slice(), 4) as u64 * 0x1_0000 + self.tsih as u64;
        frame(
            Header {
                opcode: opcode::LOGIN_RESP,
                flags: flags,
                byte2: self.version_max,
                byte3: self.version_active,
                lun: session,
                itt: self.itt,
                ttt: 0,
                stat_sn: self.stat_sn,
                exp_cmd_sn: self.exp_cmd_sn,
                max_cmd_sn: self.max_cmd_sn,
                word36: self.status_class as u32 * 0x100_0000 + self.status_detail as u32 * 0x1_0000,
                word40: 0,
                word44: 0,
            },
            data.as_slice(),
        )
    }
}

impl ScsiResponse {
    /// The header this PDU is sent under.
    pub open spec fn header(&self) -> Header {
        Header {
            opcode: opcode::SCSI_RESP,
            flags: if self.residual > 0 { 0x82 } else { 0x80 },
            byte2: self.response,
            byte3: self.status,
            lun: 0,
            itt: self.itt,
            ttt: 0,
            stat_sn: self.stat_sn,
            exp_cmd_sn: self.exp_cmd_sn,
            max_cmd_sn: self.max_cmd_sn,
            word36: 0,
            word40: 0,
            word44: self.residual,
        }
    }

    /// The data segment this PDU carries.
    pub open spec fn segment(&self) -> Seq<u8> {
        if self.sense@.len() == 0 {
            Seq::empty()
        } else {
            wire::be16((self.sense@.len() % 0x1_0000) as u16) + self.sense@
        }
    }

    /// The PDU on the wire.
    pub fn encode(&self) -> (out: Vec<u8>)
        ensures
            out@ == framed(self.header(), self.segment()),
    {
        let mut data: Vec<u8> = Vec::new();
        if self.sense.len() > 0 {
            wire::push_be16(&mut data, (self.sense.len() % 0x1_0000) as u16);
            wire::push_bytes(&mut data, self.sense.as_slice());
        }
        assert(data@ =~= self.segment());
        frame(
            Header {
                opcode: opcode::SCSI_RESP,
                flags: if self.residual > 0 { 0x82 } else { 0x80 },
                byte2: self.response,
                byte3: self.status,
                lun: 0,
                itt: self.itt,
                ttt: 0,
                stat_sn: self.stat_sn,
                exp_cmd_sn: self.exp_cmd_sn,
                max_cmd_sn: self.max_cmd_sn,
                word36: 0,
                word40: 0,
                word44: self.residual,
            },
            data.as_slice(),
        )
    }
}

impl ScsiDataIn {
    /// The header this PDU is sent under.
    pub open spec fn header(&self) -> Header {
        Header {
            opcode: opcode::DATA_IN,
            flags: (if self.final_ { 0x80u8 } else { 0u8 }) | (if self.ack { 0x40u8 } else { 0u8 }) | (
            if self.has_status { 0x01u8 } else { 0u8 }),
            byte2: 0,
            byte3: self.status,
            lun: self.lun,
            itt: self.itt,
            ttt: self.ttt,
            stat_sn: self.stat_sn,
            exp_cmd_sn: self.exp_cmd_sn,
            max_cmd_sn: self.max_cmd_sn,
            word36: self.data_sn,
            word40: self.buffer_offset,
            word44: 0,
        }
    }

    /// The data segment this PDU carries.
    pub open spec fn segment(&self) -> Seq<u8> {
        self.data@
    }

    /// The PDU on the wire.
    pub fn encode(&self) -> (out: Vec<u8>)
        ensures
            out@ == framed(self.header(), self.segment()),
    {
        frame(
            Header {
                opcode: opcode::DATA_IN,
                flags: (if self.final_ { 0x80u8 } else { 0u8 }) | (if self.ack { 0x40u8 } else { 0u8 }) | (
            if self.has_status { 0x01u8 } else { 0u8 }),
                byte2: 0,
                byte3: self.status,
                lun: self.lun,
                itt: self.itt,
                ttt: self.ttt,
                stat_sn: self.stat_sn,
                exp_cmd_sn: self.exp_cmd_sn,
                max_cmd_sn: self.max_cmd_sn,
                word36: self.data_sn,
                word40: self.buffer_offset,
                word44: 0,
            },
            self.data.as_slice(),
        )
    }
}

impl R2t {
    /// The header this PDU is sent under.
    pub open spec fn header(&self) -> Header {
        Header {
            opcode: opcode::R2T,
            flags: 0x80,
            byte2: 0,
            byte3: 0,
            lun: self.lun,
            itt: self.itt,
            ttt: self.ttt,
            stat_sn: self.stat_sn,
            exp_cmd_sn: self.exp_cmd_sn,
            max_cmd_sn: self.max_cmd_sn,
            word36: self.r2t_sn,
            word40: self.buffer_offset,
            word44: self.desired_length,
        }
    }

    /// The data segment this PDU carries.
    pub open spec fn segment(&self) -> Seq<u8> {
        Seq::empty()
    }

    /// The PDU on the wire.
    pub fn encode(&self) -> (out: Vec<u8>)
        ensures
            out@ == framed(self.header(), self.segment()),
    {
        let none: Vec<u8> = Vec::new();
        assert(none@ =~= self.segment());
        frame(
            Header {
                opcode: opcode::R2T,
                flags: 0x80,
                byte2: 0,
                byte3: 0,
                lun: self.lun,
                itt: self.itt,
                ttt: self.ttt,
                stat_sn: self.stat_sn,
                exp_cmd_sn: self.exp_cmd_sn,
                max_cmd_sn: self.max_cmd_sn,
                word36: self.r2t_sn,
                word40: self.buffer_offset,
                word44: self.desired_length,
            },
            none.as_slice(),
        )
    }
}

impl NopIn {
    /// The header this PDU is sent under.
    pub open spec fn header(&self) -> Header {
        Header {
            opcode: opcode::NOP_IN,
            flags: 0x80,
            byte2: 0,
            byte3: 0,
            lun: self.lun,
            itt: self.itt,
            ttt: self.ttt,
            stat_sn: self.stat_sn,
            exp_cmd_sn: self.exp_cmd_sn,
            max_cmd_sn: self.max_cmd_sn,
            word36: 0,
            word40: 0,
            word44: 0,
        }
    }

    /// The data segment this PDU carries.
    pub open spec fn segment(&self) -> Seq<u8> {
        self.data@
    }

    /// The PDU on the wire.
    pub fn encode(&self) -> (out: Vec<u8>)
        ensures
            out@ == framed(self.header(), self.segment()),
    {
        frame(
            Header {
                opcode: opcode::NOP_IN,
                flags: 0x80,
                byte2: 0,
                byte3: 0,
                lun: self.lun,
                itt: self.itt,
                ttt: self.ttt,
                stat_sn: self.stat_sn,
                exp_cmd_sn: self.exp_cmd_sn,
                max_cmd_sn: self.max_cmd_sn,
                word36: 0,
                word40: 0,
                word44: 0,
            },
            self.data.as_slice(),
        )
    }
}

impl TextResponse {
    /// The header this PDU is sent under.
    pub open spec fn header(&self) -> Header {
        Header {
            opcode: opcode::TEXT_RESP,
            flags: (if self.final_ { 0x80u8 } else { 0u8 }) | (if self.continue_ { 0x40u8 } else { 0u8 }),
            byte2: 0,
            byte3: 0,
            lun: 0,
            itt: self.itt,
            ttt: self.ttt,
            stat_sn: self.stat_sn,
            exp_cmd_sn: self.exp_cmd_sn,
            max_cmd_sn: self.max_cmd_sn,
            word36: 0,
            word40: 0,
            word44: 0,
        }
    }

    /// The data segment this PDU carries.
    pub open spec fn segment(&self) -> Seq<u8> {
        text::pairs_bytes(text::pairs_view(self.text@))
    }

    /// The PDU on the wire.
    pub fn encode(&self) -> (out: Vec<u8>)
        ensures
            out@ == framed(self.header(), self.segment()),
    {
        let data = text::encode_pairs(self.text.as_slice());
        frame(
            Header {
                opcode: opcode::TEXT_RESP,
                flags: (if self.final_ { 0x80u8 } else { 0u8 }) | (if self.continue_ { 0x40u8 } else { 0u8 }),
                byte2: 0,
                byte3: 0,
                lun: 0,
                itt: self.itt,
                ttt: self.ttt,
                stat_sn: self.stat_sn,
                exp_cmd_sn: self.exp_cmd_sn,
                max_cmd_sn: self.max_cmd_sn,
                word36: 0,
                word40: 0,
                word44: 0,
            },
            data.as_slice(),
        )
    }
}

impl LogoutResponse {
    /// The header this PDU is sent under.
    pub open spec fn header(&self) -> Header {
        Header {
            opcode: opcode::LOGOUT_RESP,
            flags: 0x80,
            byte2: self.response,
            byte3: 0,
            lun: 0,
            itt: 0,
            ttt: 0,
            stat_sn: self.stat_sn,
            exp_cmd_sn: self.exp_cmd_sn,
            max_cmd_sn: self.max_cmd_sn,
            word36: 0,
            word40: 0,
            word44: 0,
        }
    }

    /// The data segment this PDU carries.
    pub open spec fn segment(&self) -> Seq<u8> {
        Seq::empty()
    }

    /// The PDU on the wire.
    pub fn encode(&self) -> (out: Vec<u8>)
        ensures
            out@ == framed(self.header(), self.segment()),
    {
        let none: Vec<u8> = Vec::new();
        assert(none@ =~= self.segment());
        frame(
            Header {
                opcode: opcode::LOGOUT_RESP,
                flags: 0x80,
                byte2: self.response,
                byte3: 0,
                lun: 0,
                itt: 0,
                ttt: 0,
                stat_sn: self.stat_sn,
                exp_cmd_sn: self.exp_cmd_sn,
                max_cmd_sn: self.max_cmd_sn,
                word36: 0,
                word40: 0,
                word44: 0,
            },
            none.as_slice(),
        )
    }
}

impl TaskMgmtResponse {
    /// The header this PDU is sent under.
    pub open spec fn header(&self) -> Header {
        Header {
            opcode: opcode::TASK_MGMT_RESP,
            flags: 0x80,
            byte2: self.response,
            byte3: 0,
            lun: 0,
            itt: self.itt,
            ttt: 0,
            stat_sn: self.stat_sn,
            exp_cmd_sn: self.exp_cmd_sn,
            max_cmd_sn: self.max_cmd_sn,
            word36: 0,
            word40: 0,
            word44: 0,
        }
    }

    /// The data segment this PDU carries.
    pub open spec fn segment(&self) -> Seq<u8> {
        Seq::empty()
    }

    /// The PDU on the wire.
    pub fn encode(&self) -> (out: Vec<u8>)
        ensures
            out@ == framed(self.header(), self.segment()),
    {
        let none: Vec<u8> = Vec::new();
        assert(none@ =~= self.segment());
        frame(
            Header {
                opcode: opcode::TASK_MGMT_RESP,
                flags: 0x80,
                byte2: self.response,
                byte3: 0,
                lun: 0,
                itt: self.itt,
                ttt: 0,
                stat_sn: self.stat_sn,
                exp_cmd_sn: self.exp_cmd_sn,
                max_cmd_sn: self.max_cmd_sn,
                word36: 0,
                word40: 0,
                word44: 0,
            },
            none.as_slice(),
        )
    }
}

impl Reject {
    /// The header this PDU is sent under.
    pub open spec fn reject_header(&self) -> Header {
        Header {
            opcode: opcode::REJECT,
            flags: 0x80,
            byte2: self.reason,
            byte3: 0,
            lun: 0,
            itt: 0xffff_ffff,
            ttt: 0,
            stat_sn: self.stat_sn,
            exp_cmd_sn: self.exp_cmd_sn,
            max_cmd_sn: self.max_cmd_sn,
            word36: 0,
            word40: 0,
            word44: 0,
        }
    }

    /// The data segment this PDU carries.
    pub open spec fn segment(&self) -> Seq<u8> {
        self.header@
    }

    /// The PDU on the wire.
    pub fn encode(&self) -> (out: Vec<u8>)
        ensures
            out@ == framed(self.reject_header(), self.segment()),
    {
        frame(
            Header {
                opcode: opcode::REJECT,
                flags: 0x80,
                byte2: self.reason,
                byte3: 0,
                lun: 0,
                itt: 0xffff_ffff,
                ttt: 0,
                stat_sn: self.stat_sn,
                exp_cmd_sn: self.exp_cmd_sn,
                max_cmd_sn: self.max_cmd_sn,
                word36: 0,
                word40: 0,
                word44: 0,
            },
            self.header.as_slice(),
        )
    }
}

} // verus!
