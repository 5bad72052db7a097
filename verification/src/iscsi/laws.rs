//! Where the fields of PDUs are on the wire.
use vstd::prelude::*;
use super::pdu;
use super::session::Outbound;
use super::text;
use super::{PduError, Request};
use crate::wire;

verus! {

/// The number in the `n` bytes of `b` from `i` on.
pub open spec fn field(b: Seq<u8>, i: int, n: int) -> int {
    wire::number(b.subrange(i, i + n))
}

proof fn fields_of(b: Seq<u8>)
    requires
        b.len() >= 48,
    ensures
        forall|i: int| 0 <= i <= 46 ==> #[trigger] wire::be16_at(b, i) == field(b, i, 2),
        forall|i: int| 0 <= i <= 45 ==> #[trigger] wire::be24_at(b, i) == field(b, i, 3),
        forall|i: int| 0 <= i <= 44 ==> #[trigger] wire::be32_at(b, i) == field(b, i, 4),
        forall|i: int| 0 <= i <= 40 ==> #[trigger] wire::be64_at(b, i) == field(b, i, 8),
{
    assert forall|i: int| 0 <= i <= 46 implies #[trigger] wire::be16_at(b, i) == field(b, i, 2) by {
        wire::be16_at_is_number(b, i);
    }
    assert forall|i: int| 0 <= i <= 45 implies #[trigger] wire::be24_at(b, i) == field(b, i, 3) by {
        wire::be24_at_is_number(b, i);
    }
    assert forall|i: int| 0 <= i <= 44 implies #[trigger] wire::be32_at(b, i) == field(b, i, 4) by {
        wire::be32_at_is_number(b, i);
    }
    assert forall|i: int| 0 <= i <= 40 implies #[trigger] wire::be64_at(b, i) == field(b, i, 8) by {
        wire::be64_at_is_number(b, i);
    }
}

/// When a PDU can be taken off the front of the bytes received, and where its
/// data is: a header of 48 bytes with no additional segments, data of the
/// length at byte 5 and at most 256 KiB, and padding to a multiple of four.
pub proof fn framing_of(b: Seq<u8>)
    ensures
        pdu::framing_error(b) == (if b.len() < 48 {
            Some(PduError::ShortHeader)
        } else if b[4] != 0 {
            Some(PduError::UnexpectedAhs)
        } else if field(b, 5, 3) > 0x4_0000 {
            Some(PduError::DataSegmentTooLong)
        } else if b.len() < 48 + (field(b, 5, 3) + 3) / 4 * 4 {
            Some(PduError::ShortData)
        } else {
            None
        }),
        b.len() >= 48 ==> pdu::pdu_len(b) == 48 + (field(b, 5, 3) + 3) / 4 * 4,
        b.len() >= 48 ==> pdu::data_segment(b) == b.subrange(48, 48 + field(b, 5, 3)),
{
    if b.len() >= 48 {
        fields_of(b);
        let n = wire::be24_at(b, 5);
        assert(n == field(b, 5, 3));
        assert(n + super::padding(n) == (n + 3) / 4 * 4);
    }
}

/// What a request says, by the places of its fields in the header.
pub proof fn request_fields(req: Request, h: Seq<u8>, data: Seq<u8>)
    requires
        h.len() == 48,
        pdu::is_request(req, h, data),
    ensures
        ({
            let op = h[0] & 0x3f;
            &&& op == 0x03 ==> (req matches Request::Login(l) && l.transit == (h[1] & 0x80 != 0)
                && l.continue_ == (h[1] & 0x40 != 0) && l.csg == (h[1] >> 2) & 0x3 && l.nsg == h[1]
                & 0x3 && l.isid@ == h.subrange(8, 14) && l.tsih == field(h, 14, 2) && l.itt
                == field(h, 16, 4) && l.cid == field(h, 20, 2) && l.cmd_sn == field(h, 24, 4)
                && l.exp_stat_sn == field(h, 28, 4) && text::pairs_view(l.text@) == text::pairs_in(
                data,
            ))
            &&& op == 0x04 ==> (req matches Request::Text(t) && t.itt == field(h, 16, 4) && t.ttt
                == field(h, 20, 4) && t.cmd_sn == field(h, 24, 4) && t.exp_stat_sn == field(
                h,
                28,
                4,
            ) && text::pairs_view(t.text@) == text::pairs_in(data))
            &&& op == 0x01 ==> (req matches Request::ScsiCommand(c) && c.final_ == (h[1] & 0x80
                != 0) && c.read == (h[1] & 0x40 != 0) && c.write == (h[1] & 0x20 != 0) && c.lun
                == field(h, 8, 8) && c.itt == field(h, 16, 4) && c.edtl == field(h, 20, 4)
                && c.cmd_sn == field(h, 24, 4) && c.exp_stat_sn == field(h, 28, 4) && c.cdb@
                == h.subrange(32, 48) && c.data@ == data)
            &&& op == 0x05 ==> (req matches Request::DataOut(d) && d.final_ == (h[1] & 0x80 != 0)
                && d.lun == field(h, 8, 8) && d.itt == field(h, 16, 4) && d.ttt == field(h, 20, 4)
                && d.exp_stat_sn == field(h, 28, 4) && d.data_sn == field(h, 36, 4)
                && d.buffer_offset == field(h, 40, 4) && d.data@ == data)
            &&& op == 0x00 ==> (req matches Request::NopOut(n) && n.lun == field(h, 8, 8) && n.itt
                == field(h, 16, 4) && n.ttt == field(h, 20, 4) && n.cmd_sn == field(h, 24, 4)
                && n.exp_stat_sn == field(h, 28, 4) && n.data@ == data)
            &&& op == 0x06 ==> (req matches Request::Logout(l) && l.reason == h[1] & 0x7f && l.itt
                == field(h, 16, 4) && l.cid == field(h, 20, 2) && l.cmd_sn == field(h, 24, 4)
                && l.exp_stat_sn == field(h, 28, 4))
            &&& op == 0x02 ==> (req matches Request::TaskMgmt(t) && t.function == h[1] & 0x7f
                && t.lun == field(h, 8, 8) && t.itt == field(h, 16, 4) && t.ref_task_tag == field(
                h,
                20,
                4,
            ) && t.cmd_sn == field(h, 24, 4) && t.exp_stat_sn == field(h, 28, 4))
            &&& op > 0x06 ==> (req matches Request::Unsupported { opcode, itt } && opcode == op
                && itt == field(h, 16, 4))
        }),
{
    fields_of(h);
}

/// A framed PDU has every field of its header in its place, then its data, then
/// zeros to a multiple of four.
pub proof fn framed_fields(h: pdu::Header, data: Seq<u8>)
    requires
        data.len() < 0x100_0000,
    ensures
        ({
            let b = pdu::framed(h, data);
            &&& b.len() % 4 == 0
            &&& 48 + data.len() <= b.len() < 48 + data.len() + 4
            &&& b[0] == h.opcode
            &&& b[1] == h.flags
            &&& b[2] == h.byte2
            &&& b[3] == h.byte3
            &&& b[4] == 0
            &&& field(b, 5, 3) == data.len()
            &&& field(b, 8, 8) == h.lun
            &&& field(b, 16, 4) == h.itt
            &&& field(b, 20, 4) == h.ttt
            &&& field(b, 24, 4) == h.stat_sn
            &&& field(b, 28, 4) == h.exp_cmd_sn
            &&& field(b, 32, 4) == h.max_cmd_sn
            &&& field(b, 36, 4) == h.word36
            &&& field(b, 40, 4) == h.word40
            &&& field(b, 44, 4) == h.word44
            &&& b.subrange(48, 48 + data.len() as int) == data
            &&& forall|i: int| 48 + data.len() <= i < b.len() ==> #[trigger] b[i] == 0
        }),
{
    framed_as(h, data);
    framed_parts(h, data, pdu::framed(h, data));
    start_is(h, data.len() as int);
    eight_spell(h.lun);
    four_spell(h.itt);
    four_spell(h.ttt);
    four_spell(h.stat_sn);
    four_spell(h.exp_cmd_sn);
    four_spell(h.max_cmd_sn);
    four_spell(h.word36);
    four_spell(h.word40);
    four_spell(h.word44);
    let b = pdu::framed(h, data);
    assert(b.subrange(5, 8) =~= b.subrange(0, 8).subrange(5, 8));
    assert forall|i: int| 0 <= i < 5 implies b[i] == b.subrange(0, 8)[i] by {}
    assert(b[0] == b.subrange(0, 8)[0] && b[1] == b.subrange(0, 8)[1] && b[2] == b.subrange(
        0,
        8,
    )[2] && b[3] == b.subrange(0, 8)[3] && b[4] == b.subrange(0, 8)[4]);
}

/// The bytes of `x`.
#[verifier::opaque]
spec fn four(x: u32) -> Seq<u8> {
    wire::be32(x)
}

/// The bytes of `x`.
#[verifier::opaque]
spec fn eight(x: u64) -> Seq<u8> {
    wire::be64(x)
}

/// The first eight bytes of a header.
#[verifier::opaque]
spec fn start(h: pdu::Header, n: int) -> Seq<u8> {
    pdu::header_start(h, n)
}

proof fn four_spell(x: u32)
    ensures
        four(x).len() == 4,
        wire::number(four(x)) == x,
{
    reveal(four);
    wire::bytes_spell_the_integer(0, 0, x, 0);
}

proof fn eight_spell(x: u64)
    ensures
        eight(x).len() == 8,
        wire::number(eight(x)) == x,
{
    reveal(eight);
    wire::bytes_spell_the_integer(0, 0, 0, x);
}

proof fn start_is(h: pdu::Header, n: int)
    requires
        0 <= n < 0x100_0000,
    ensures
        ({
            let s = start(h, n);
            &&& s.len() == 8
            &&& s[0] == h.opcode
            &&& s[1] == h.flags
            &&& s[2] == h.byte2
            &&& s[3] == h.byte3
            &&& s[4] == 0
            &&& wire::number(s.subrange(5, 8)) == n
        }),
{
    reveal(start);
    wire::bytes_spell_the_integer(0, n, 0, 0);
    assert(pdu::header_start(h, n).subrange(5, 8) =~= wire::be24(n));
}

proof fn framed_as(h: pdu::Header, data: Seq<u8>)
    ensures
        pdu::framed(h, data) == start(h, data.len() as int) + (eight(h.lun) + four(h.itt) + four(
            h.ttt,
        ) + four(h.stat_sn) + four(h.exp_cmd_sn) + four(h.max_cmd_sn) + four(h.word36) + four(
            h.word40,
        ) + four(h.word44)) + data + wire::zeros(super::padding(data.len() as int)),
{
    reveal(start);
    reveal(four);
    reveal(eight);
    let rest = pdu::header_rest(h);
    assert(rest == eight(h.lun) + four(h.itt) + four(h.ttt) + four(h.stat_sn) + four(h.exp_cmd_sn)
        + four(h.max_cmd_sn) + four(h.word36) + four(h.word40) + four(h.word44));
}

proof fn framed_parts(h: pdu::Header, data: Seq<u8>, b: Seq<u8>)
    requires
        data.len() < 0x100_0000,
        b == start(h, data.len() as int) + (eight(h.lun) + four(h.itt) + four(h.ttt) + four(
            h.stat_sn,
        ) + four(h.exp_cmd_sn) + four(h.max_cmd_sn) + four(h.word36) + four(h.word40) + four(
            h.word44,
        )) + data + wire::zeros(super::padding(data.len() as int)),
    ensures
        ({
            &&& b.len() % 4 == 0
            &&& 48 + data.len() <= b.len() < 48 + data.len() + 4
            &&& b.subrange(0, 8) == start(h, data.len() as int)
            &&& b.subrange(8, 16) == eight(h.lun)
            &&& b.subrange(16, 20) == four(h.itt)
            &&& b.subrange(20, 24) == four(h.ttt)
            &&& b.subrange(24, 28) == four(h.stat_sn)
            &&& b.subrange(28, 32) == four(h.exp_cmd_sn)
            &&& b.subrange(32, 36) == four(h.max_cmd_sn)
            &&& b.subrange(36, 40) == four(h.word36)
            &&& b.subrange(40, 44) == four(h.word40)
            &&& b.subrange(44, 48) == four(h.word44)
            &&& b.subrange(48, 48 + data.len() as int) == data
            &&& forall|i: int| 48 + data.len() <= i < b.len() ==> #[trigger] b[i] == 0
        }),
{
    let n = data.len() as int;
    start_is(h, n);
    eight_spell(h.lun);
    four_spell(h.itt);
    four_spell(h.ttt);
    four_spell(h.stat_sn);
    four_spell(h.exp_cmd_sn);
    four_spell(h.max_cmd_sn);
    four_spell(h.word36);
    four_spell(h.word40);
    four_spell(h.word44);
    parts_are_found(
        start(h, n),
        eight(h.lun),
        four(h.itt),
        four(h.ttt),
        four(h.stat_sn),
        four(h.exp_cmd_sn),
        four(h.max_cmd_sn),
        four(h.word36),
        four(h.word40),
        four(h.word44),
        data,
        wire::zeros(super::padding(n)),
        b,
    );
}

/// The parts of a sequence are found where they were put.
proof fn parts_are_found(
    start: Seq<u8>,
    a: Seq<u8>,
    p: Seq<u8>,
    q: Seq<u8>,
    r: Seq<u8>,
    s: Seq<u8>,
    t: Seq<u8>,
    u: Seq<u8>,
    v: Seq<u8>,
    w: Seq<u8>,
    data: Seq<u8>,
    pad: Seq<u8>,
    b: Seq<u8>,
)
    requires
        start.len() == 8,
        a.len() == 8,
        p.len() == 4,
        q.len() == 4,
        r.len() == 4,
        s.len() == 4,
        t.len() == 4,
        u.len() == 4,
        v.len() == 4,
        w.len() == 4,
        b == start + (a + p + q + r + s + t + u + v + w) + data + pad,
    ensures
        b.len() == 48 + data.len() + pad.len(),
        b.subrange(0, 8) == start,
        b.subrange(8, 16) == a,
        b.subrange(16, 20) == p,
        b.subrange(20, 24) == q,
        b.subrange(24, 28) == r,
        b.subrange(28, 32) == s,
        b.subrange(32, 36) == t,
        b.subrange(36, 40) == u,
        b.subrange(40, 44) == v,
        b.subrange(44, 48) == w,
        b.subrange(48, 48 + data.len() as int) == data,
        forall|i: int| 0 <= i < 8 ==> #[trigger] b[i] == start[i],
        forall|i: int| 48 + data.len() <= i < b.len() ==> #[trigger] b[i] == pad[i - 48
            - data.len()],
{
    assert(b.subrange(0, 8) =~= start);
    assert(b.subrange(8, 16) =~= a);
    assert(b.subrange(16, 20) =~= p);
    assert(b.subrange(20, 24) =~= q);
    assert(b.subrange(24, 28) =~= r);
    assert(b.subrange(28, 32) =~= s);
    assert(b.subrange(32, 36) =~= t);
    assert(b.subrange(36, 40) =~= u);
    assert(b.subrange(40, 44) =~= v);
    assert(b.subrange(44, 48) =~= w);
    assert(b.subrange(48, 48 + data.len() as int) =~= data);
}

/// The data that a response carries.
pub open spec fn carried_data(o: Outbound) -> Seq<u8> {
    match o {
        Outbound::Login(p) => text::pairs_bytes(text::pairs_view(p.text@)),
        Outbound::Text(p) => text::pairs_bytes(text::pairs_view(p.text@)),
        Outbound::ScsiResp(p) => if p.sense@.len() == 0 {
            Seq::empty()
        } else {
            seq![
                (p.sense@.len() / 0x100 % 0x100) as u8,
                (p.sense@.len() % 0x100) as u8,
            ] + p.sense@
        },
        Outbound::DataIn(p) => p.data@,
        Outbound::NopIn(p) => p.data@,
        Outbound::Reject(p) => p.header@,
        Outbound::R2t(_) | Outbound::Logout(_) | Outbound::TaskMgmt(_) => Seq::empty(),
    }
}

/// What every response has on the wire: its data, behind a header that tells
/// its length, and the sequence numbers of the session.
pub proof fn response_frame(o: Outbound)
    requires
        carried_data(o).len() < 0x100_0000,
    ensures
        ({
            let b = o.bytes();
            let data = carried_data(o);
            let (stat_sn, exp_cmd_sn, max_cmd_sn) = match o {
                Outbound::Login(p) => (p.stat_sn, p.exp_cmd_sn, p.max_cmd_sn),
                Outbound::ScsiResp(p) => (p.stat_sn, p.exp_cmd_sn, p.max_cmd_sn),
                Outbound::DataIn(p) => (p.stat_sn, p.exp_cmd_sn, p.max_cmd_sn),
                Outbound::R2t(p) => (p.stat_sn, p.exp_cmd_sn, p.max_cmd_sn),
                Outbound::NopIn(p) => (p.stat_sn, p.exp_cmd_sn, p.max_cmd_sn),
                Outbound::Text(p) => (p.stat_sn, p.exp_cmd_sn, p.max_cmd_sn),
                Outbound::Logout(p) => (p.stat_sn, p.exp_cmd_sn, p.max_cmd_sn),
                Outbound::TaskMgmt(p) => (p.stat_sn, p.exp_cmd_sn, p.max_cmd_sn),
                Outbound::Reject(p) => (p.stat_sn, p.exp_cmd_sn, p.max_cmd_sn),
            };
            &&& b.len() % 4 == 0
            &&& 48 + data.len() <= b.len() < 48 + data.len() + 4
            &&& b[4] == 0
            &&& field(b, 5, 3) == data.len()
            &&& field(b, 24, 4) == stat_sn
            &&& field(b, 28, 4) == exp_cmd_sn
            &&& field(b, 32, 4) == max_cmd_sn
            &&& b.subrange(48, 48 + data.len() as int) == data
        }),
{
    let data = carried_data(o);
    match o {
        Outbound::Login(p) => framed_fields(p.header(), data),
        Outbound::ScsiResp(p) => {
            assert(p.segment() =~= data) by {
                let n = p.sense@.len() as int;
                assert(n % 0x1_0000 / 0x100 == n / 0x100 % 0x100);
                assert(n % 0x1_0000 % 0x100 == n % 0x100);
            }
            framed_fields(p.header(), data);
        },
        Outbound::DataIn(p) => framed_fields(p.header(), data),
        Outbound::R2t(p) => framed_fields(p.header(), data),
        Outbound::NopIn(p) => framed_fields(p.header(), data),
        Outbound::Text(p) => framed_fields(p.header(), data),
        Outbound::Logout(p) => framed_fields(p.header(), data),
        Outbound::TaskMgmt(p) => framed_fields(p.header(), data),
        Outbound::Reject(p) => framed_fields(p.reject_header(), data),
    }
}

/// Where the fields of each response are on the wire.
pub proof fn response_fields(o: Outbound)
    requires
        carried_data(o).len() < 0x100_0000,
    ensures
        ({
            let b = o.bytes();
            match o {
                Outbound::Login(p) => {
                    &&& b[0] == 0x23
                    &&& p.transit == (b[1] & 0x80 != 0)
                    &&& p.continue_ == (b[1] & 0x40 != 0)
                    &&& p.csg & 0x3 == (b[1] >> 2) & 0x3
                    &&& p.nsg & 0x3 == b[1] & 0x3
                    &&& b[2] == p.version_max
                    &&& b[3] == p.version_active
                    &&& b.subrange(8, 14) == p.isid@
                    &&& field(b, 14, 2) == p.tsih
                    &&& field(b, 16, 4) == p.itt
                    &&& b[36] == p.status_class
                    &&& b[37] == p.status_detail
                },
                Outbound::ScsiResp(p) => {
                    &&& b[0] == 0x21
                    &&& b[1] == if p.residual > 0 { 0x82u8 } else { 0x80u8 }
                    &&& b[2] == p.response
                    &&& b[3] == p.status
                    &&& field(b, 16, 4) == p.itt
                    &&& field(b, 44, 4) == p.residual
                },
                Outbound::DataIn(p) => {
                    &&& b[0] == 0x25
                    &&& p.final_ == (b[1] & 0x80 != 0)
                    &&& p.ack == (b[1] & 0x40 != 0)
                    &&& p.has_status == (b[1] & 0x01 != 0)
                    &&& b[3] == p.status
                    &&& field(b, 8, 8) == p.lun
                    &&& field(b, 16, 4) == p.itt
                    &&& field(b, 20, 4) == p.ttt
                    &&& field(b, 36, 4) == p.data_sn
                    &&& field(b, 40, 4) == p.buffer_offset
                },
                Outbound::R2t(p) => {
                    &&& b[0] == 0x31
                    &&& b[1] == 0x80
                    &&& field(b, 8, 8) == p.lun
                    &&& field(b, 16, 4) == p.itt
                    &&& field(b, 20, 4) == p.ttt
                    &&& field(b, 36, 4) == p.r2t_sn
                    &&& field(b, 40, 4) == p.buffer_offset
                    &&& field(b, 44, 4) == p.desired_length
                },
                Outbound::NopIn(p) => {
                    &&& b[0] == 0x20
                    &&& b[1] == 0x80
                    &&& field(b, 8, 8) == p.lun
                    &&& field(b, 16, 4) == p.itt
                    &&& field(b, 20, 4) == p.ttt
                },
                Outbound::Text(p) => {
                    &&& b[0] == 0x24
                    &&& p.final_ == (b[1] & 0x80 != 0)
                    &&& p.continue_ == (b[1] & 0x40 != 0)
                    &&& field(b, 16, 4) == p.itt
                    &&& field(b, 20, 4) == p.ttt
                },
                Outbound::Logout(p) => b[0] == 0x26 && b[1] == 0x80 && b[2] == p.response,
                Outbound::TaskMgmt(p) => {
                    &&& b[0] == 0x22
                    &&& b[1] == 0x80
                    &&& b[2] == p.response
                    &&& field(b, 16, 4) == p.itt
                },
                Outbound::Reject(p) => {
                    &&& b[0] == 0x3f
                    &&& b[1] == 0x80
                    &&& b[2] == p.reason
                    &&& field(b, 16, 4) == 0xffff_ffff
                },
            }
        }),
{
    let data = carried_data(o);
    match o {
        Outbound::Login(p) => {
            framed_fields(p.header(), data);
            login_forms(p);
        },
        Outbound::ScsiResp(p) => {
            assert(p.segment() =~= data) by {
                let n = p.sense@.len() as int;
                assert(n % 0x1_0000 / 0x100 == n / 0x100 % 0x100);
                assert(n % 0x1_0000 % 0x100 == n % 0x100);
            }
            framed_fields(p.header(), data);
        },
        Outbound::DataIn(p) => {
            framed_fields(p.header(), data);
            flag_forms(p.final_, p.ack, p.has_status);
        },
        Outbound::R2t(p) => framed_fields(p.header(), data),
        Outbound::NopIn(p) => framed_fields(p.header(), data),
        Outbound::Text(p) => {
            framed_fields(p.header(), data);
            flag_forms(p.final_, p.continue_, false);
            let f = (if p.final_ { 0x80u8 } else { 0u8 }) | (if p.continue_ { 0x40u8 } else { 0u8 });
            assert(f | 0u8 == f) by (bit_vector);
        },
        Outbound::Logout(p) => framed_fields(p.header(), data),
        Outbound::TaskMgmt(p) => framed_fields(p.header(), data),
        Outbound::Reject(p) => framed_fields(p.reject_header(), data),
    }
}

proof fn flag_forms(a: bool, b: bool, c: bool)
    ensures
        ({
            let f = (if a { 0x80u8 } else { 0u8 }) | (if b { 0x40u8 } else { 0u8 }) | (if c {
                0x01u8
            } else {
                0u8
            });
            a == (f & 0x80 != 0) && b == (f & 0x40 != 0) && c == (f & 0x01 != 0)
        }),
{
    let x: u8 = if a { 0x80 } else { 0 };
    let y: u8 = if b { 0x40 } else { 0 };
    let z: u8 = if c { 0x01 } else { 0 };
    let f = x | y | z;
    assert((x == 0x80) == (f & 0x80 != 0) && (y == 0x40) == (f & 0x40 != 0) && (z == 0x01) == (f
        & 0x01 != 0)) by (bit_vector)
        requires
            x == 0x80 || x == 0,
            y == 0x40 || y == 0,
            z == 0x01 || z == 0,
            f == x | y | z,
    ;
}

proof fn login_forms(p: super::LoginResponse)
    requires
        text::pairs_bytes(text::pairs_view(p.text@)).len() < 0x100_0000,
    ensures
        ({
            let b = pdu::framed(p.header(), p.segment());
            &&& p.transit == (b[1] & 0x80 != 0)
            &&& p.continue_ == (b[1] & 0x40 != 0)
            &&& p.csg & 0x3 == (b[1] >> 2) & 0x3
            &&& p.nsg & 0x3 == b[1] & 0x3
            &&& b.subrange(8, 14) == p.isid@
            &&& field(b, 14, 2) == p.tsih
            &&& b[36] == p.status_class
            &&& b[37] == p.status_detail
        }),
{
    let b = pdu::framed(p.header(), p.segment());
    let h = p.header();
    framed_fields(h, p.segment());
    login_flag_forms(p.transit, p.continue_, p.csg, p.nsg);
    isid_forms(p.isid@, p.tsih);
    status_forms(p.status_class, p.status_detail);
    framed_as(h, p.segment());
    framed_parts(h, p.segment(), b);
    assert(b.subrange(8, 16) == wire::be64(h.lun)) by {
        reveal(eight);
    }
    assert(b.subrange(36, 40) == wire::be32(h.word36)) by {
        reveal(four);
    }
    assert(b.subrange(8, 14) =~= b.subrange(8, 16).subrange(0, 6));
    assert(b.subrange(14, 16) =~= b.subrange(8, 16).subrange(6, 8));
    assert(b[36] == b.subrange(36, 40)[0]);
    assert(b[37] == b.subrange(36, 40)[1]);
}

proof fn login_flag_forms(transit: bool, continue_: bool, c: u8, n: u8)
    ensures
        ({
            let f = pdu::login_flags(transit, continue_, c, n);
            &&& transit == (f & 0x80 != 0)
            &&& continue_ == (f & 0x40 != 0)
            &&& c & 0x3 == (f >> 2) & 0x3
            &&& n & 0x3 == f & 0x3
        }),
{
    let x: u8 = if transit { 0x80 } else { 0 };
    let y: u8 = if continue_ { 0x40 } else { 0 };
    let f = x | y | ((c & 0x3) << 2) | (n & 0x3);
    assert((x == 0x80) == (f & 0x80 != 0) && (y == 0x40) == (f & 0x40 != 0) && c & 0x3 == (f >> 2)
        & 0x3 && n & 0x3 == f & 0x3) by (bit_vector)
        requires
            x == 0x80 || x == 0,
            y == 0x40 || y == 0,
            f == x | y | ((c & 0x3) << 2) | (n & 0x3),
    ;
}

/// Bytes that spell an integer are the bytes of that integer.
proof fn be32_is_unique(s: Seq<u8>, x: u32)
    requires
        s.len() == 4,
        wire::number(s) == x,
    ensures
        s == wire::be32(x),
{
    wire::be32_at_is_number(s, 0);
    assert(s.subrange(0, 4) =~= s);
    digits(s[0], s[1], s[2], s[3], x);
    assert(s =~= wire::be32(x));
}

proof fn digits(a: u8, b: u8, c: u8, d: u8, x: u32)
    requires
        x == a * 0x100_0000 + b * 0x1_0000 + c * 0x100 + d,
    ensures
        x / 0x100_0000 == a,
        x / 0x1_0000 % 0x100 == b,
        x / 0x100 % 0x100 == c,
        x % 0x100 == d,
{
    assert(x / 0x1_0000 == a * 0x100 + b);
    assert(x / 0x100 == (a * 0x100 + b) * 0x100 + c);
}

proof fn be64_splits(hi: u32, lo: u32, word: u64)
    requires
        word == hi * 0x1_0000_0000 + lo,
    ensures
        wire::be64(word) == wire::be32(hi) + wire::be32(lo),
{
    assert(word / 0x1_0000_0000 == hi);
    assert(word % 0x1_0000_0000 == lo);
}

proof fn isid_forms(i: Seq<u8>, tsih: u16)
    requires
        i.len() == 6,
    ensures
        ({
            let b = wire::be64(pdu::isid_tsih(i, tsih));
            &&& b.len() == 8
            &&& b.subrange(0, 6) == i
            &&& wire::number(b.subrange(6, 8)) == tsih
        }),
{
    let word = pdu::isid_tsih(i, tsih);
    let b = wire::be64(word);
    let hi = wire::be32_at(i, 0);
    let mid = wire::be16_at(i, 4);
    let lo = (mid * 0x1_0000 + tsih) as u32;
    be64_splits(hi, lo, word);
    wire::be32_at_is_number(i, 0);
    be32_is_unique(i.subrange(0, 4), hi);
    low_forms(i, mid, tsih, lo);
    halves(b, wire::be32(hi), wire::be32(lo), i);
    wire::bytes_spell_the_integer(tsih, 0, 0, 0);
}

proof fn low_forms(i: Seq<u8>, mid: u16, tsih: u16, lo: u32)
    requires
        i.len() == 6,
        mid == wire::be16_at(i, 4),
        lo == mid * 0x1_0000 + tsih,
    ensures
        wire::be32(lo).subrange(0, 2) == i.subrange(4, 6),
        wire::be32(lo).subrange(2, 4) == wire::be16(tsih),
{
    digits(i[4], i[5], (tsih / 0x100) as u8, (tsih % 0x100) as u8, lo);
    assert(wire::be32(lo).subrange(0, 2) =~= i.subrange(4, 6));
    assert(wire::be32(lo).subrange(2, 4) =~= wire::be16(tsih));
}

proof fn halves(b: Seq<u8>, front: Seq<u8>, back: Seq<u8>, i: Seq<u8>)
    requires
        b == front + back,
        front.len() == 4,
        back.len() == 4,
        i.len() == 6,
        front == i.subrange(0, 4),
        back.subrange(0, 2) == i.subrange(4, 6),
    ensures
        b.len() == 8,
        b.subrange(0, 6) == i,
        b.subrange(6, 8) == back.subrange(2, 4),
{
    assert forall|k: int| 0 <= k < 6 implies b[k] == i[k] by {
        if k < 4 {
            assert(front[k] == i.subrange(0, 4)[k]);
        } else {
            assert(back.subrange(0, 2)[k - 4] == back[k - 4]);
            assert(i.subrange(4, 6)[k - 4] == i[k]);
        }
    }
    assert(b.subrange(0, 6) =~= i);
    assert(b.subrange(6, 8) =~= back.subrange(2, 4));
}

proof fn status_forms(class: u8, detail: u8)
    ensures
        ({
            let b = wire::be32((class * 0x100_0000 + detail * 0x1_0000) as u32);
            b.len() == 4 && b[0] == class && b[1] == detail
        }),
{
}

} // verus!
