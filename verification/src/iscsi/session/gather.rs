//! What becomes of the data of a write: immediate data, solicited data, and the
//! execution once all has arrived.
use vstd::prelude::*;
use super::{Connection, Outbound, Stage};
use crate::iscsi::registry::TargetRegistry;
use crate::iscsi::scsi;
use crate::iscsi::{Request, ScsiCommand, ScsiDataOut};
use crate::storage::BackingStore;
use crate::volume::OverlayStore;

verus! {

broadcast use vstd::std_specs::hash::group_hash_axioms;

/// The bytes that the first `k` Data-Outs carry, counted.
pub open spec fn sent_by(ds: Seq<ScsiDataOut>, k: int) -> int
    decreases k,
{
    if k <= 0 {
        0
    } else {
        sent_by(ds, k - 1) + ds[k - 1].data@.len()
    }
}

/// Data-Out `d` carries the byte for place `p` of the buffer.
pub open spec fn carries(d: ScsiDataOut, p: int) -> bool {
    d.buffer_offset <= p < d.buffer_offset + d.data@.len()
}

/// `payload` is what the initiator sent with `cmd` and the first `k` of `ds`:
/// each byte is that of the last Data-Out that carries it, or else of the
/// immediate data, or else zero.
pub open spec fn is_gathered(payload: Seq<u8>, cmd: ScsiCommand, ds: Seq<ScsiDataOut>, k: int) -> bool {
    &&& payload.len() == cmd.edtl
    &&& forall|p: int, i: int|
        #![trigger payload[p], ds[i]]
        0 <= p < payload.len() && 0 <= i < k && carries(ds[i], p) && (forall|j: int|
            i < j < k ==> !carries(#[trigger] ds[j], p)) ==> payload[p]
            == ds[i].data@[p - ds[i].buffer_offset]
    &&& forall|p: int|
        #![trigger payload[p]]
        0 <= p < payload.len() && (forall|j: int| 0 <= j < k ==> !carries(#[trigger] ds[j], p))
            ==> payload[p] == if p < cmd.data@.len() {
            cmd.data@[p]
        } else {
            0
        }
}

/// `out` is one R2T for `cmd` that solicits the bytes from `from` on: all that
/// are missing, or a full burst of them.
pub open spec fn solicits(
    c: Connection,
    out: Seq<Outbound>,
    cmd: ScsiCommand,
    from: int,
    number: int,
) -> bool {
    &&& out.len() == 1
    &&& out[0] matches Outbound::R2t(r)
    &&& r.lun == cmd.lun
    &&& r.itt == cmd.itt
    &&& r.ttt == cmd.itt
    &&& r.buffer_offset == from
    &&& r.desired_length <= c.params.max_burst_length
    &&& from + r.desired_length <= cmd.edtl
    &&& r.desired_length == c.params.max_burst_length || from + r.desired_length == cmd.edtl
    &&& r.r2t_sn == number % 0x1_0000_0000
}

/// `cs` and `rs` are what a connection in full-feature phase and its registry go
/// through when a write `cmd` arrives and then `ds`, one Data-Out after the
/// other, each for that write and within it, none but the last completing it.
pub open spec fn is_exchange<M: BackingStore, O: OverlayStore>(
    cs: Seq<Connection>,
    rs: Seq<TargetRegistry<M, O>>,
    cmd: ScsiCommand,
    ds: Seq<ScsiDataOut>,
    headers: Seq<Seq<u8>>,
    outs: Seq<Seq<Outbound>>,
) -> bool {
    &&& cs.len() == ds.len() + 2
    &&& rs.len() == cs.len()
    &&& outs.len() == ds.len() + 1
    &&& cs[0].stage == Stage::FullFeature
    &&& cs[0].target is Some
    &&& cmd.write
    &&& cmd.data@.len() < cmd.edtl
    &&& cs[0].handles(&rs[0], Request::ScsiCommand(cmd), headers[0], cs[1], &rs[1], outs[0])
    &&& forall|i: int|
        0 <= i < ds.len() ==> {
            &&& (#[trigger] ds[i]).itt == cmd.itt
            &&& ds[i].buffer_offset + ds[i].data@.len() <= cmd.edtl
            &&& i < ds.len() - 1 ==> cmd.data@.len() + sent_by(ds, i + 1) < cmd.edtl
            &&& cs[i + 1].handles(
                &rs[i + 1],
                Request::DataOut(ds[i]),
                headers[i + 1],
                cs[i + 2],
                &rs[i + 2],
                outs[i + 1],
            )
        }
}

/// Storing the bytes of one Data-Out more keeps what was gathered.
proof fn one_more_is_gathered(buf: Seq<u8>, cmd: ScsiCommand, ds: Seq<ScsiDataOut>, k: int, after: Seq<u8>)
    requires
        0 < k <= ds.len(),
        is_gathered(buf, cmd, ds, k - 1),
        ds[k - 1].buffer_offset + ds[k - 1].data@.len() <= cmd.edtl,
        after == crate::wire::splice(buf, ds[k - 1].buffer_offset as int, ds[k - 1].data@),
    ensures
        is_gathered(after, cmd, ds, k),
{
    assert forall|x: int, i: int|
        #![trigger after[x], ds[i]]
        0 <= x < after.len() && 0 <= i < k && carries(ds[i], x) && (forall|j: int|
            i < j < k ==> !carries(#[trigger] ds[j], x)) implies after[x] == ds[i].data@[x
        - ds[i].buffer_offset] by {
        if i < k - 1 {
            assert(!carries(ds[k - 1], x));
            assert(after[x] == buf[x]);
        }
    }
    assert forall|x: int|
        #![trigger after[x]]
        0 <= x < after.len() && (forall|j: int| 0 <= j < k ==> !carries(#[trigger] ds[j], x))
        implies after[x] == (if x < cmd.data@.len() {
        cmd.data@[x]
    } else {
        0
    }) by {
        assert(!carries(ds[k - 1], x));
        assert(after[x] == buf[x]);
    }
}

/// The Data-Out that brings the last missing bytes of a write has it executed
/// and answered.
proof fn last_data_executes<M: BackingStore, O: OverlayStore>(
    c0: Connection,
    r0: &TargetRegistry<M, O>,
    d: ScsiDataOut,
    bhs: Seq<u8>,
    c1: Connection,
    r1: &TargetRegistry<M, O>,
    out: Seq<Outbound>,
) -> (o: scsi::OutcomeView)
    requires
        c0.stage == Stage::FullFeature,
        c0.handles(r0, Request::DataOut(d), bhs, c1, r1, out),
        c0.in_flight@.contains_key(d.itt),
        d.buffer_offset + d.data@.len() <= c0.in_flight@[d.itt].buf@.len(),
        c0.in_flight@[d.itt].received + d.data@.len() >= c0.in_flight@[d.itt].cmd.edtl,
    ensures
        ({
            let p = c0.in_flight@[d.itt];
            r1.executed(
                r0,
                c0.target->0,
                p.cmd.lun,
                p.cmd.cdb@,
                crate::wire::splice(p.buf@, d.buffer_offset as int, d.data@),
                o,
            )
        }),
        !c1.in_flight@.contains_key(d.itt),
        c1.stage == Stage::FullFeature,
        c1.target == c0.target,
        out.len() == 1,
        out[0] matches Outbound::ScsiResp(p) && p.response == 0 && p.status == o.status && p.itt
            == c0.in_flight@[d.itt].cmd.itt && p.residual == 0 && p.sense@ == o.sense,
{
    let p = c0.in_flight@[d.itt];
    let filled = crate::wire::splice(p.buf@, d.buffer_offset as int, d.data@);
    let idle = choose|idle: Connection| #[trigger]
        c0.without_pending(d.itt, idle) && idle.finishes_write(r0, p.cmd, filled, c1, r1, out);
    choose|o: scsi::OutcomeView| #[trigger]
        r1.executed(r0, idle.target->0, p.cmd.lun, p.cmd.cdb@, filled, o)
            && idle.is_scsi_response(out[0], p.cmd.itt, o, 0)
}

/// Once `k` Data-Outs have arrived, and data is still missing, the write is in
/// flight with what was gathered, nothing has been executed, and the last
/// answer solicits the next bytes.
proof fn gathered_so_far<M: BackingStore, O: OverlayStore>(
    cs: Seq<Connection>,
    rs: Seq<TargetRegistry<M, O>>,
    cmd: ScsiCommand,
    ds: Seq<ScsiDataOut>,
    headers: Seq<Seq<u8>>,
    outs: Seq<Seq<Outbound>>,
    k: int,
)
    requires
        is_exchange(cs, rs, cmd, ds, headers, outs),
        0 <= k <= ds.len(),
        k == ds.len() ==> cmd.data@.len() + sent_by(ds, k) < cmd.edtl,
    ensures
        rs[k + 1] == rs[0],
        cs[k + 1].stage == Stage::FullFeature,
        cs[k + 1].target == cs[0].target,
        cs[k + 1].params == cs[0].params,
        cs[k + 1].in_flight@.contains_key(cmd.itt),
        ({
            let p = cs[k + 1].in_flight@[cmd.itt];
            &&& p.cmd == cmd
            &&& p.received == cmd.data@.len() + sent_by(ds, k)
            &&& p.r2t_sn == k % 0x1_0000_0000
            &&& is_gathered(p.buf@, cmd, ds, k)
        }),
        solicits(cs[0], outs[k], cmd, cmd.data@.len() + sent_by(ds, k), k),
    decreases k,
{
    if k > 0 {
        let d = ds[k - 1];
        assert(cmd.data@.len() + sent_by(ds, k - 1) < cmd.edtl) by {
            if k - 1 > 0 {
                let e = ds[k - 2];
            }
        }
        gathered_so_far(cs, rs, cmd, ds, headers, outs, k - 1);
        let p = cs[k].in_flight@[cmd.itt];
        let q = cs[k + 1].in_flight@[cmd.itt];
        assert(cs[k].takes_data(&rs[k], d, headers[k], cs[k + 1], &rs[k + 1], outs[k]));
        assert(p.received + d.data@.len() < p.cmd.edtl);
        one_more_is_gathered(p.buf@, cmd, ds, k, q.buf@);
    }
}

/// A write executes what the initiator sent: the immediate data, and behind or
/// over it the bytes of the Data-Outs, each at its offset. Until all bytes have
/// arrived nothing is executed and the next missing ones are solicited; when
/// they have, the write is executed with them, once, and answered.
pub proof fn write_executes_what_was_sent<M: BackingStore, O: OverlayStore>(
    cs: Seq<Connection>,
    rs: Seq<TargetRegistry<M, O>>,
    cmd: ScsiCommand,
    ds: Seq<ScsiDataOut>,
    headers: Seq<Seq<u8>>,
    outs: Seq<Seq<Outbound>>,
) -> (r: (Seq<u8>, scsi::OutcomeView))
    requires
        is_exchange(cs, rs, cmd, ds, headers, outs),
        ds.len() > 0,
        cmd.data@.len() + sent_by(ds, ds.len() as int) >= cmd.edtl,
    ensures
        is_gathered(r.0, cmd, ds, ds.len() as int),
        forall|k: int|
            0 <= k < ds.len() ==> {
                &&& (#[trigger] rs[k + 1]) == rs[0]
                &&& solicits(cs[0], outs[k], cmd, cmd.data@.len() + sent_by(ds, k), k)
            },
        rs.last().executed(&rs[0], cs[0].target->0, cmd.lun, cmd.cdb@, r.0, r.1),
        !cs.last().in_flight@.contains_key(cmd.itt),
        ({
            let out = outs.last();
            &&& out.len() == 1
            &&& out[0] matches Outbound::ScsiResp(p)
            &&& p.response == 0
            &&& p.status == r.1.status
            &&& p.itt == cmd.itt
            &&& p.residual == 0
            &&& p.sense@ == r.1.sense
        }),
{
    let m = ds.len() as int;
    let d = ds[m - 1];
    assert forall|k: int| 0 <= k < m implies {
        &&& (#[trigger] rs[k + 1]) == rs[0]
        &&& solicits(cs[0], outs[k], cmd, cmd.data@.len() + sent_by(ds, k), k)
    } by {
        if k > 0 {
            let e = ds[k - 1];
        }
        gathered_so_far(cs, rs, cmd, ds, headers, outs, k);
    }
    if m > 1 {
        let e = ds[m - 2];
    }
    gathered_so_far(cs, rs, cmd, ds, headers, outs, m - 1);
    let p = cs[m].in_flight@[cmd.itt];
    let filled = crate::wire::splice(p.buf@, d.buffer_offset as int, d.data@);
    one_more_is_gathered(p.buf@, cmd, ds, m, filled);
    let o = last_data_executes(cs[m], &rs[m], d, headers[m], cs[m + 1], &rs[m + 1], outs[m]);
    assert(rs[(m - 1) + 1] == rs[0]);
    (filled, o)
}

/// Data-Outs that run on from the immediate data to the end make up, with it,
/// all that is written.
pub proof fn consecutive_data_is_gathered_whole(
    payload: Seq<u8>,
    cmd: ScsiCommand,
    ds: Seq<ScsiDataOut>,
    k: int,
)
    requires
        is_gathered(payload, cmd, ds, k),
        0 <= k <= ds.len(),
        cmd.data@.len() + sent_by(ds, k) == cmd.edtl,
        forall|i: int| 0 <= i < k ==> (#[trigger] ds[i]).buffer_offset == cmd.data@.len() + sent_by(
            ds,
            i,
        ),
    ensures
        payload.take(cmd.data@.len() as int) == cmd.data@,
        forall|i: int| 0 <= i < k ==> payload.subrange(
            (#[trigger] ds[i]).buffer_offset as int,
            ds[i].buffer_offset + ds[i].data@.len(),
        ) == ds[i].data@,
{
    assert forall|i: int, j: int| 0 <= i < j <= k implies #[trigger] sent_by(ds, i)
        + ds[i].data@.len() <= #[trigger] sent_by(ds, j) by {
        sent_grows(ds, i, j);
    }
    assert forall|p: int| 0 <= p < cmd.data@.len() implies payload[p] == cmd.data@[p] by {
        assert forall|j: int| 0 <= j < k implies !carries(#[trigger] ds[j], p) by {
            if j > 0 {
                sent_grows(ds, 0, j);
            }
        }
    }
    assert(payload.take(cmd.data@.len() as int) =~= cmd.data@);
    assert forall|i: int| 0 <= i < k implies payload.subrange(
        (#[trigger] ds[i]).buffer_offset as int,
        ds[i].buffer_offset + ds[i].data@.len(),
    ) == ds[i].data@ by {
        let at = ds[i].buffer_offset as int;
        let n = ds[i].data@.len() as int;
        assert(sent_by(ds, i + 1) == sent_by(ds, i) + n);
        if i + 1 < k {
            sent_grows(ds, i + 1, k);
        }
        assert forall|p: int| at <= p < at + n implies payload[p] == ds[i].data@[p - at] by {
            assert(carries(ds[i], p));
            assert forall|j: int| i < j < k implies !carries(#[trigger] ds[j], p) by {
                sent_grows(ds, i, j);
            }
        }
        assert(payload.subrange(at, at + n) =~= ds[i].data@);
    }
}

proof fn sent_grows(ds: Seq<ScsiDataOut>, i: int, j: int)
    requires
        0 <= i < j,
    ensures
        sent_by(ds, i) + ds[i].data@.len() <= sent_by(ds, j),
    decreases j,
{
    if i < j - 1 {
        sent_grows(ds, i, j - 1);
    }
}

/// A write that brings all its data with the command is executed at once, with
/// that data; one that brings more than it announces is rejected.
pub proof fn immediate_write_executes_at_once<M: BackingStore, O: OverlayStore>(
    c0: Connection,
    r0: &TargetRegistry<M, O>,
    cmd: ScsiCommand,
    bhs: Seq<u8>,
    c1: Connection,
    r1: &TargetRegistry<M, O>,
    out: Seq<Outbound>,
)
    requires
        c0.stage == Stage::FullFeature,
        c0.target is Some,
        c0.handles(r0, Request::ScsiCommand(cmd), bhs, c1, r1, out),
        cmd.write,
        cmd.data@.len() >= cmd.edtl,
    ensures
        out.len() == 1,
        c1.in_flight@ == c0.in_flight@,
        cmd.data@.len() > cmd.edtl ==> *r1 == *r0 && out[0] is Reject && out[0]->Reject_0.reason
            == 0x04,
        cmd.data@.len() == cmd.edtl ==> exists|o: scsi::OutcomeView| #[trigger]
            r1.executed(r0, c0.target->0, cmd.lun, cmd.cdb@, cmd.data@, o) && (
            out[0] matches Outbound::ScsiResp(p) && p.status == o.status && p.itt == cmd.itt
                && p.sense@ == o.sense && p.residual == 0),
{
}

/// A write in flight is left alone by every request but its own: a Data-Out
/// under its tag, or another write command under it.
pub proof fn other_requests_leave_a_write_alone<M: BackingStore, O: OverlayStore>(
    c0: Connection,
    r0: &TargetRegistry<M, O>,
    req: Request,
    bhs: Seq<u8>,
    c1: Connection,
    r1: &TargetRegistry<M, O>,
    out: Seq<Outbound>,
    itt: u32,
)
    requires
        c0.handles(r0, req, bhs, c1, r1, out),
        !(req matches Request::DataOut(d) && d.itt == itt),
        !(req matches Request::ScsiCommand(cmd) && cmd.write && cmd.itt == itt),
    ensures
        c1.in_flight@.contains_key(itt) == c0.in_flight@.contains_key(itt),
        c0.in_flight@.contains_key(itt) ==> c1.in_flight@[itt] == c0.in_flight@[itt],
{
}

/// Data-Outs that belong to no write, or run past the end of theirs, are
/// rejected and execute nothing; the latter drop the write.
pub proof fn stray_data_is_rejected<M: BackingStore, O: OverlayStore>(
    c0: Connection,
    r0: &TargetRegistry<M, O>,
    d: ScsiDataOut,
    bhs: Seq<u8>,
    c1: Connection,
    r1: &TargetRegistry<M, O>,
    out: Seq<Outbound>,
)
    requires
        c0.wf(),
        c0.stage == Stage::FullFeature,
        c0.handles(r0, Request::DataOut(d), bhs, c1, r1, out),
        !c0.in_flight@.contains_key(d.itt) || d.buffer_offset + d.data@.len()
            > c0.in_flight@[d.itt].cmd.edtl,
    ensures
        *r1 == *r0,
        out.len() == 1,
        out[0] is Reject,
        out[0]->Reject_0.reason == 0x04,
        !c1.in_flight@.contains_key(d.itt),
        c1.stage == Stage::FullFeature,
{
}

/// What a session reads back of a write that it sent in pieces: the read is
/// answered by Data-Ins that carry the immediate data and the Data-Outs, as
/// they were gathered.
pub proof fn session_reads_what_it_gathered<M: BackingStore, O: OverlayStore>(
    cs: Seq<Connection>,
    rs: Seq<TargetRegistry<M, O>>,
    cmd: ScsiCommand,
    ds: Seq<ScsiDataOut>,
    headers: Seq<Seq<u8>>,
    outs: Seq<Seq<Outbound>>,
    read: ScsiCommand,
    bhs: Seq<u8>,
    c: Connection,
    r: &TargetRegistry<M, O>,
    out: Seq<Outbound>,
    n: int,
    lba: int,
    blocks: int,
)
    requires
        rs[0].wf(),
        rs.last().wf(),
        cs[0].bound(&rs[0]),
        is_exchange(cs, rs, cmd, ds, headers, outs),
        ds.len() > 0,
        cmd.data@.len() + sent_by(ds, ds.len() as int) >= cmd.edtl,
        scsi::laws::addresses(&rs[0].slots@[cs[0].target->0 as int]->0.target, cmd.lun, n),
        scsi::laws::is_write(cmd.cdb@, lba, blocks),
        blocks > 0,
        outs.last()[0] matches Outbound::ScsiResp(p) && p.status == 0,
        read.read,
        !read.write,
        read.lun == cmd.lun,
        read.data@.len() == 0,
        scsi::laws::is_read(read.cdb@, lba, blocks),
        cs.last().handles(&rs.last(), Request::ScsiCommand(read), bhs, c, r, out),
    ensures
        is_gathered(
            super::laws::carried(out, out.len() as int),
            cmd,
            ds,
            ds.len() as int,
        ),
{
    let (payload, o) = write_executes_what_was_sent(cs, rs, cmd, ds, headers, outs);
    let m = ds.len() as int;
    if m > 1 {
        let e = ds[m - 2];
    }
    gathered_so_far(cs, rs, cmd, ds, headers, outs, m - 1);
    let last = ds[m - 1];
    let c1 = cs.last();
    let r1 = rs.last();
    assert(c1.stage == Stage::FullFeature);
    assert(c1.target == cs[0].target);
    let id = cs[0].target->0;
    let counted = Connection { exp_cmd_sn: c1.exp_cmd_sn.wrapping_add(1), ..c1 };
    assert(c1.runs_command(&r1, read, bhs, c, r, out));
    let ro = choose|o: scsi::OutcomeView| #[trigger]
        r.executed(&r1, id, read.lun, read.cdb@, read.data@, o) && counted.answers(read, o, c, out);
    let t0 = rs[0].slots@[id as int]->0.target;
    let t1 = r1.slots@[id as int]->0.target;
    let t2 = r.slots@[id as int]->0.target;
    assert(t0.wf() && t1.wf());
    assert(read.data@ =~= Seq::empty());
    scsi::laws::read_returns_what_write_stored(
        &t0,
        &t1,
        &t2,
        cmd.lun,
        n,
        cmd.cdb@,
        payload,
        o,
        read.cdb@,
        ro,
        lba,
        blocks,
    );
    assert(cmd.edtl > 0);
    super::laws::data_ins_reassemble(counted, out, read.lun, read.itt, payload);
}

} // verus!
