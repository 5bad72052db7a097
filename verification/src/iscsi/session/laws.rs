//! What holds of every session.
use vstd::prelude::*;
use super::{Connection, Outbound, Stage};
use crate::iscsi::registry::TargetRegistry;
use crate::iscsi::scsi;
use crate::iscsi::{Request, ScsiCommand};
use crate::storage::BackingStore;
use crate::volume::OverlayStore;

verus! {

/// The bytes that the Data-In PDUs among the first `k` carry, in order.
pub open spec fn carried(out: Seq<Outbound>, k: int) -> Seq<u8>
    decreases k,
{
    if k <= 0 {
        Seq::empty()
    } else {
        carried(out, k - 1) + match out[k - 1] {
            Outbound::DataIn(p) => p.data@,
            _ => Seq::empty(),
        }
    }
}

proof fn carried_prefix(
    c: Connection,
    out: Seq<Outbound>,
    lun: u64,
    itt: u32,
    data: Seq<u8>,
    k: int,
)
    requires
        c.is_data_ins(out, lun, itt, data),
        0 <= k <= out.len(),
    ensures
        k < out.len() ==> k * c.segment_size() <= data.len(),
        k < out.len() ==> carried(out, k) == data.take(k * c.segment_size()),
        k == out.len() ==> carried(out, k) == data,
    decreases k,
{
    let seg = c.segment_size();
    assert(0 <= k * seg) by (nonlinear_arith)
        requires
            0 <= k,
            0 < seg,
    ;
    if k < out.len() {
        assert(k * seg <= (out.len() - 1) * seg) by (nonlinear_arith)
            requires
                k <= out.len() - 1,
                0 < seg,
        ;
    }
    if k == 0 {
        assert(0 * seg == 0);
        assert(out.len() * seg == 0 || out.len() > 0) by (nonlinear_arith)
            requires
                out.len() >= 0,
        ;
        if out.len() == 0 {
            assert((out.len() - 1) * seg < data.len() <= 0);
            assert(data =~= Seq::empty());
        }
        assert(carried(out, 0) =~= data.take(0));
    } else {
        carried_prefix(c, out, lun, itt, data, k - 1);
        assert((k - 1) * seg + seg == k * seg) by (nonlinear_arith);
        assert(c.is_data_in(out[k - 1], lun, itt, data, k - 1));
        let offset = (k - 1) * seg;
        if k < out.len() {
            assert(data.take(offset) + data.subrange(offset, offset + seg) =~= data.take(k * seg));
        } else {
            assert(data.take(offset) + data.subrange(offset, data.len() as int) =~= data);
        }
    }
}

/// Data-In PDUs put together in order give exactly the data they split.
pub proof fn data_ins_reassemble(
    c: Connection,
    out: Seq<Outbound>,
    lun: u64,
    itt: u32,
    data: Seq<u8>,
)
    requires
        c.is_data_ins(out, lun, itt, data),
    ensures
        carried(out, out.len() as int) == data,
{
    carried_prefix(c, out, lun, itt, data, out.len() as int);
}

/// What a session reads back of what it wrote: after a write of `payload` was
/// answered GOOD, a read command for the same bytes of the same LUN is
/// answered by Data-In PDUs that carry `payload`.
pub proof fn session_reads_what_it_wrote<M: BackingStore, O: OverlayStore>(
    c0: Connection,
    r0: &TargetRegistry<M, O>,
    write: ScsiCommand,
    payload: Seq<u8>,
    c1: Connection,
    r1: &TargetRegistry<M, O>,
    write_out: Seq<Outbound>,
    read: ScsiCommand,
    bhs: Seq<u8>,
    c2: Connection,
    r2: &TargetRegistry<M, O>,
    read_out: Seq<Outbound>,
)
    requires
        r0.wf(),
        r1.wf(),
        c0.target is Some,
        c0.bound(r0),
        c0.finishes_write(r0, write, payload, c1, r1, write_out),
        write_out[0]->ScsiResp_0.status == scsi::sense::GOOD,
        c1.runs_command(r1, read, bhs, c2, r2, read_out),
        read.read,
        !read.write,
        read.data@.len() == 0,
        read.lun == write.lun,
        ({
            let t = r0.slots@[c0.target->0 as int]->0.target;
            &&& t.selects(write.lun) is Some
            &&& ({
                let lu = t.luns@[t.selects(write.lun)->0]->0;
                let w = lu.step(write.cdb@, payload.len() as int);
                let r = lu.step(read.cdb@, 0);
                &&& w is Write
                &&& r is Read
                &&& w->Write_offset == r->Read_offset
                &&& r->len == payload.len()
            })
        }),
    ensures
        carried(read_out, read_out.len() as int) == payload,
{
    let id = c0.target->0;
    let wo = choose|o: scsi::OutcomeView| #[trigger]
        r1.executed(r0, id, write.lun, write.cdb@, payload, o) && c0.is_scsi_response(
            write_out[0],
            write.itt,
            o,
            0,
        );
    let counted = Connection { exp_cmd_sn: c1.exp_cmd_sn.wrapping_add(1), ..c1 };
    let ro = choose|o: scsi::OutcomeView| #[trigger]
        r2.executed(r1, id, read.lun, read.cdb@, read.data@, o) && counted.answers(
            read,
            o,
            c2,
            read_out,
        );
    let t0 = r0.slots@[id as int]->0.target;
    let t1 = r1.slots@[id as int]->0.target;
    let t2 = r2.slots@[id as int]->0.target;
    assert(read.data@ =~= Seq::empty());
    assert(t0.wf() && t1.wf());
    scsi::read_command_returns_written(
        &t0,
        &t1,
        &t2,
        write.lun,
        write.cdb@,
        payload,
        wo,
        read.cdb@,
        ro,
    );
    let lu = t0.luns@[t0.selects(write.lun)->0]->0;
    scsi::cdb::step_is_in_range(&lu, read.cdb@, 0);
    data_ins_reassemble(counted, read_out, read.lun, read.itt, payload);
}

/// Clients are isolated: whatever a request does, no target but the one that
/// its connection holds is touched.
pub proof fn other_targets_are_untouched<M: BackingStore, O: OverlayStore>(
    c0: Connection,
    r0: &TargetRegistry<M, O>,
    req: Request,
    bhs: Seq<u8>,
    c1: Connection,
    r1: &TargetRegistry<M, O>,
    out: Seq<Outbound>,
    other: usize,
)
    requires
        c0.wf(),
        r0.wf(),
        c0.bound(r0),
        c0.handles(r0, req, bhs, c1, r1, out),
        c1.target != Some(other),
        r0.present(other),
    ensures
        r1.present(other),
        r1.slots@[other as int] == r0.slots@[other as int],
{
}

/// Before the login completes no request reaches a disk: every target is as it
/// was.
pub proof fn disks_are_closed_before_login<M: BackingStore, O: OverlayStore>(
    c0: Connection,
    r0: &TargetRegistry<M, O>,
    req: Request,
    bhs: Seq<u8>,
    c1: Connection,
    r1: &TargetRegistry<M, O>,
    out: Seq<Outbound>,
    id: usize,
)
    requires
        r0.wf(),
        c0.stage != Stage::FullFeature,
        c0.handles(r0, req, bhs, c1, r1, out),
        r0.present(id),
    ensures
        r1.present(id),
        r1.slots@[id as int]->0.target == r0.slots@[id as int]->0.target,
{
}

/// Once a connection closes it stays closed, and every further request is
/// answered by one Reject.
pub proof fn closed_stays_closed<M: BackingStore, O: OverlayStore>(
    c0: Connection,
    r0: &TargetRegistry<M, O>,
    req: Request,
    bhs: Seq<u8>,
    c1: Connection,
    r1: &TargetRegistry<M, O>,
    out: Seq<Outbound>,
)
    requires
        c0.stage == Stage::Closing,
        c0.handles(r0, req, bhs, c1, r1, out),
    ensures
        c1.stage == Stage::Closing,
        *r1 == *r0,
        out.len() == 1,
        c0.is_reject(out[0], super::reject::PROTOCOL_ERROR, bhs),
{
}

/// In full-feature phase a request uses up at most one StatSN, and the phase
/// ends only by a logout.
pub proof fn full_feature_ends_by_logout<M: BackingStore, O: OverlayStore>(
    c0: Connection,
    r0: &TargetRegistry<M, O>,
    req: Request,
    bhs: Seq<u8>,
    c1: Connection,
    r1: &TargetRegistry<M, O>,
    out: Seq<Outbound>,
)
    requires
        c0.stage == Stage::FullFeature,
        c0.handles(r0, req, bhs, c1, r1, out),
    ensures
        c1.stat_sn == c0.stat_sn || c1.stat_sn == c0.stat_sn.wrapping_add(1),
        c1.stage == if req is Logout {
            Stage::Closing
        } else {
            Stage::FullFeature
        },
        c1.target == c0.target,
        c1.params == c0.params,
{
}

} // verus!
