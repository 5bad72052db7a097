//! Sessions that cannot be told apart: alike connections over alike registries
//! answer a request alike, and stay alike.
use vstd::prelude::*;
use super::login;
use super::{Connection, Outbound, PendingWrite, Stage};
use crate::iscsi::pdu;
use crate::iscsi::registry::TargetRegistry;
use crate::iscsi::scsi;
use crate::iscsi::scsi::{LogicalUnit, ScsiTarget};
use crate::iscsi::text;
use crate::iscsi::{LoginRequest, Request, ScsiCommand, ScsiDataOut};
use crate::storage::BackingStore;
use crate::volume::OverlayStore;

verus! {

/// Every byte of the unit's master can be read.
pub open spec fn dependable_unit<M: BackingStore, O: OverlayStore>(u: LogicalUnit<M, O>) -> bool {
    forall|i: int|
        0 <= i < u.volume.content().len() ==> #[trigger] u.volume.master_readable(i)
}

/// The units have the same identity and the same bytes.
pub open spec fn alike_units<M: BackingStore, O: OverlayStore>(
    u: LogicalUnit<M, O>,
    v: LogicalUnit<M, O>,
) -> bool {
    &&& u.block_size == v.block_size
    &&& u.vendor@ == v.vendor@
    &&& u.product@ == v.product@
    &&& u.revision@ == v.revision@
    &&& u.serial@ == v.serial@
    &&& u.removable == v.removable
    &&& u.volume.content() == v.volume.content()
}

pub open spec fn dependable_target<M: BackingStore, O: OverlayStore>(t: ScsiTarget<M, O>) -> bool {
    forall|i: int| 0 <= i < t.luns@.len() && t.luns@[i] is Some ==> dependable_unit(
        (#[trigger] t.luns@[i])->0,
    )
}

/// The targets have alike units under the same numbers.
pub open spec fn alike_targets<M: BackingStore, O: OverlayStore>(
    t: ScsiTarget<M, O>,
    u: ScsiTarget<M, O>,
) -> bool {
    &&& t.luns@.len() == u.luns@.len()
    &&& forall|i: int| 0 <= i < t.luns@.len() ==> (#[trigger] t.luns@[i] is Some) == (u.luns@[i] is Some)
    &&& forall|i: int| 0 <= i < t.luns@.len() && t.luns@[i] is Some ==> alike_units(
        (#[trigger] t.luns@[i])->0,
        u.luns@[i]->0,
    )
}

/// Every master of the registry can be read in full.
pub open spec fn dependable<M: BackingStore, O: OverlayStore>(r: &TargetRegistry<M, O>) -> bool {
    forall|k: int| 0 <= k < r.slots@.len() && r.slots@[k] is Some ==> dependable_target(
        (#[trigger] r.slots@[k])->0.target,
    )
}

/// The registries have alike targets in the same places, under the same names.
pub open spec fn alike_registries<M: BackingStore, O: OverlayStore>(
    r: &TargetRegistry<M, O>,
    q: &TargetRegistry<M, O>,
) -> bool {
    &&& r.names@.len() == q.names@.len()
    &&& forall|i: int| 0 <= i < r.names@.len() ==> (#[trigger] r.names@[i]).0@ == q.names@[i].0@
        && r.names@[i].1 == q.names@[i].1
    &&& r.slots@.len() == q.slots@.len()
    &&& forall|k: int| 0 <= k < r.slots@.len() ==> (#[trigger] r.slots@[k] is Some) == (
    q.slots@[k] is Some)
    &&& forall|k: int| 0 <= k < r.slots@.len() && r.slots@[k] is Some ==> {
        &&& (#[trigger] r.slots@[k])->0.holders == q.slots@[k]->0.holders
        &&& alike_targets(r.slots@[k]->0.target, q.slots@[k]->0.target)
    }
}

pub open spec fn alike_commands(a: ScsiCommand, b: ScsiCommand) -> bool {
    &&& a.final_ == b.final_
    &&& a.read == b.read
    &&& a.write == b.write
    &&& a.attr == b.attr
    &&& a.lun == b.lun
    &&& a.itt == b.itt
    &&& a.edtl == b.edtl
    &&& a.cmd_sn == b.cmd_sn
    &&& a.exp_stat_sn == b.exp_stat_sn
    &&& a.cdb@ == b.cdb@
    &&& a.data@ == b.data@
}

pub open spec fn alike_pending(p: PendingWrite, q: PendingWrite) -> bool {
    &&& alike_commands(p.cmd, q.cmd)
    &&& p.buf@ == q.buf@
    &&& p.received == q.received
    &&& p.r2t_sn == q.r2t_sn
}

/// The connections are at the same point, with alike writes in flight.
pub open spec fn alike_connections(c: Connection, d: Connection) -> bool {
    &&& c.stage == d.stage
    &&& c.params == d.params
    &&& c.target == d.target
    &&& c.stat_sn == d.stat_sn
    &&& c.exp_cmd_sn == d.exp_cmd_sn
    &&& c.in_flight@.dom() == d.in_flight@.dom()
    &&& forall|itt: u32| #[trigger]
        c.in_flight@.contains_key(itt) ==> alike_pending(c.in_flight@[itt], d.in_flight@[itt])
}

/// The PDUs are the same on the wire.
pub open spec fn same_wire(out: Seq<Outbound>, other: Seq<Outbound>) -> bool {
    &&& out.len() == other.len()
    &&& forall|i: int| 0 <= i < out.len() ==> (#[trigger] out[i]).bytes() == other[i].bytes()
}

proof fn units_answer_alike<M: BackingStore, O: OverlayStore>(
    u0: &LogicalUnit<M, O>,
    u1: &LogicalUnit<M, O>,
    v0: &LogicalUnit<M, O>,
    v1: &LogicalUnit<M, O>,
    cdb: Seq<u8>,
    payload: Seq<u8>,
    o: scsi::OutcomeView,
    p: scsi::OutcomeView,
)
    requires
        alike_units(*u0, *v0),
        dependable_unit(*u0),
        dependable_unit(*v0),
        u1.executed(u0, cdb, payload, o),
        v1.executed(v0, cdb, payload, p),
    ensures
        o == p,
        alike_units(*u1, *v1),
        dependable_unit(*u1),
        dependable_unit(*v1),
{
    let step = u0.step(cdb, payload.len() as int);
    assert(step == v0.step(cdb, payload.len() as int));
}

proof fn targets_answer_alike<M: BackingStore, O: OverlayStore>(
    t0: &ScsiTarget<M, O>,
    t1: &ScsiTarget<M, O>,
    u0: &ScsiTarget<M, O>,
    u1: &ScsiTarget<M, O>,
    lun: u64,
    cdb: Seq<u8>,
    payload: Seq<u8>,
    o: scsi::OutcomeView,
    p: scsi::OutcomeView,
)
    requires
        alike_targets(*t0, *u0),
        dependable_target(*t0),
        dependable_target(*u0),
        t1.executed(t0, lun, cdb, payload, o),
        u1.executed(u0, lun, cdb, payload, p),
    ensures
        o == p,
        alike_targets(*t1, *u1),
        dependable_target(*t1),
        dependable_target(*u1),
{
    assert(t0.selects(lun) == u0.selects(lun));
    reports_alike(t0.luns@, u0.luns@, t0.luns@.len() as int);
    if let Some(n) = t0.selects(lun) {
        if cdb[0] != scsi::op::REPORT_LUNS {
            units_answer_alike(
                &t0.luns@[n]->0,
                &t1.luns@[n]->0,
                &u0.luns@[n]->0,
                &u1.luns@[n]->0,
                cdb,
                payload,
                o,
                p,
            );
            assert forall|i: int| 0 <= i < t1.luns@.len() && t1.luns@[i] is Some implies alike_units(
                (#[trigger] t1.luns@[i])->0,
                u1.luns@[i]->0,
            ) && dependable_unit(t1.luns@[i]->0) by {
                if i != n {
                    assert(t1.luns@[i] == t0.luns@[i]);
                    assert(u1.luns@[i] == u0.luns@[i]);
                }
            }
            assert forall|i: int| 0 <= i < u1.luns@.len() && u1.luns@[i] is Some implies dependable_unit(
                (#[trigger] u1.luns@[i])->0,
            ) by {
                if i != n {
                    assert(u1.luns@[i] == u0.luns@[i]);
                }
            }
            assert forall|i: int| 0 <= i < t1.luns@.len() implies (#[trigger] t1.luns@[i] is Some)
                == (u1.luns@[i] is Some) by {
                if i != n {
                    assert(t1.luns@[i] == t0.luns@[i]);
                    assert(u1.luns@[i] == u0.luns@[i]);
                }
            }
        }
    }
}

proof fn reports_alike<M, O>(
    a: Seq<Option<LogicalUnit<M, O>>>,
    b: Seq<Option<LogicalUnit<M, O>>>,
    k: int,
)
    requires
        k <= a.len() == b.len(),
        forall|i: int| 0 <= i < a.len() ==> (#[trigger] a[i] is Some) == (b[i] is Some),
    ensures
        scsi::lun_entries(a, k) == scsi::lun_entries(b, k),
    decreases k,
{
    if k > 0 {
        reports_alike(a, b, k - 1);
        assert((a[k - 1] is Some) == (b[k - 1] is Some));
    }
}

proof fn registries_answer_alike<M: BackingStore, O: OverlayStore>(
    r0: &TargetRegistry<M, O>,
    r1: &TargetRegistry<M, O>,
    q0: &TargetRegistry<M, O>,
    q1: &TargetRegistry<M, O>,
    id: usize,
    lun: u64,
    cdb: Seq<u8>,
    payload: Seq<u8>,
    o: scsi::OutcomeView,
    p: scsi::OutcomeView,
)
    requires
        alike_registries(r0, q0),
        dependable(r0),
        dependable(q0),
        r0.present(id),
        r1.executed(r0, id, lun, cdb, payload, o),
        q1.executed(q0, id, lun, cdb, payload, p),
    ensures
        o == p,
        alike_registries(r1, q1),
        dependable(r1),
        dependable(q1),
{
    let k = id as int;
    targets_answer_alike(
        &r0.slots@[k]->0.target,
        &r1.slots@[k]->0.target,
        &q0.slots@[k]->0.target,
        &q1.slots@[k]->0.target,
        lun,
        cdb,
        payload,
        o,
        p,
    );
    alike_but_one(r0, r1, q0, q1, k);
}

/// Registries stay alike when one place of each changes, to alike targets.
proof fn alike_but_one<M: BackingStore, O: OverlayStore>(
    r0: &TargetRegistry<M, O>,
    r1: &TargetRegistry<M, O>,
    q0: &TargetRegistry<M, O>,
    q1: &TargetRegistry<M, O>,
    k: int,
)
    requires
        alike_registries(r0, q0),
        dependable(r0),
        dependable(q0),
        0 <= k < r0.slots@.len(),
        r1.names@ == r0.names@,
        q1.names@ == q0.names@,
        r1.slots@ == r0.slots@.update(k, r1.slots@[k]),
        q1.slots@ == q0.slots@.update(k, q1.slots@[k]),
        r1.slots@[k] is Some,
        q1.slots@[k] is Some,
        r1.slots@[k]->0.holders == q1.slots@[k]->0.holders,
        alike_targets(r1.slots@[k]->0.target, q1.slots@[k]->0.target),
        dependable_target(r1.slots@[k]->0.target),
        dependable_target(q1.slots@[k]->0.target),
    ensures
        alike_registries(r1, q1),
        dependable(r1),
        dependable(q1),
{
    assert forall|j: int| 0 <= j < r1.slots@.len() implies (#[trigger] r1.slots@[j] is Some) == (
    q1.slots@[j] is Some) by {
        if j != k {
            assert(r1.slots@[j] == r0.slots@[j]);
            assert(q1.slots@[j] == q0.slots@[j]);
        }
    }
    assert forall|j: int| 0 <= j < r1.slots@.len() && r1.slots@[j] is Some implies {
        &&& (#[trigger] r1.slots@[j])->0.holders == q1.slots@[j]->0.holders
        &&& alike_targets(r1.slots@[j]->0.target, q1.slots@[j]->0.target)
        &&& dependable_target(r1.slots@[j]->0.target)
    } by {
        if j != k {
            assert(r1.slots@[j] == r0.slots@[j]);
            assert(q1.slots@[j] == q0.slots@[j]);
        }
    }
    assert forall|j: int| 0 <= j < q1.slots@.len() && q1.slots@[j] is Some implies dependable_target(
        (#[trigger] q1.slots@[j])->0.target,
    ) by {
        if j != k {
            assert(q1.slots@[j] == q0.slots@[j]);
        }
    }
}

/// Two ways to carry the same data in segments of the same size take as many
/// PDUs.
proof fn same_count(n: int, m: int, seg: int, len: int)
    by (nonlinear_arith)
    requires
        0 < seg,
        (n - 1) * seg < len <= n * seg,
        (m - 1) * seg < len <= m * seg,
    ensures
        n == m,
{
}

proof fn data_ins_alike(
    c: Connection,
    d: Connection,
    out: Seq<Outbound>,
    other: Seq<Outbound>,
    lun: u64,
    itt: u32,
    data: Seq<u8>,
)
    requires
        alike_connections(c, d),
        c.is_data_ins(out, lun, itt, data),
        d.is_data_ins(other, lun, itt, data),
    ensures
        same_wire(out, other),
{
    same_count(out.len() as int, other.len() as int, c.segment_size(), data.len() as int);
    assert forall|k: int| 0 <= k < out.len() implies (#[trigger] out[k]).bytes()
        == other[k].bytes() by {
        assert(c.is_data_in(out[k], lun, itt, data, k));
        assert(d.is_data_in(other[k], lun, itt, data, k));
    }
}

proof fn writes_finish_alike<M: BackingStore, O: OverlayStore>(
    c0: Connection,
    r0: &TargetRegistry<M, O>,
    cmd: ScsiCommand,
    c1: Connection,
    r1: &TargetRegistry<M, O>,
    out: Seq<Outbound>,
    d0: Connection,
    q0: &TargetRegistry<M, O>,
    twin: ScsiCommand,
    d1: Connection,
    q1: &TargetRegistry<M, O>,
    other: Seq<Outbound>,
    payload: Seq<u8>,
)
    requires
        alike_connections(c0, d0),
        alike_registries(r0, q0),
        dependable(r0),
        dependable(q0),
        c0.target is Some,
        c0.bound(r0),
        alike_commands(cmd, twin),
        c0.finishes_write(r0, cmd, payload, c1, r1, out),
        d0.finishes_write(q0, twin, payload, d1, q1, other),
    ensures
        same_wire(out, other),
        alike_connections(c1, d1),
        alike_registries(r1, q1),
        dependable(r1),
        dependable(q1),
{
    let id = c0.target->0;
    let o = choose|o: scsi::OutcomeView| #[trigger]
        r1.executed(r0, id, cmd.lun, cmd.cdb@, payload, o) && c0.is_scsi_response(
            out[0],
            cmd.itt,
            o,
            0,
        );
    let p = choose|o: scsi::OutcomeView| #[trigger]
        q1.executed(q0, id, twin.lun, twin.cdb@, payload, o) && d0.is_scsi_response(
            other[0],
            twin.itt,
            o,
            0,
        );
    registries_answer_alike(r0, r1, q0, q1, id, cmd.lun, cmd.cdb@, payload, o, p);
}

proof fn writes_begin_alike<M: BackingStore, O: OverlayStore>(
    c0: Connection,
    r0: &TargetRegistry<M, O>,
    cmd: ScsiCommand,
    c1: Connection,
    r1: &TargetRegistry<M, O>,
    out: Seq<Outbound>,
    d0: Connection,
    q0: &TargetRegistry<M, O>,
    twin: ScsiCommand,
    d1: Connection,
    q1: &TargetRegistry<M, O>,
    other: Seq<Outbound>,
    bhs: Seq<u8>,
)
    requires
        alike_connections(c0, d0),
        alike_registries(r0, q0),
        dependable(r0),
        dependable(q0),
        c0.target is Some,
        c0.bound(r0),
        alike_commands(cmd, twin),
        c0.begins_write(r0, cmd, bhs, c1, r1, out),
        d0.begins_write(q0, twin, bhs, d1, q1, other),
    ensures
        same_wire(out, other),
        alike_connections(c1, d1),
        alike_registries(r1, q1),
        dependable(r1),
        dependable(q1),
{
    if cmd.data@.len() == cmd.edtl {
        writes_finish_alike(c0, r0, cmd, c1, r1, out, d0, q0, twin, d1, q1, other, cmd.data@);
    } else if cmd.data@.len() < cmd.edtl {
        assert(c1.in_flight@.dom() =~= d1.in_flight@.dom());
    }
}

proof fn commands_run_alike<M: BackingStore, O: OverlayStore>(
    c0: Connection,
    r0: &TargetRegistry<M, O>,
    cmd: ScsiCommand,
    c1: Connection,
    r1: &TargetRegistry<M, O>,
    out: Seq<Outbound>,
    d0: Connection,
    q0: &TargetRegistry<M, O>,
    twin: ScsiCommand,
    d1: Connection,
    q1: &TargetRegistry<M, O>,
    other: Seq<Outbound>,
    bhs: Seq<u8>,
)
    requires
        alike_connections(c0, d0),
        alike_registries(r0, q0),
        dependable(r0),
        dependable(q0),
        c0.target is Some,
        c0.bound(r0),
        alike_commands(cmd, twin),
        c0.runs_command(r0, cmd, bhs, c1, r1, out),
        d0.runs_command(q0, twin, bhs, d1, q1, other),
    ensures
        same_wire(out, other),
        alike_connections(c1, d1),
        alike_registries(r1, q1),
        dependable(r1),
        dependable(q1),
{
    let c = Connection { exp_cmd_sn: c0.exp_cmd_sn.wrapping_add(1), ..c0 };
    let d = Connection { exp_cmd_sn: d0.exp_cmd_sn.wrapping_add(1), ..d0 };
    if cmd.write {
        writes_begin_alike(c, r0, cmd, c1, r1, out, d, q0, twin, d1, q1, other, bhs);
    } else {
        let id = c0.target->0;
        let o = choose|o: scsi::OutcomeView| #[trigger]
            r1.executed(r0, id, cmd.lun, cmd.cdb@, cmd.data@, o) && c.answers(cmd, o, c1, out);
        let p = choose|o: scsi::OutcomeView| #[trigger]
            q1.executed(q0, id, twin.lun, twin.cdb@, twin.data@, o) && d.answers(
                twin,
                o,
                d1,
                other,
            );
        registries_answer_alike(r0, r1, q0, q1, id, cmd.lun, cmd.cdb@, cmd.data@, o, p);
        if cmd.read && o.status == scsi::sense::GOOD && o.data.len() > 0 {
            data_ins_alike(c, d, out, other, cmd.lun, cmd.itt, o.data);
        }
    }
}

proof fn data_is_taken_alike<M: BackingStore, O: OverlayStore>(
    c0: Connection,
    r0: &TargetRegistry<M, O>,
    data: ScsiDataOut,
    c1: Connection,
    r1: &TargetRegistry<M, O>,
    out: Seq<Outbound>,
    d0: Connection,
    q0: &TargetRegistry<M, O>,
    twin: ScsiDataOut,
    d1: Connection,
    q1: &TargetRegistry<M, O>,
    other: Seq<Outbound>,
    bhs: Seq<u8>,
)
    requires
        alike_connections(c0, d0),
        alike_registries(r0, q0),
        dependable(r0),
        dependable(q0),
        c0.wf(),
        c0.target is Some,
        c0.bound(r0),
        data.itt == twin.itt,
        data.buffer_offset == twin.buffer_offset,
        data.data@ == twin.data@,
        c0.takes_data(r0, data, bhs, c1, r1, out),
        d0.takes_data(q0, twin, bhs, d1, q1, other),
    ensures
        same_wire(out, other),
        alike_connections(c1, d1),
        alike_registries(r1, q1),
        dependable(r1),
        dependable(q1),
{
    if c0.in_flight@.contains_key(data.itt) {
        let p = c0.in_flight@[data.itt];
        let q = d0.in_flight@[data.itt];
        assert(d0.in_flight@.dom().contains(data.itt));
        assert(alike_pending(p, q));
        let filled = crate::wire::splice(p.buf@, data.buffer_offset as int, data.data@);
        if data.buffer_offset + data.data@.len() > p.buf@.len() {
            assert(c1.in_flight@.dom() =~= d1.in_flight@.dom());
        } else if p.received + data.data@.len() < p.cmd.edtl {
            assert(c1.in_flight@.dom() =~= d1.in_flight@.dom());
        } else {
            let c = choose|c: Connection| #[trigger]
                c0.without_pending(data.itt, c) && c.finishes_write(
                    r0,
                    p.cmd,
                    filled,
                    c1,
                    r1,
                    out,
                );
            let d = choose|c: Connection| #[trigger]
                d0.without_pending(data.itt, c) && c.finishes_write(
                    q0,
                    q.cmd,
                    filled,
                    d1,
                    q1,
                    other,
                );
            assert(c.in_flight@.dom() =~= d.in_flight@.dom());
            assert(alike_connections(c, d));
            writes_finish_alike(c, r0, p.cmd, c1, r1, out, d, q0, q.cmd, d1, q1, other, filled);
        }
    } else {
        assert(!d0.in_flight@.dom().contains(data.itt));
    }
}

/// Alike registries have the same names for the same places.
proof fn names_alike<M: BackingStore, O: OverlayStore>(
    r: &TargetRegistry<M, O>,
    q: &TargetRegistry<M, O>,
    iqn: Seq<char>,
)
    requires
        alike_registries(r, q),
        r.wf(),
    ensures
        r.registered(iqn) == q.registered(iqn),
        forall|id: usize, twin: usize|
            #![trigger r.named(iqn, id), q.named(iqn, twin)]
            r.named(iqn, id) && q.named(iqn, twin) ==> id == twin && r.present(id),
{
    if r.registered(iqn) {
        let i = choose|i: int| #![trigger r.names@[i]]
            0 <= i < r.names@.len() && r.names@[i].0@ == iqn;
        assert(q.names@[i].0@ == iqn);
    }
    if q.registered(iqn) {
        let i = choose|i: int| #![trigger q.names@[i]]
            0 <= i < q.names@.len() && q.names@[i].0@ == iqn;
        assert(r.names@[i].0@ == iqn);
    }
    assert forall|id: usize, twin: usize|
        #![trigger r.named(iqn, id), q.named(iqn, twin)]
        r.named(iqn, id) && q.named(iqn, twin) implies id == twin && r.present(id) by {
        let i = choose|i: int| #![trigger r.names@[i]]
            0 <= i < r.names@.len() && r.names@[i].0@ == iqn && r.names@[i].1 == id;
        let j = choose|j: int| #![trigger q.names@[j]]
            0 <= j < q.names@.len() && q.names@[j].0@ == iqn && q.names@[j].1 == twin;
        assert(r.names@[j].0@ == iqn);
        assert(i == j);
    }
}

proof fn logins_alike<M: BackingStore, O: OverlayStore>(
    c0: Connection,
    r0: &TargetRegistry<M, O>,
    req: LoginRequest,
    c1: Connection,
    r1: &TargetRegistry<M, O>,
    out: Seq<Outbound>,
    d0: Connection,
    q0: &TargetRegistry<M, O>,
    twin: LoginRequest,
    d1: Connection,
    q1: &TargetRegistry<M, O>,
    other: Seq<Outbound>,
    bhs: Seq<u8>,
    data: Seq<u8>,
)
    requires
        alike_connections(c0, d0),
        alike_registries(r0, q0),
        dependable(r0),
        dependable(q0),
        r0.wf(),
        pdu::is_login(req, bhs, data),
        pdu::is_login(twin, bhs, data),
        login::logs_in(c0, r0, req, c1, r1, out),
        login::logs_in(d0, q0, twin, d1, q1, other),
    ensures
        same_wire(out, other),
        alike_connections(c1, d1),
        alike_registries(r1, q1),
        dependable(r1),
        dependable(q1),
{
    if c0.target is None {
        if let Some(iqn) = login::first_value(text::pairs_view(req.text@), "TargetName"@) {
            names_alike(r0, q0, iqn);
            if r0.registered(iqn) {
                let id = c1.target->0;
                assert(r0.named(iqn, id));
                assert(q0.named(iqn, d1.target->0));
                alike_but_one(r0, r1, q0, q1, id as int);
            }
        }
    }
}

/// Alike sessions answer the same PDU with the same bytes, and stay alike,
/// whatever it is, as long as every master can be read.
pub proof fn sessions_answer_alike<M: BackingStore, O: OverlayStore>(
    c0: Connection,
    r0: &TargetRegistry<M, O>,
    req: Request,
    c1: Connection,
    r1: &TargetRegistry<M, O>,
    out: Seq<Outbound>,
    d0: Connection,
    q0: &TargetRegistry<M, O>,
    twin: Request,
    d1: Connection,
    q1: &TargetRegistry<M, O>,
    other: Seq<Outbound>,
    bhs: Seq<u8>,
    data: Seq<u8>,
)
    requires
        alike_connections(c0, d0),
        alike_registries(r0, q0),
        dependable(r0),
        dependable(q0),
        c0.wf(),
        r0.wf(),
        c0.bound(r0),
        pdu::is_request(req, bhs, data),
        pdu::is_request(twin, bhs, data),
        c0.handles(r0, req, bhs, c1, r1, out),
        d0.handles(q0, twin, bhs, d1, q1, other),
    ensures
        same_wire(out, other),
        alike_connections(c1, d1),
        alike_registries(r1, q1),
        dependable(r1),
        dependable(q1),
{
    if c0.stage == Stage::Login && req is Login {
        logins_alike(
            c0,
            r0,
            req->Login_0,
            c1,
            r1,
            out,
            d0,
            q0,
            twin->Login_0,
            d1,
            q1,
            other,
            bhs,
            data,
        );
    } else if c0.stage == Stage::FullFeature {
        match req {
            Request::ScsiCommand(cmd) => commands_run_alike(
                c0,
                r0,
                cmd,
                c1,
                r1,
                out,
                d0,
                q0,
                twin->ScsiCommand_0,
                d1,
                q1,
                other,
                bhs,
            ),
            Request::DataOut(d) => data_is_taken_alike(
                c0,
                r0,
                d,
                c1,
                r1,
                out,
                d0,
                q0,
                twin->DataOut_0,
                d1,
                q1,
                other,
                bhs,
            ),
            Request::Text(t) => {
                let asked = text::pairs_view(t.text@);
                assert(Connection::send_targets(r0, asked) =~= Connection::send_targets(q0, asked));
            },
            _ => {},
        }
    }
}

} // verus!
