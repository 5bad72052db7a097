//! What each request of a session is answered.
use vstd::prelude::*;
use super::login;
use super::params;
use super::params::SessionParams;
use super::{Connection, Outbound, Stage};
use crate::iscsi::registry::TargetRegistry;
use crate::iscsi::scsi;
use crate::iscsi::text;
use crate::iscsi::{LoginRequest, Request, ScsiCommand};
use crate::storage::BackingStore;
use crate::volume::OverlayStore;

verus! {

/// The bytes that the first `k` Data-Ins carry, counted.
pub open spec fn carried_len(out: Seq<Outbound>, k: int) -> int
    decreases k,
{
    if k <= 0 {
        0
    } else {
        carried_len(out, k - 1) + match out[k - 1] {
            Outbound::DataIn(p) => p.data@.len() as int,
            _ => 0,
        }
    }
}

/// `out` is a run of Data-Ins for the command with `lun` and `itt`: numbered from
/// 0, each with the offset that those before it come to, none longer than
/// `segment`, all but the last that long, and the last alone final and with the
/// status GOOD.
pub open spec fn is_data_run(
    out: Seq<Outbound>,
    lun: u64,
    itt: u32,
    segment: int,
    stat_sn: u32,
    exp_cmd_sn: u32,
) -> bool {
    &&& out.len() > 0
    &&& forall|k: int|
        #![trigger out[k]]
        0 <= k < out.len() ==> {
            &&& out[k] matches Outbound::DataIn(p)
            &&& p.lun == lun
            &&& p.itt == itt
            &&& p.ttt == 0xffff_ffff
            &&& p.stat_sn == stat_sn
            &&& p.exp_cmd_sn == exp_cmd_sn
            &&& p.max_cmd_sn == exp_cmd_sn.wrapping_add(16)
            &&& p.data_sn == k % 0x1_0000_0000
            &&& p.buffer_offset == carried_len(out, k) % 0x1_0000_0000
            &&& p.data@.len() <= segment
            &&& k < out.len() - 1 ==> p.data@.len() == segment
            &&& p.data@.len() > 0
            &&& p.final_ == (k == out.len() - 1)
            &&& p.has_status == (k == out.len() - 1)
            &&& p.status == 0
            &&& !p.ack
        }
}

proof fn data_run_lengths(c: Connection, out: Seq<Outbound>, lun: u64, itt: u32, data: Seq<u8>, k: int)
    requires
        c.is_data_ins(out, lun, itt, data),
        0 <= k < out.len(),
    ensures
        carried_len(out, k) == k * c.segment_size(),
        k * c.segment_size() < data.len(),
        k < out.len() - 1 <==> k * c.segment_size() + c.segment_size() < data.len(),
    decreases k,
{
    let seg = c.segment_size();
    assert(k * seg <= (out.len() - 1) * seg) by (nonlinear_arith)
        requires
            k <= out.len() - 1,
            0 < seg,
    ;
    assert(k * seg + seg == (k + 1) * seg) by (nonlinear_arith);
    if k < out.len() - 1 {
        assert((k + 1) * seg <= (out.len() - 1) * seg) by (nonlinear_arith)
            requires
                k + 1 <= out.len() - 1,
                0 < seg,
        ;
    }
    if k > 0 {
        data_run_lengths(c, out, lun, itt, data, k - 1);
        assert((k - 1) * seg + seg == k * seg) by (nonlinear_arith);
        assert(c.is_data_in(out[k - 1], lun, itt, data, k - 1));
    } else {
        assert(0 * seg == 0);
    }
}

/// A command that moves no data to the target is executed, once, on the unit
/// that the session holds. Data that a read asked for comes back in Data-Ins,
/// whole, cut by what the initiator accepts; anything else is answered by one
/// SCSI Response, with the status, the sense data, and how many of the expected
/// bytes were not moved.
pub proof fn command_is_executed_and_answered<M: BackingStore, O: OverlayStore>(
    c0: Connection,
    r0: &TargetRegistry<M, O>,
    cmd: ScsiCommand,
    bhs: Seq<u8>,
    c1: Connection,
    r1: &TargetRegistry<M, O>,
    out: Seq<Outbound>,
) -> (o: scsi::OutcomeView)
    requires
        c0.stage == Stage::FullFeature,
        c0.target is Some,
        !cmd.write,
        c0.handles(r0, Request::ScsiCommand(cmd), bhs, c1, r1, out),
    ensures
        r1.executed(r0, c0.target->0, cmd.lun, cmd.cdb@, cmd.data@, o),
        c1.stat_sn == c0.stat_sn.wrapping_add(1),
        c1.exp_cmd_sn == c0.exp_cmd_sn.wrapping_add(1),
        c1.in_flight == c0.in_flight,
        ({
            let expected = c0.exp_cmd_sn.wrapping_add(1);
            let accepts = c0.params.max_recv_data_segment_length as int;
            if cmd.read && o.status == 0 && o.data.len() > 0 {
                &&& is_data_run(
                    out,
                    cmd.lun,
                    cmd.itt,
                    if accepts < 512 {
                        512
                    } else {
                        accepts
                    },
                    c0.stat_sn,
                    expected,
                )
                &&& super::laws::carried(out, out.len() as int) == o.data
            } else {
                &&& out.len() == 1
                &&& out[0] matches Outbound::ScsiResp(p)
                &&& p.response == 0
                &&& p.status == o.status
                &&& p.itt == cmd.itt
                &&& p.stat_sn == c0.stat_sn
                &&& p.exp_cmd_sn == expected
                &&& p.max_cmd_sn == expected.wrapping_add(16)
                &&& p.sense@ == o.sense
                &&& o.data.len() <= cmd.edtl ==> p.residual == cmd.edtl - o.data.len()
                &&& cmd.edtl < o.data.len() < 0x1_0000_0000 ==> p.residual == 0
            }
        }),
{
    let counted = Connection { exp_cmd_sn: c0.exp_cmd_sn.wrapping_add(1), ..c0 };
    let o = choose|o: scsi::OutcomeView| #[trigger]
        r1.executed(r0, c0.target->0, cmd.lun, cmd.cdb@, cmd.data@, o) && counted.answers(
            cmd,
            o,
            c1,
            out,
        );
    if cmd.read && o.status == 0 && o.data.len() > 0 {
        super::laws::data_ins_reassemble(counted, out, cmd.lun, cmd.itt, o.data);
        let seg = counted.segment_size();
        assert(out.len() > 0) by {
            if out.len() == 0 {
                assert(0 * seg == 0);
            }
        }
        assert forall|k: int|
            #![trigger out[k]]
            0 <= k < out.len() implies {
            &&& out[k] matches Outbound::DataIn(p)
            &&& p.lun == cmd.lun
            &&& p.itt == cmd.itt
            &&& p.ttt == 0xffff_ffff
            &&& p.stat_sn == c0.stat_sn
            &&& p.exp_cmd_sn == counted.exp_cmd_sn
            &&& p.max_cmd_sn == counted.exp_cmd_sn.wrapping_add(16)
            &&& p.data_sn == k % 0x1_0000_0000
            &&& p.buffer_offset == carried_len(out, k) % 0x1_0000_0000
            &&& p.data@.len() <= seg
            &&& k < out.len() - 1 ==> p.data@.len() == seg
            &&& p.data@.len() > 0
            &&& p.final_ == (k == out.len() - 1)
            &&& p.has_status == (k == out.len() - 1)
            &&& p.status == 0
            &&& !p.ack
        } by {
            assert(counted.is_data_in(out[k], cmd.lun, cmd.itt, o.data, k));
            data_run_lengths(counted, out, cmd.lun, cmd.itt, o.data, k);
            assert(0 <= k * seg) by (nonlinear_arith)
                requires
                    0 <= k,
                    0 < seg,
            ;
        }
    }
    o
}

/// `out` is one Reject with `reason`, that echoes the header.
pub open spec fn is_rejection(c: Connection, out: Seq<Outbound>, reason: u8, bhs: Seq<u8>) -> bool {
    &&& out.len() == 1
    &&& out[0] matches Outbound::Reject(r)
    &&& r.reason == reason
    &&& r.stat_sn == c.stat_sn
    &&& r.exp_cmd_sn == c.exp_cmd_sn
    &&& r.max_cmd_sn == c.exp_cmd_sn.wrapping_add(16)
    &&& r.header@ == bhs
}

/// What the other requests of a session in full-feature phase are answered: a
/// ping its data, a Text Request the names it asked for, a task management
/// function that it is done, a logout that it is, and what has no place there a
/// Reject. None of them touches a disk, and only the logout ends the phase.
pub proof fn other_requests_are_answered<M: BackingStore, O: OverlayStore>(
    c0: Connection,
    r0: &TargetRegistry<M, O>,
    req: Request,
    bhs: Seq<u8>,
    c1: Connection,
    r1: &TargetRegistry<M, O>,
    out: Seq<Outbound>,
)
    requires
        bhs.len() == 48,
        c0.stage == Stage::FullFeature,
        c0.handles(r0, req, bhs, c1, r1, out),
        !(req is ScsiCommand),
        !(req is DataOut),
    ensures
        *r1 == *r0,
        out.len() == 1,
        c1.stage == if req is Logout { Stage::Closing } else { Stage::FullFeature },
        c1.stat_sn == if req is NopOut { c0.stat_sn } else { c0.stat_sn.wrapping_add(1) },
        c1.exp_cmd_sn == c0.exp_cmd_sn,
        c1.target == c0.target,
        c1.params == c0.params,
        ({
            let window = c0.exp_cmd_sn.wrapping_add(16);
            match req {
                Request::NopOut(n) => {
                    &&& out[0] matches Outbound::NopIn(p)
                    &&& p.data@ == n.data@
                    &&& p.itt == n.itt
                    &&& p.lun == n.lun
                    &&& p.ttt == 0xffff_ffff
                    &&& p.stat_sn == c0.stat_sn
                    &&& p.exp_cmd_sn == c0.exp_cmd_sn
                    &&& p.max_cmd_sn == window
                },
                Request::Text(t) => {
                    &&& out[0] matches Outbound::Text(p)
                    &&& p.itt == t.itt
                    &&& p.ttt == 0xffff_ffff
                    &&& p.final_
                    &&& !p.continue_
                    &&& p.stat_sn == c0.stat_sn
                    &&& p.exp_cmd_sn == c0.exp_cmd_sn
                    &&& p.max_cmd_sn == window
                    &&& if exists|i: int|
                        0 <= i < t.text@.len() && (#[trigger] t.text@[i]).0@ == "SendTargets"@ {
                        &&& p.text@.len() == r0.names@.len()
                        &&& forall|i: int|
                            0 <= i < p.text@.len() ==> (#[trigger] p.text@[i]).0@ == "TargetName"@
                                && p.text@[i].1@ == r0.names@[i].0@
                    } else {
                        p.text@.len() == 0
                    }
                },
                Request::TaskMgmt(t) => {
                    &&& out[0] matches Outbound::TaskMgmt(p)
                    &&& p.response == 0
                    &&& p.itt == t.itt
                    &&& p.stat_sn == c0.stat_sn
                    &&& p.exp_cmd_sn == c0.exp_cmd_sn
                    &&& p.max_cmd_sn == window
                },
                Request::Logout(_) => {
                    &&& out[0] matches Outbound::Logout(p)
                    &&& p.response == 0
                    &&& p.stat_sn == c0.stat_sn
                    &&& p.exp_cmd_sn == c0.exp_cmd_sn
                    &&& p.max_cmd_sn == window
                },
                Request::Login(_) => is_rejection(c0, out, 0x04, bhs),
                _ => is_rejection(c0, out, 0x05, bhs),
            }
        }),
{
    assert(super::echoed(bhs) =~= bhs);
    if let Request::Text(t) = req {
        let asked = text::pairs_view(t.text@);
        assert(asked.len() == t.text@.len());
        assert forall|i: int| 0 <= i < asked.len() implies (#[trigger] asked[i]).0
            == t.text@[i].0@ by {}
        if exists|i: int| 0 <= i < t.text@.len() && (#[trigger] t.text@[i]).0@ == "SendTargets"@ {
            let i = choose|i: int|
                0 <= i < t.text@.len() && (#[trigger] t.text@[i]).0@ == "SendTargets"@;
            assert(asked[i].0 == "SendTargets"@);
        }
        if exists|i: int| 0 <= i < asked.len() && (#[trigger] asked[i]).0 == "SendTargets"@ {
            let i = choose|i: int| 0 <= i < asked.len() && (#[trigger] asked[i]).0 == "SendTargets"@;
            assert(t.text@[i].0@ == "SendTargets"@);
        }
        if let Outbound::Text(p) = out[0] {
            let got = text::pairs_view(p.text@);
            assert(got.len() == p.text@.len());
            assert forall|i: int| 0 <= i < p.text@.len() implies got[i] == (
                (#[trigger] p.text@[i]).0@,
                p.text@[i].1@,
            ) by {}
        }
    }
}

/// Anything but a login request before the login is over, or anything at all
/// once the session closes, is rejected and closes it.
pub proof fn requests_out_of_place_close<M: BackingStore, O: OverlayStore>(
    c0: Connection,
    r0: &TargetRegistry<M, O>,
    req: Request,
    bhs: Seq<u8>,
    c1: Connection,
    r1: &TargetRegistry<M, O>,
    out: Seq<Outbound>,
)
    requires
        bhs.len() == 48,
        c0.handles(r0, req, bhs, c1, r1, out),
        c0.stage == Stage::Closing || c0.stage == Stage::Login && !(req is Login),
    ensures
        *r1 == *r0,
        c1.stage == Stage::Closing,
        is_rejection(c0, out, 0x04, bhs),
{
    assert(super::echoed(bhs) =~= bhs);
}

/// The first TargetName among `pairs` is `iqn`.
pub open spec fn names_target(pairs: Seq<(String, String)>, iqn: Seq<char>) -> bool {
    exists|i: int|
        #![trigger pairs[i]]
        0 <= i < pairs.len() && pairs[i].0@ == "TargetName"@ && pairs[i].1@ == iqn && (forall|
            j: int,
        |
            0 <= j < i ==> (#[trigger] pairs[j]).0@ != "TargetName"@)
}

/// No TargetName is among `pairs`.
pub open spec fn names_no_target(pairs: Seq<(String, String)>) -> bool {
    forall|j: int| 0 <= j < pairs.len() ==> (#[trigger] pairs[j]).0@ != "TargetName"@
}

proof fn first_value_is(pairs: Seq<(Seq<char>, Seq<char>)>, key: Seq<char>)
    ensures
        match login::first_value(pairs, key) {
            Some(v) => exists|i: int|
                #![trigger pairs[i]]
                0 <= i < pairs.len() && pairs[i].0 == key && pairs[i].1 == v && (forall|j: int|
                    0 <= j < i ==> (#[trigger] pairs[j]).0 != key),
            None => forall|j: int| 0 <= j < pairs.len() ==> (#[trigger] pairs[j]).0 != key,
        },
    decreases pairs.len(),
{
    if pairs.len() > 0 && pairs[0].0 != key {
        let rest = pairs.drop_first();
        first_value_is(rest, key);
        match login::first_value(rest, key) {
            Some(v) => {
                let i = choose|i: int|
                    #![trigger rest[i]]
                    0 <= i < rest.len() && rest[i].0 == key && rest[i].1 == v && (forall|j: int|
                        0 <= j < i ==> (#[trigger] rest[j]).0 != key);
                assert(pairs[i + 1].0 == key);
                assert forall|j: int| 0 <= j < i + 1 implies (#[trigger] pairs[j]).0 != key by {
                    if j > 0 {
                        assert(rest[j - 1].0 != key);
                    }
                }
            },
            None => {
                assert forall|j: int| 0 <= j < pairs.len() implies (#[trigger] pairs[j]).0 != key by {
                    if j > 0 {
                        assert(rest[j - 1].0 != key);
                    }
                }
            },
        }
    }
}

proof fn target_named(pairs: Seq<(String, String)>)
    ensures
        ({
            let first = login::first_value(text::pairs_view(pairs), "TargetName"@);
            &&& names_no_target(pairs) ==> first is None
            &&& forall|iqn: Seq<char>| #[trigger]
                names_target(pairs, iqn) ==> first == Some(iqn)
        }),
{
    let view = text::pairs_view(pairs);
    let key = "TargetName"@;
    first_value_is(view, key);
    assert(view.len() == pairs.len());
    assert forall|i: int| 0 <= i < pairs.len() implies view[i] == (
        (#[trigger] pairs[i]).0@,
        pairs[i].1@,
    ) by {}
    if names_no_target(pairs) {
        if let Some(v) = login::first_value(view, key) {
            let i = choose|i: int|
                #![trigger view[i]]
                0 <= i < view.len() && view[i].0 == key && view[i].1 == v && (forall|j: int|
                    0 <= j < i ==> (#[trigger] view[j]).0 != key);
            assert(pairs[i].0@ == key);
        }
    }
    assert forall|iqn: Seq<char>| #[trigger] names_target(pairs, iqn) implies login::first_value(
        view,
        key,
    ) == Some(iqn) by {
        let i = choose|i: int|
            #![trigger pairs[i]]
            0 <= i < pairs.len() && pairs[i].0@ == key && pairs[i].1@ == iqn && (forall|j: int|
                0 <= j < i ==> (#[trigger] pairs[j]).0@ != key);
        assert(view[i].0 == key);
        match login::first_value(view, key) {
            Some(v) => {
                let k = choose|k: int|
                    #![trigger view[k]]
                    0 <= k < view.len() && view[k].0 == key && view[k].1 == v && (forall|j: int|
                        0 <= j < k ==> (#[trigger] view[j]).0 != key);
                assert(pairs[k].0@ == key);
                assert(i == k);
            },
            None => {},
        }
    }
}

/// `out` is one Login Response to `req`, with this status.
pub open spec fn is_login_answer(
    c: Connection,
    req: LoginRequest,
    out: Seq<Outbound>,
    class: u8,
    detail: u8,
) -> bool {
    let stat_sn = if c.stat_sn == 0 {
        req.exp_stat_sn
    } else {
        c.stat_sn
    };
    &&& out.len() == 1
    &&& out[0] matches Outbound::Login(p)
    &&& p.itt == req.itt
    &&& p.isid == req.isid
    &&& p.csg == req.csg
    &&& !p.continue_
    &&& p.version_max == 0
    &&& p.version_active == 0
    &&& p.stat_sn == stat_sn
    &&& p.exp_cmd_sn == req.cmd_sn
    &&& p.max_cmd_sn == req.cmd_sn.wrapping_add(16)
    &&& p.status_class == class
    &&& p.status_detail == detail
}

/// A login that names a target which is not registered, or that asks for full
/// feature without ever having named one, fails as "not found" and closes; no
/// target is held for it.
pub proof fn login_without_a_target_fails<M: BackingStore, O: OverlayStore>(
    c0: Connection,
    r0: &TargetRegistry<M, O>,
    req: LoginRequest,
    bhs: Seq<u8>,
    c1: Connection,
    r1: &TargetRegistry<M, O>,
    out: Seq<Outbound>,
    iqn: Seq<char>,
)
    requires
        c0.stage == Stage::Login,
        c0.target is None,
        c0.handles(r0, Request::Login(req), bhs, c1, r1, out),
        names_target(req.text@, iqn) && (forall|i: int|
            0 <= i < r0.names@.len() ==> (#[trigger] r0.names@[i]).0@ != iqn) || names_no_target(
            req.text@,
        ) && req.transit && req.nsg == 3,
    ensures
        is_login_answer(c0, req, out, 0x02, 0x03),
        out[0]->Login_0.text@.len() == 0,
        !out[0]->Login_0.transit,
        c1.stage == Stage::Closing,
        c1.target is None,
        r1.slots@ == r0.slots@,
        r1.names@ == r0.names@,
{
    target_named(req.text@);
    if let Outbound::Login(p) = out[0] {
        assert(text::pairs_view(p.text@).len() == p.text@.len());
    }
}

/// A login that names a registered target holds it from then on, and no other
/// target is touched.
pub proof fn login_holds_the_named_target<M: BackingStore, O: OverlayStore>(
    c0: Connection,
    r0: &TargetRegistry<M, O>,
    req: LoginRequest,
    bhs: Seq<u8>,
    c1: Connection,
    r1: &TargetRegistry<M, O>,
    out: Seq<Outbound>,
    k: int,
)
    requires
        r0.wf(),
        c0.stage == Stage::Login,
        c0.target is None,
        c0.handles(r0, Request::Login(req), bhs, c1, r1, out),
        0 <= k < r0.names@.len(),
        names_target(req.text@, r0.names@[k].0@),
    ensures
        ({
            let id = r0.names@[k].1;
            &&& c1.target == Some(id)
            &&& r1.names@ == r0.names@
            &&& r1.slots@.len() == r0.slots@.len()
            &&& r1.slots@[id as int] is Some
            &&& r1.slots@[id as int]->0.target == r0.slots@[id as int]->0.target
            &&& r1.slots@[id as int]->0.holders == if r0.slots@[id as int]->0.holders == u64::MAX {
                u64::MAX as int
            } else {
                r0.slots@[id as int]->0.holders + 1
            }
            &&& forall|j: int|
                0 <= j < r0.slots@.len() && j != id ==> #[trigger] r1.slots@[j] == r0.slots@[j]
        }),
        is_login_answer(c0, req, out, 0, 0),
{
    target_named(req.text@);
    let iqn = r0.names@[k].0@;
    assert(r0.registered(iqn));
    let id = c1.target->0;
    let i = choose|i: int|
        #![trigger r0.names@[i]]
        0 <= i < r0.names@.len() && r0.names@[i].0@ == iqn && r0.names@[i].1 == id;
    assert(i == k);
    assert(r0.present(r0.names@[k].1));
}

/// How far a login that does not fail goes: to full feature when that is asked
/// for, or when the operational phase is left with a target at hand; and what
/// it is told.
pub proof fn login_goes_on<M: BackingStore, O: OverlayStore>(
    c0: Connection,
    r0: &TargetRegistry<M, O>,
    req: LoginRequest,
    bhs: Seq<u8>,
    c1: Connection,
    r1: &TargetRegistry<M, O>,
    out: Seq<Outbound>,
)
    requires
        c0.stage == Stage::Login,
        c0.handles(r0, Request::Login(req), bhs, c1, r1, out),
        c1.stage != Stage::Closing,
    ensures
        is_login_answer(c0, req, out, 0, 0),
        c0.target is Some ==> c1.target == c0.target && *r1 == *r0,
        c1.exp_cmd_sn == req.cmd_sn,
        c1.stat_sn == out[0]->Login_0.stat_sn.wrapping_add(1),
        c1.in_flight == c0.in_flight,
        ({
            let p = out[0]->Login_0;
            let moves = req.transit && (req.nsg == 1 || req.nsg == 3);
            &&& p.transit == moves
            &&& p.nsg == req.nsg
            &&& p.tsih == if req.tsih == 0 { 1u16 } else { req.tsih }
            &&& c1.stage == if moves && (req.nsg == 3 || req.csg == 1 && c1.target is Some) {
                Stage::FullFeature
            } else {
                Stage::Login
            }
            &&& if req.csg == 1 || req.csg == 0 && req.nsg == 3 {
                &&& c1.params == params::negotiated_all(c0.params, text::pairs_view(req.text@))
                &&& p.text@.len() == 6
                &&& p.text@[0].0@ == "MaxBurstLength"@ && p.text@[0].1@ == crate::text::decimal(
                    c1.params.max_burst_length as nat,
                )
                &&& p.text@[1].0@ == "FirstBurstLength"@ && p.text@[1].1@ == crate::text::decimal(
                    c1.params.first_burst_length as nat,
                )
                &&& p.text@[2].0@ == "ImmediateData"@ && p.text@[2].1@ == (
                if c1.params.immediate_data {
                    "Yes"@
                } else {
                    "No"@
                })
                &&& p.text@[3].0@ == "InitialR2T"@ && p.text@[3].1@ == (if c1.params.initial_r2t {
                    "Yes"@
                } else {
                    "No"@
                })
                &&& p.text@[4].0@ == "HeaderDigest"@ && p.text@[4].1@ == "None"@
                &&& p.text@[5].0@ == "DataDigest"@ && p.text@[5].1@ == "None"@
            } else {
                c1.params == c0.params && p.text@.len() == 0
            }
        }),
{
    if let Outbound::Login(p) = out[0] {
        let view = text::pairs_view(p.text@);
        assert(view.len() == p.text@.len());
        assert forall|i: int| 0 <= i < p.text@.len() implies view[i] == (
            (#[trigger] p.text@[i]).0@,
            p.text@[i].1@,
        ) by {}
        if req.csg == 1 || req.csg == 0 && req.nsg == 3 {
            let d = login::declared(c1.params);
            assert(view == d);
            assert(view[0] == d[0] && view[1] == d[1] && view[2] == d[2] && view[3] == d[3]
                && view[4] == d[4] && view[5] == d[5]);
        }
    }
}

/// What one offer does: a size that the initiator declares to accept is taken, a
/// burst becomes the smaller of both sides', a flow key stays on only where both
/// say so, and everything else is ignored.
pub proof fn offers_are_folded_in(p: SessionParams, key: Seq<char>, value: Seq<char>, v: u32)
    ensures
        ({
            let q = params::negotiated(p, key, value);
            let says = value == crate::text::decimal(v as nat);
            &&& key == "MaxRecvDataSegmentLength"@ && says ==> q.max_recv_data_segment_length == v
            &&& key == "FirstBurstLength"@ && says ==> q.first_burst_length <= v
                && q.first_burst_length <= p.first_burst_length && (q.first_burst_length == v
                || q.first_burst_length == p.first_burst_length)
            &&& key == "MaxBurstLength"@ && says ==> q.max_burst_length <= v && q.max_burst_length
                <= p.max_burst_length && (q.max_burst_length == v || q.max_burst_length
                == p.max_burst_length)
            &&& key == "ImmediateData"@ && value == "Yes"@ ==> q.immediate_data == p.immediate_data
            &&& key == "ImmediateData"@ && value == "No"@ ==> !q.immediate_data
            &&& key == "InitialR2T"@ && value == "Yes"@ ==> q.initial_r2t == p.initial_r2t
            &&& key == "InitialR2T"@ && value == "No"@ ==> !q.initial_r2t
            &&& key != "MaxRecvDataSegmentLength"@ ==> q.max_recv_data_segment_length
                == p.max_recv_data_segment_length
            &&& key != "FirstBurstLength"@ ==> q.first_burst_length == p.first_burst_length
            &&& key != "MaxBurstLength"@ ==> q.max_burst_length == p.max_burst_length
            &&& key != "ImmediateData"@ ==> q.immediate_data == p.immediate_data
            &&& key != "InitialR2T"@ ==> q.initial_r2t == p.initial_r2t
        }),
{
    crate::text::decimal_round_trip(v as nat, u32::MAX as int);
    reveal_strlit("MaxRecvDataSegmentLength");
    reveal_strlit("FirstBurstLength");
    reveal_strlit("MaxBurstLength");
    reveal_strlit("ImmediateData");
    reveal_strlit("InitialR2T");
    reveal_strlit("Yes");
    reveal_strlit("No");
    assert("MaxRecvDataSegmentLength"@.len() == 24 && "FirstBurstLength"@.len() == 16
        && "MaxBurstLength"@.len() == 14 && "ImmediateData"@.len() == 13 && "InitialR2T"@.len()
        == 10);
    assert(crate::text::ascii_lower("Yes"@).len() == 3 && crate::text::ascii_lower("No"@).len()
        == 2);
}

/// Offers are folded in one after the other.
pub proof fn offers_are_folded_in_order(
    p: SessionParams,
    pairs: Seq<(Seq<char>, Seq<char>)>,
    key: Seq<char>,
    value: Seq<char>,
)
    ensures
        params::negotiated_all(p, Seq::empty()) == p,
        params::negotiated_all(p, pairs.push((key, value))) == params::negotiated(
            params::negotiated_all(p, pairs),
            key,
            value,
        ),
{
    assert(pairs.push((key, value)).drop_last() =~= pairs);
}

/// A session starts with what an initiator may count on that has not asked for
/// anything: 8 KiB in a PDU, bursts of 64 KiB unasked and 256 KiB asked for,
/// immediate data, and no other data before it is asked for.
pub proof fn session_starts_with_the_defaults()
    ensures
        ({
            let p = params::defaults();
            &&& p.max_recv_data_segment_length == 8192
            &&& p.first_burst_length == 65536
            &&& p.max_burst_length == 262144
            &&& p.immediate_data
            &&& p.initial_r2t
        }),
{
}

/// A connection that ends closes and gives up the target that it holds, once:
/// the target has one holder less, and goes with the last one if no name leads to
/// it. No other target is touched.
pub proof fn end_gives_the_target_up<M: BackingStore, O: OverlayStore>(
    c0: Connection,
    r0: &TargetRegistry<M, O>,
    c1: Connection,
    r1: &TargetRegistry<M, O>,
)
    requires
        c0.bound(r0),
        c0.ends(r0, c1, r1),
    ensures
        c1.stage == Stage::Closing,
        c1.target is None,
        r1.names@ == r0.names@,
        c0.target is None ==> *r1 == *r0,
        c0.target matches Some(id) ==> {
            let slot = r0.slots@[id as int]->0;
            &&& forall|k: int|
                0 <= k < r0.slots@.len() && k != id ==> #[trigger] r1.slots@[k] == r0.slots@[k]
            &&& slot.holders == 1 && !r0.reachable(id) ==> r1.slots@[id as int] is None
            &&& slot.holders == 1 && r0.reachable(id) ==> r1.slots@[id as int] is Some
                && r1.slots@[id as int]->0.holders == 0 && r1.slots@[id as int]->0.target
                == slot.target
            &&& 1 < slot.holders < u64::MAX ==> r1.slots@[id as int] is Some
                && r1.slots@[id as int]->0.holders == slot.holders - 1
                && r1.slots@[id as int]->0.target == slot.target
        },
{
}

} // verus!
