//! iSCSI session layer: sans-I/O connection state machine.
//!
//! `Connection::handle` consumes one decoded `Request` (plus its raw 48-byte BHS,
//! needed only to echo into a Reject) and returns the response PDUs to transmit.
//! No sockets, no async: the application does the I/O.
pub mod answers;
pub mod gather;
pub mod laws;
pub mod login;
pub mod params;
pub mod reject;
pub mod twins;

pub use params::SessionParams;

use std::collections::HashMap;
use vstd::prelude::*;
use crate::iscsi::pdu;
use crate::iscsi::registry::TargetRegistry;
use crate::iscsi::scsi;
use crate::iscsi::text;
use crate::iscsi::{
    LoginResponse, LogoutRequest, LogoutResponse, NopIn, NopOut, R2t, Reject, Request, ScsiCommand,
    ScsiDataIn, ScsiDataOut, ScsiResponse, TaskMgmt, TaskMgmtResponse, TextRequest, TextResponse,
    BHS_LEN,
};
use crate::storage::BackingStore;
use crate::volume::OverlayStore;
use crate::wire;

verus! {

broadcast use vstd::std_specs::hash::group_hash_axioms;

/// How many commands beyond ExpCmdSN we let the initiator queue.
pub const QUEUE_DEPTH: u32 = 16;

/// The tag that stands for no task.
pub const NO_TAG: u32 = 0xffff_ffff;

/// Session lifecycle stage.
#[derive(Debug, Clone, Copy, PartialEq, Eq, Structural)]
pub enum Stage {
    Login,
    FullFeature,
    Closing,
}

/// A target-to-initiator PDU the transport must encode and send.
#[derive(Debug)]
pub enum Outbound {
    Login(LoginResponse),
    ScsiResp(ScsiResponse),
    DataIn(ScsiDataIn),
    R2t(R2t),
    NopIn(NopIn),
    Text(TextResponse),
    Logout(LogoutResponse),
    TaskMgmt(TaskMgmtResponse),
    Reject(Reject),
}

impl Outbound {
    /// The PDU on the wire.
    pub open spec fn bytes(&self) -> Seq<u8> {
        match self {
            Outbound::Login(p) => pdu::framed(p.header(), p.segment()),
            Outbound::ScsiResp(p) => pdu::framed(p.header(), p.segment()),
            Outbound::DataIn(p) => pdu::framed(p.header(), p.segment()),
            Outbound::R2t(p) => pdu::framed(p.header(), p.segment()),
            Outbound::NopIn(p) => pdu::framed(p.header(), p.segment()),
            Outbound::Text(p) => pdu::framed(p.header(), p.segment()),
            Outbound::Logout(p) => pdu::framed(p.header(), p.segment()),
            Outbound::TaskMgmt(p) => pdu::framed(p.header(), p.segment()),
            Outbound::Reject(p) => pdu::framed(p.reject_header(), p.segment()),
        }
    }

    /// Serialize to wire bytes.
    pub fn encode(&self) -> (out: Vec<u8>)
        ensures
            out@ == self.bytes(),
    {
        match self {
            Outbound::Login(p) => p.encode(),
            Outbound::ScsiResp(p) => p.encode(),
            Outbound::DataIn(p) => p.encode(),
            Outbound::R2t(p) => p.encode(),
            Outbound::NopIn(p) => p.encode(),
            Outbound::Text(p) => p.encode(),
            Outbound::Logout(p) => p.encode(),
            Outbound::TaskMgmt(p) => p.encode(),
            Outbound::Reject(p) => p.encode(),
        }
    }
}

/// Write data being gathered for one command until EDTL bytes have arrived.
pub struct PendingWrite {
    pub cmd: ScsiCommand,
    pub buf: Vec<u8>,
    pub received: u32,
    pub r2t_sn: u32,
}

impl PendingWrite {
    /// The buffer has the expected length and is not full yet.
    pub open spec fn wf(&self, itt: u32) -> bool {
        &&& self.cmd.itt == itt
        &&& self.buf@.len() == self.cmd.edtl
        &&& self.received < self.cmd.edtl
    }
}

/// One iSCSI connection (= one session, single-connection).
pub struct Connection {
    pub stage: Stage,
    pub params: SessionParams,
    /// Place in the registry of the target this connection holds.
    pub target: Option<usize>,
    pub stat_sn: u32,
    pub exp_cmd_sn: u32,
    pub in_flight: HashMap<u32, PendingWrite>,
}

/// A header as a Reject echoes it: 48 bytes of it, zeros where it is shorter.
pub open spec fn echoed(bhs: Seq<u8>) -> Seq<u8> {
    Seq::new(BHS_LEN as nat, |i: int| if i < bhs.len() { bhs[i] } else { 0u8 })
}

impl Connection {
    /// A connection in full-feature phase has its target, and every write in
    /// flight waits for more data under its own tag.
    pub open spec fn wf(&self) -> bool {
        &&& self.stage == Stage::FullFeature ==> self.target is Some
        &&& forall|itt: u32| #[trigger]
            self.in_flight@.contains_key(itt) ==> self.in_flight@[itt].wf(itt)
    }

    /// The registry has the target that this connection holds.
    pub open spec fn bound<M: BackingStore, O: OverlayStore>(
        &self,
        registry: &TargetRegistry<M, O>,
    ) -> bool {
        self.target matches Some(id) ==> registry.held(id)
    }

    /// The last CmdSN that the initiator may use.
    pub open spec fn window(&self) -> u32 {
        self.exp_cmd_sn.wrapping_add(QUEUE_DEPTH)
    }

    /// This connection once a response that carries status was sent.
    pub open spec fn advanced(self) -> Connection {
        Connection { stat_sn: self.stat_sn.wrapping_add(1), ..self }
    }

    /// This connection once it closes.
    pub open spec fn closing(self) -> Connection {
        Connection { stage: Stage::Closing, ..self }
    }

    /// `o` is a Reject of the header `bhs`, sent by this connection.
    pub open spec fn is_reject(&self, o: Outbound, reason: u8, bhs: Seq<u8>) -> bool {
        &&& o matches Outbound::Reject(r)
        &&& r.reason == reason
        &&& r.stat_sn == self.stat_sn
        &&& r.exp_cmd_sn == self.exp_cmd_sn
        &&& r.max_cmd_sn == self.window()
        &&& r.header@ == echoed(bhs)
    }

    /// `o` answers the NOP-Out `n`: the ping data comes back, and no StatSN is
    /// used up.
    pub open spec fn is_nop_in(&self, o: Outbound, n: NopOut) -> bool {
        &&& o matches Outbound::NopIn(p)
        &&& p.lun == n.lun
        &&& p.itt == n.itt
        &&& p.ttt == NO_TAG
        &&& p.stat_sn == self.stat_sn
        &&& p.exp_cmd_sn == self.exp_cmd_sn
        &&& p.max_cmd_sn == self.window()
        &&& p.data@ == n.data@
    }

    /// `o` answers a Text Request with tag `itt` with the pairs `keys`.
    pub open spec fn is_text_response(
        &self,
        o: Outbound,
        itt: u32,
        keys: Seq<(Seq<char>, Seq<char>)>,
    ) -> bool {
        &&& o matches Outbound::Text(p)
        &&& p.final_
        &&& !p.continue_
        &&& p.itt == itt
        &&& p.ttt == NO_TAG
        &&& p.stat_sn == self.stat_sn
        &&& p.exp_cmd_sn == self.exp_cmd_sn
        &&& p.max_cmd_sn == self.window()
        &&& text::pairs_view(p.text@) == keys
    }

    /// `o` is a SCSI Response for the command with tag `itt`.
    pub open spec fn is_scsi_response(
        &self,
        o: Outbound,
        itt: u32,
        outcome: scsi::OutcomeView,
        residual: u32,
    ) -> bool {
        &&& o matches Outbound::ScsiResp(p)
        &&& p.response == 0
        &&& p.status == outcome.status
        &&& p.itt == itt
        &&& p.stat_sn == self.stat_sn
        &&& p.exp_cmd_sn == self.exp_cmd_sn
        &&& p.max_cmd_sn == self.window()
        &&& p.residual == residual
        &&& p.sense@ == outcome.sense
    }

    /// Most bytes that one Data-In of this connection carries.
    pub open spec fn segment_size(&self) -> int {
        if self.params.max_recv_data_segment_length < 512 {
            512
        } else {
            self.params.max_recv_data_segment_length as int
        }
    }

    /// `o` is the Data-In that carries the bytes of `data` from `offset` on, as
    /// number `k`: a full segment, or what is left, with the status on it.
    pub open spec fn is_data_in(
        &self,
        o: Outbound,
        lun: u64,
        itt: u32,
        data: Seq<u8>,
        k: int,
    ) -> bool {
        let offset = k * self.segment_size();
        let last = offset + self.segment_size() >= data.len();
        let end = if last {
            data.len() as int
        } else {
            offset + self.segment_size()
        };
        &&& o matches Outbound::DataIn(p)
        &&& p.final_ == last
        &&& !p.ack
        &&& p.has_status == last
        &&& p.status == scsi::sense::GOOD
        &&& p.lun == lun
        &&& p.itt == itt
        &&& p.ttt == NO_TAG
        &&& p.stat_sn == self.stat_sn
        &&& p.exp_cmd_sn == self.exp_cmd_sn
        &&& p.max_cmd_sn == self.window()
        &&& p.data_sn == (k % 0x1_0000_0000) as u32
        &&& p.buffer_offset == (offset % 0x1_0000_0000) as u32
        &&& p.data@ == data.subrange(offset, end)
    }

    /// `out` carries `data` in Data-In PDUs, in order and without gaps.
    pub open spec fn is_data_ins(
        &self,
        out: Seq<Outbound>,
        lun: u64,
        itt: u32,
        data: Seq<u8>,
    ) -> bool {
        &&& (out.len() - 1) * self.segment_size() < data.len() <= out.len() * self.segment_size()
        &&& forall|k: int| 0 <= k < out.len() ==> self.is_data_in(#[trigger] out[k], lun, itt, data, k)
    }

    /// `o` solicits the bytes of a pending write from `received` on.
    pub open spec fn is_r2t(&self, o: Outbound, p: PendingWrite) -> bool {
        &&& o matches Outbound::R2t(r)
        &&& r.lun == p.cmd.lun
        &&& r.itt == p.cmd.itt
        &&& r.ttt == p.cmd.itt
        &&& r.stat_sn == self.stat_sn
        &&& r.exp_cmd_sn == self.exp_cmd_sn
        &&& r.max_cmd_sn == self.window()
        &&& r.r2t_sn == p.r2t_sn
        &&& r.buffer_offset == p.received
        &&& r.desired_length == if p.cmd.edtl - p.received < self.params.max_burst_length {
            (p.cmd.edtl - p.received) as u32
        } else {
            self.params.max_burst_length
        }
    }

    /// How this connection answers a command that ended in `outcome`, `after`
    /// being the connection afterwards: read data in Data-In PDUs with the
    /// status on the last, everything else in a SCSI Response.
    pub open spec fn answers(
        self,
        cmd: ScsiCommand,
        outcome: scsi::OutcomeView,
        after: Connection,
        out: Seq<Outbound>,
    ) -> bool {
        &&& after == self.advanced()
        &&& if cmd.read && outcome.status == scsi::sense::GOOD && outcome.data.len() > 0 {
            self.is_data_ins(out, cmd.lun, cmd.itt, outcome.data)
        } else {
            let moved = outcome.data.len() as int % 0x1_0000_0000;
            &&& out.len() == 1
            &&& self.is_scsi_response(
                out[0],
                cmd.itt,
                outcome,
                if cmd.edtl < moved {
                    0
                } else {
                    (cmd.edtl - moved) as u32
                },
            )
        }
    }

    /// A gathered write is executed on the held target and answered.
    pub open spec fn finishes_write<M: BackingStore, O: OverlayStore>(
        self,
        r0: &TargetRegistry<M, O>,
        cmd: ScsiCommand,
        payload: Seq<u8>,
        after: Connection,
        r1: &TargetRegistry<M, O>,
        out: Seq<Outbound>,
    ) -> bool {
        &&& after == self.advanced()
        &&& out.len() == 1
        &&& exists|o: scsi::OutcomeView| #[trigger]
            r1.executed(r0, self.target->0, cmd.lun, cmd.cdb@, payload, o)
                && self.is_scsi_response(out[0], cmd.itt, o, 0)
    }

    /// `p` is in flight in `after`, which is otherwise like this connection.
    pub open spec fn with_pending(self, p: PendingWrite, after: Connection) -> bool {
        &&& after == (Connection { in_flight: after.in_flight, ..self })
        &&& after.in_flight@ == self.in_flight@.insert(p.cmd.itt, p)
    }

    /// The write with tag `itt` is no longer in flight in `after`, which is
    /// otherwise like this connection.
    pub open spec fn without_pending(self, itt: u32, after: Connection) -> bool {
        &&& after == (Connection { in_flight: after.in_flight, ..self })
        &&& after.in_flight@ == self.in_flight@.remove(itt)
    }

    /// A write starts: more immediate data than expected is a protocol error; a
    /// full buffer is executed; anything else waits for the data it solicits.
    pub open spec fn begins_write<M: BackingStore, O: OverlayStore>(
        self,
        r0: &TargetRegistry<M, O>,
        cmd: ScsiCommand,
        bhs: Seq<u8>,
        after: Connection,
        r1: &TargetRegistry<M, O>,
        out: Seq<Outbound>,
    ) -> bool {
        if cmd.data@.len() > cmd.edtl {
            &&& *r1 == *r0
            &&& after == self.advanced()
            &&& out.len() == 1
            &&& self.is_reject(out[0], reject::PROTOCOL_ERROR, bhs)
        } else if cmd.data@.len() == cmd.edtl {
            self.finishes_write(r0, cmd, cmd.data@, after, r1, out)
        } else {
            &&& *r1 == *r0
            &&& after.in_flight@.contains_key(cmd.itt)
            &&& ({
                let p = after.in_flight@[cmd.itt];
                &&& p.cmd == cmd
                &&& p.buf@ == cmd.data@ + wire::zeros(cmd.edtl - cmd.data@.len())
                &&& p.received == cmd.data@.len()
                &&& p.r2t_sn == 0
                &&& self.with_pending(p, after)
                &&& out.len() == 1
                &&& self.is_r2t(out[0], p)
            })
        }
    }

    /// A Data-Out arrives: for an unknown write, or past the end of its buffer,
    /// it is a protocol error, and the latter drops the write; otherwise its
    /// bytes are stored, and the write is executed once all have arrived.
    pub open spec fn takes_data<M: BackingStore, O: OverlayStore>(
        self,
        r0: &TargetRegistry<M, O>,
        d: ScsiDataOut,
        bhs: Seq<u8>,
        after: Connection,
        r1: &TargetRegistry<M, O>,
        out: Seq<Outbound>,
    ) -> bool {
        if !self.in_flight@.contains_key(d.itt) {
            &&& *r1 == *r0
            &&& after == self.advanced()
            &&& out.len() == 1
            &&& self.is_reject(out[0], reject::PROTOCOL_ERROR, bhs)
        } else {
            let p = self.in_flight@[d.itt];
            let filled = wire::splice(p.buf@, d.buffer_offset as int, d.data@);
            if d.buffer_offset + d.data@.len() > p.buf@.len() {
                &&& *r1 == *r0
                &&& self.advanced().without_pending(d.itt, after)
                &&& out.len() == 1
                &&& self.is_reject(out[0], reject::PROTOCOL_ERROR, bhs)
            } else if p.received + d.data@.len() < p.cmd.edtl {
                &&& *r1 == *r0
                &&& after.in_flight@.contains_key(d.itt)
                &&& ({
                    let q = after.in_flight@[d.itt];
                    &&& q.cmd == p.cmd
                    &&& q.buf@ == filled
                    &&& q.received == p.received + d.data@.len()
                    &&& q.r2t_sn == p.r2t_sn.wrapping_add(1)
                    &&& self.with_pending(q, after)
                    &&& out.len() == 1
                    &&& self.is_r2t(out[0], q)
                })
            } else {
                &&& exists|c: Connection| #[trigger]
                    self.without_pending(d.itt, c) && c.finishes_write(
                        r0,
                        p.cmd,
                        filled,
                        after,
                        r1,
                        out,
                    )
            }
        }
    }

    /// A SCSI command arrives: without a target it is a protocol error; a write
    /// starts gathering; anything else is executed and answered.
    pub open spec fn runs_command<M: BackingStore, O: OverlayStore>(
        self,
        r0: &TargetRegistry<M, O>,
        cmd: ScsiCommand,
        bhs: Seq<u8>,
        after: Connection,
        r1: &TargetRegistry<M, O>,
        out: Seq<Outbound>,
    ) -> bool {
        let counted = Connection { exp_cmd_sn: self.exp_cmd_sn.wrapping_add(1), ..self };
        if self.target is None {
            &&& *r1 == *r0
            &&& after == self.advanced()
            &&& out.len() == 1
            &&& self.is_reject(out[0], reject::PROTOCOL_ERROR, bhs)
        } else if cmd.write {
            counted.begins_write(r0, cmd, bhs, after, r1, out)
        } else {
            exists|o: scsi::OutcomeView| #[trigger]
                r1.executed(r0, self.target->0, cmd.lun, cmd.cdb@, cmd.data@, o)
                    && counted.answers(cmd, o, after, out)
        }
    }

    /// The pairs that answer a Text Request: every registered name, where
    /// SendTargets was asked.
    pub open spec fn send_targets<M: BackingStore, O: OverlayStore>(
        registry: &TargetRegistry<M, O>,
        asked: Seq<(Seq<char>, Seq<char>)>,
    ) -> Seq<(Seq<char>, Seq<char>)> {
        if exists|i: int| 0 <= i < asked.len() && (#[trigger] asked[i]).0 == "SendTargets"@ {
            Seq::new(
                registry.names@.len(),
                |i: int| ("TargetName"@, registry.names@[i].0@),
            )
        } else {
            Seq::empty()
        }
    }

    /// A request in full-feature phase and what it does.
    pub open spec fn serves<M: BackingStore, O: OverlayStore>(
        self,
        r0: &TargetRegistry<M, O>,
        req: Request,
        bhs: Seq<u8>,
        after: Connection,
        r1: &TargetRegistry<M, O>,
        out: Seq<Outbound>,
    ) -> bool {
        match req {
            Request::ScsiCommand(cmd) => self.runs_command(r0, cmd, bhs, after, r1, out),
            Request::DataOut(d) => self.takes_data(r0, d, bhs, after, r1, out),
            Request::NopOut(n) => {
                &&& *r1 == *r0
                &&& after == self
                &&& out.len() == 1
                &&& self.is_nop_in(out[0], n)
            },
            Request::Text(t) => {
                &&& *r1 == *r0
                &&& after == self.advanced()
                &&& out.len() == 1
                &&& self.is_text_response(
                    out[0],
                    t.itt,
                    Connection::send_targets(r0, text::pairs_view(t.text@)),
                )
            },
            Request::TaskMgmt(t) => {
                &&& *r1 == *r0
                &&& after == self.advanced()
                &&& out == seq![
                    Outbound::TaskMgmt(
                        TaskMgmtResponse {
                            response: 0,
                            itt: t.itt,
                            stat_sn: self.stat_sn,
                            exp_cmd_sn: self.exp_cmd_sn,
                            max_cmd_sn: self.window(),
                        },
                    ),
                ]
            },
            Request::Logout(_) => {
                &&& *r1 == *r0
                &&& after == self.advanced().closing()
                &&& out == seq![
                    Outbound::Logout(
                        LogoutResponse {
                            response: 0,
                            stat_sn: self.stat_sn,
                            exp_cmd_sn: self.exp_cmd_sn,
                            max_cmd_sn: self.window(),
                        },
                    ),
                ]
            },
            Request::Login(_) => {
                &&& *r1 == *r0
                &&& after == self.advanced()
                &&& out.len() == 1
                &&& self.is_reject(out[0], reject::PROTOCOL_ERROR, bhs)
            },
            Request::Unsupported { .. } => {
                &&& *r1 == *r0
                &&& after == self.advanced()
                &&& out.len() == 1
                &&& self.is_reject(out[0], reject::COMMAND_NOT_SUPPORTED, bhs)
            },
        }
    }

    /// A request and what it does, in whatever phase: login requests drive the
    /// login, full-feature requests are served, and anything out of place is
    /// rejected and closes the connection.
    pub open spec fn handles<M: BackingStore, O: OverlayStore>(
        self,
        r0: &TargetRegistry<M, O>,
        req: Request,
        bhs: Seq<u8>,
        after: Connection,
        r1: &TargetRegistry<M, O>,
        out: Seq<Outbound>,
    ) -> bool {
        if self.stage == Stage::Login && req is Login {
            login::logs_in(self, r0, req->Login_0, after, r1, out)
        } else if self.stage == Stage::FullFeature {
            self.serves(r0, req, bhs, after, r1, out)
        } else {
            &&& *r1 == *r0
            &&& after == self.closing().advanced()
            &&& out.len() == 1
            &&& self.is_reject(out[0], reject::PROTOCOL_ERROR, bhs)
        }
    }
}

/// A list of one PDU.
fn single(o: Outbound) -> (out: Vec<Outbound>)
    ensures
        out@ == seq![o],
{
    let mut out: Vec<Outbound> = Vec::new();
    out.push(o);
    assert(out@ =~= seq![o]);
    out
}

impl Connection {
    /// A connection that has not logged in.
    pub fn new() -> (c: Self)
        ensures
            c.wf(),
            c.stage == Stage::Login,
            c.params == params::defaults(),
            c.target is None,
            c.stat_sn == 0,
            c.exp_cmd_sn == 0,
            c.in_flight@ == Map::<u32, PendingWrite>::empty(),
    {
        Connection {
            stage: Stage::Login,
            params: SessionParams::default(),
            target: None,
            stat_sn: 0,
            exp_cmd_sn: 0,
            in_flight: HashMap::new(),
        }
    }

    pub fn stage(&self) -> (s: Stage)
        ensures
            s == self.stage,
    {
        self.stage
    }

    /// The command window we advertise: ExpCmdSN .. ExpCmdSN + QUEUE_DEPTH.
    pub fn max_cmd_sn(&self) -> (sn: u32)
        ensures
            sn == self.window(),
    {
        self.exp_cmd_sn.wrapping_add(QUEUE_DEPTH)
    }

    /// Return the current StatSN, then advance it (one per response-bearing PDU).
    pub fn next_stat_sn(&mut self) -> (sn: u32)
        ensures
            sn == old(self).stat_sn,
            *final(self) == old(self).advanced(),
    {
        let s: u32 = self.stat_sn;
        self.stat_sn = self.stat_sn.wrapping_add(1);
        s
    }

    /// Handle one decoded request. `bhs` is the raw 48-byte header, echoed into a
    /// Reject when needed. Returns the PDUs to transmit (possibly empty).
    pub fn handle<M: BackingStore, O: OverlayStore>(
        &mut self,
        req: Request,
        bhs: &[u8],
        registry: &mut TargetRegistry<M, O>,
    ) -> (out: Vec<Outbound>)
        requires
            old(self).wf(),
            old(registry).wf(),
            old(self).bound(old(registry)),
        ensures
            final(self).wf(),
            final(registry).wf(),
            final(self).bound(final(registry)),
            old(self).handles(old(registry), req, bhs@, *final(self), final(registry), out@),
    {
        match self.stage {
            Stage::Login => match req {
                Request::Login(lr) => login::handle_login(self, lr, registry),
                _ => {
                    self.stage = Stage::Closing;
                    single(self.reject(reject::PROTOCOL_ERROR, bhs))
                },
            },
            Stage::FullFeature => self.handle_full_feature(req, bhs, registry),
            // Nothing is in place once the connection closes: reject.
            Stage::Closing => single(self.reject(reject::PROTOCOL_ERROR, bhs)),
        }
    }

    /// Build a Reject echoing the offending header, advancing StatSN.
    fn reject(&mut self, reason: u8, bhs: &[u8]) -> (o: Outbound)
        ensures
            *final(self) == old(self).advanced(),
            old(self).is_reject(o, reason, bhs@),
    {
        let mut header: Vec<u8> = Vec::new();
        let mut i: usize = 0;
        while i < BHS_LEN
            invariant
                i <= BHS_LEN,
                header@.len() == i,
                forall|j: int| 0 <= j < i ==> header@[j] == echoed(bhs@)[j],
            decreases BHS_LEN - i,
        {
            if i < bhs.len() {
                header.push(bhs[i]);
            } else {
                header.push(0);
            }
            i += 1;
        }
        assert(header@ =~= echoed(bhs@));
        let stat_sn: u32 = self.next_stat_sn();
        Outbound::Reject(
            Reject {
                reason,
                stat_sn,
                exp_cmd_sn: self.exp_cmd_sn,
                max_cmd_sn: self.max_cmd_sn(),
                header,
            },
        )
    }

    fn handle_full_feature<M: BackingStore, O: OverlayStore>(
        &mut self,
        req: Request,
        bhs: &[u8],
        registry: &mut TargetRegistry<M, O>,
    ) -> (out: Vec<Outbound>)
        requires
            old(self).wf(),
            old(self).stage == Stage::FullFeature,
            old(registry).wf(),
            old(self).bound(old(registry)),
        ensures
            final(self).wf(),
            final(registry).wf(),
            final(self).bound(final(registry)),
            old(self).serves(old(registry), req, bhs@, *final(self), final(registry), out@),
    {
        match req {
            Request::ScsiCommand(cmd) => self.scsi_command(cmd, bhs, registry),
            Request::DataOut(d) => self.data_out(d, bhs, registry),
            Request::NopOut(n) => self.nop_in(n),
            Request::Text(t) => self.text_response(t, registry),
            Request::TaskMgmt(t) => self.task_mgmt(t),
            Request::Logout(l) => self.logout(l),
            Request::Login(_) => single(self.reject(reject::PROTOCOL_ERROR, bhs)),
            Request::Unsupported { .. } => single(
                self.reject(reject::COMMAND_NOT_SUPPORTED, bhs),
            ),
        }
    }

    fn nop_in(&mut self, n: NopOut) -> (out: Vec<Outbound>)
        ensures
            *final(self) == *old(self),
            out@.len() == 1,
            old(self).is_nop_in(out@[0], n),
    {
        single(
            Outbound::NopIn(
                NopIn {
                    lun: n.lun,
                    itt: n.itt,
                    ttt: NO_TAG,
                    stat_sn: self.stat_sn,  // Nop-In as a reply does not consume a StatSN
                    exp_cmd_sn: self.exp_cmd_sn,
                    max_cmd_sn: self.max_cmd_sn(),
                    data: n.data,
                },
            ),
        )
    }

    fn text_response<M: BackingStore, O: OverlayStore>(
        &mut self,
        t: TextRequest,
        registry: &TargetRegistry<M, O>,
    ) -> (out: Vec<Outbound>)
        ensures
            *final(self) == old(self).advanced(),
            out@.len() == 1,
            old(self).is_text_response(
                out@[0],
                t.itt,
                Connection::send_targets(registry, text::pairs_view(t.text@)),
            ),
    {
        let ghost asked = text::pairs_view(t.text@);
        let mut wanted = false;
        let mut i: usize = 0;
        while i < t.text.len()
            invariant
                i <= t.text@.len(),
                asked == text::pairs_view(t.text@),
                wanted == exists|j: int| 0 <= j < i && (#[trigger] asked[j]).0 == "SendTargets"@,
            decreases t.text@.len() - i,
        {
            let hit = crate::text::same_text(t.text[i].0.as_str(), "SendTargets");
            assert(hit == (asked[i as int].0 == "SendTargets"@));
            if hit {
                wanted = true;
            }
            i += 1;
        }
        let mut keys: Vec<(String, String)> = Vec::new();
        if wanted {
            let iqns = registry.iqns();
            let mut k: usize = 0;
            while k < iqns.len()
                invariant
                    k <= iqns@.len(),
                    iqns@.len() == registry.names@.len(),
                    forall|j: int| 0 <= j < iqns@.len() ==> (#[trigger] iqns@[j])@
                        == registry.names@[j].0@,
                    keys@.len() == k,
                    forall|j: int| 0 <= j < k ==> #[trigger] text::pairs_view(keys@)[j] == (
                        "TargetName"@,
                        registry.names@[j].0@,
                    ),
                decreases iqns@.len() - k,
            {
                let ghost before = keys@;
                keys.push((String::from_str("TargetName"), iqns[k].clone()));
                assert forall|j: int| 0 <= j < k + 1 implies #[trigger] text::pairs_view(keys@)[j]
                    == ("TargetName"@, registry.names@[j].0@) by {
                    if j < k {
                        assert(keys@[j] == before[j]);
                        assert(text::pairs_view(before)[j] == (
                            "TargetName"@,
                            registry.names@[j].0@,
                        ));
                    }
                }
                k += 1;
            }
        }
        assert(text::pairs_view(keys@) =~= Connection::send_targets(registry, asked));
        let stat_sn: u32 = self.next_stat_sn();
        single(
            Outbound::Text(
                TextResponse {
                    final_: true,
                    continue_: false,
                    itt: t.itt,
                    ttt: NO_TAG,
                    stat_sn,
                    exp_cmd_sn: self.exp_cmd_sn,
                    max_cmd_sn: self.max_cmd_sn(),
                    text: keys,
                },
            ),
        )
    }

    fn task_mgmt(&mut self, t: TaskMgmt) -> (out: Vec<Outbound>)
        ensures
            *final(self) == old(self).advanced(),
            out@ == seq![
                Outbound::TaskMgmt(
                    TaskMgmtResponse {
                        response: 0,
                        itt: t.itt,
                        stat_sn: old(self).stat_sn,
                        exp_cmd_sn: old(self).exp_cmd_sn,
                        max_cmd_sn: old(self).window(),
                    },
                ),
            ],
    {
        let stat_sn: u32 = self.next_stat_sn();
        single(
            Outbound::TaskMgmt(
                TaskMgmtResponse {
                    response: 0x00,  // function complete
                    itt: t.itt,
                    stat_sn,
                    exp_cmd_sn: self.exp_cmd_sn,
                    max_cmd_sn: self.max_cmd_sn(),
                },
            ),
        )
    }

    fn logout(&mut self, _l: LogoutRequest) -> (out: Vec<Outbound>)
        ensures
            *final(self) == old(self).advanced().closing(),
            out@ == seq![
                Outbound::Logout(
                    LogoutResponse {
                        response: 0,
                        stat_sn: old(self).stat_sn,
                        exp_cmd_sn: old(self).exp_cmd_sn,
                        max_cmd_sn: old(self).window(),
                    },
                ),
            ],
    {
        self.stage = Stage::Closing;
        let stat_sn: u32 = self.next_stat_sn();
        single(
            Outbound::Logout(
                LogoutResponse {
                    response: 0x00,  // connection or session closed successfully
                    stat_sn,
                    exp_cmd_sn: self.exp_cmd_sn,
                    max_cmd_sn: self.max_cmd_sn(),
                },
            ),
        )
    }

    /// Execute a SCSI command. READ data rides back in Data-In PDUs (status on the
    /// final one); WRITE data is gathered first; non-data commands return a SCSI
    /// Response.
    fn scsi_command<M: BackingStore, O: OverlayStore>(
        &mut self,
        cmd: ScsiCommand,
        bhs: &[u8],
        registry: &mut TargetRegistry<M, O>,
    ) -> (out: Vec<Outbound>)
        requires
            old(self).wf(),
            old(registry).wf(),
            old(self).bound(old(registry)),
        ensures
            final(self).wf(),
            final(registry).wf(),
            final(self).bound(final(registry)),
            old(self).runs_command(old(registry), cmd, bhs@, *final(self), final(registry), out@),
    {
        let target: usize = match self.target {
            Some(t) => t,
            None => {
                return single(self.reject(reject::PROTOCOL_ERROR, bhs));
            },
        };
        self.exp_cmd_sn = self.exp_cmd_sn.wrapping_add(1);

        // WRITE: gather data before executing.
        if cmd.write {
            return self.begin_write(cmd, bhs, registry);
        }
        let outcome = registry.execute(target, &cmd, cmd.data.as_slice());
        let ghost view = outcome@;
        assert(registry.executed(old(registry), target, cmd.lun, cmd.cdb@, cmd.data@, view));
        // READ that produced data -> chunked Data-In with status on the final PDU.
        if cmd.read && outcome.status == scsi::sense::GOOD && outcome.data.len() > 0 {
            return self.data_in_chunks(&cmd, outcome.data.as_slice());
        }
        // Everything else (TEST UNIT READY, INQUIRY, CHECK CONDITION, ...) -> SCSI Response.
        let moved: u32 = (outcome.data.len() as u64 % 0x1_0000_0000) as u32;
        let residual: u32 = cmd.edtl.saturating_sub(moved);
        let stat_sn: u32 = self.next_stat_sn();
        single(
            Outbound::ScsiResp(
                ScsiResponse {
                    response: 0x00,  // command completed at target
                    status: outcome.status,
                    itt: cmd.itt,
                    stat_sn,
                    exp_cmd_sn: self.exp_cmd_sn,
                    max_cmd_sn: self.max_cmd_sn(),
                    residual,
                    sense: outcome.sense,
                },
            ),
        )
    }

    /// Split read data into Data-In PDUs of at most MaxRecvDataSegmentLength bytes,
    /// status collapsed onto the final PDU.
    fn data_in_chunks(&mut self, cmd: &ScsiCommand, data: &[u8]) -> (out: Vec<Outbound>)
        requires
            data@.len() > 0,
        ensures
            *final(self) == old(self).advanced(),
            old(self).is_data_ins(out@, cmd.lun, cmd.itt, data@),
    {
        let seg: usize = if self.params.max_recv_data_segment_length < 512 {
            512
        } else {
            self.params.max_recv_data_segment_length as usize
        };
        let total: usize = data.len();
        let mut out: Vec<Outbound> = Vec::new();
        let mut offset: usize = 0;
        let mut data_sn: u32 = 0;
        let ghost mut k: int = 0;
        while total - offset > seg
            invariant
                *self == *old(self),
                seg == self.segment_size(),
                seg > 0,
                total == data@.len(),
                0 <= offset < total,
                k == out@.len(),
                offset == k * seg,
                data_sn == (k % 0x1_0000_0000) as u32,
                forall|j: int| 0 <= j < k ==> self.is_data_in(
                    #[trigger] out@[j],
                    cmd.lun,
                    cmd.itt,
                    data@,
                    j,
                ),
            decreases total - offset,
        {
            let end: usize = offset + seg;
            out.push(
                Outbound::DataIn(
                    ScsiDataIn {
                        final_: false,
                        ack: false,
                        has_status: false,
                        status: scsi::sense::GOOD,
                        lun: cmd.lun,
                        itt: cmd.itt,
                        ttt: NO_TAG,
                        stat_sn: self.stat_sn,
                        exp_cmd_sn: self.exp_cmd_sn,
                        max_cmd_sn: self.max_cmd_sn(),
                        data_sn,
                        buffer_offset: (offset as u64 % 0x1_0000_0000) as u32,
                        data: wire::sub_vec(data, offset, end),
                    },
                ),
            );
            proof {
                assert((k + 1) * seg == k * seg + seg) by (nonlinear_arith);
                assert(self.is_data_in(out@[k], cmd.lun, cmd.itt, data@, k));
                k = k + 1;
            }
            offset = end;
            data_sn = data_sn.wrapping_add(1);
        }
        out.push(
            Outbound::DataIn(
                ScsiDataIn {
                    final_: true,
                    ack: false,
                    has_status: true,
                    status: scsi::sense::GOOD,
                    lun: cmd.lun,
                    itt: cmd.itt,
                    ttt: NO_TAG,
                    stat_sn: self.stat_sn,
                    exp_cmd_sn: self.exp_cmd_sn,
                    max_cmd_sn: self.max_cmd_sn(),
                    data_sn,
                    buffer_offset: (offset as u64 % 0x1_0000_0000) as u32,
                    data: wire::sub_vec(data, offset, total),
                },
            ),
        );
        proof {
            assert((k + 1) * seg == k * seg + seg) by (nonlinear_arith);
            assert(self.is_data_in(out@[k], cmd.lun, cmd.itt, data@, k));
        }
        let _sn: u32 = self.next_stat_sn();
        out
    }

    /// The R2T that solicits the next bytes of a pending write.
    fn solicit(&self, p: &PendingWrite) -> (o: Outbound)
        requires
            p.received < p.cmd.edtl,
        ensures
            self.is_r2t(o, *p),
    {
        let left: u32 = p.cmd.edtl - p.received;
        let want: u32 = if left < self.params.max_burst_length {
            left
        } else {
            self.params.max_burst_length
        };
        Outbound::R2t(
            R2t {
                lun: p.cmd.lun,
                itt: p.cmd.itt,
                ttt: p.cmd.itt,  // reuse ITT as the transfer tag; unique per in-flight command
                stat_sn: self.stat_sn,  // R2T does not consume a StatSN
                exp_cmd_sn: self.exp_cmd_sn,
                max_cmd_sn: self.max_cmd_sn(),
                r2t_sn: p.r2t_sn,
                buffer_offset: p.received,
                desired_length: want,
            },
        )
    }

    /// Start a WRITE: stash any immediate/unsolicited data; if more is needed,
    /// solicit it with an R2T, else execute immediately.
    fn begin_write<M: BackingStore, O: OverlayStore>(
        &mut self,
        cmd: ScsiCommand,
        bhs: &[u8],
        registry: &mut TargetRegistry<M, O>,
    ) -> (out: Vec<Outbound>)
        requires
            old(self).wf(),
            old(self).target is Some,
            old(registry).wf(),
            old(self).bound(old(registry)),
        ensures
            final(self).wf(),
            final(registry).wf(),
            final(self).bound(final(registry)),
            old(self).begins_write(old(registry), cmd, bhs@, *final(self), final(registry), out@),
    {
        let edtl: u32 = cmd.edtl;
        let n: usize = cmd.data.len();
        if n as u64 > edtl as u64 {
            return single(self.reject(reject::PROTOCOL_ERROR, bhs));
        }
        if n as u64 == edtl as u64 {
            return self.finish_write(&cmd, cmd.data.as_slice(), registry);
        }
        let mut buf: Vec<u8> = wire::sub_vec(cmd.data.as_slice(), 0, n);
        wire::push_zeros(&mut buf, edtl as usize - n);
        assert(cmd.data@.subrange(0, n as int) =~= cmd.data@);
        let itt: u32 = cmd.itt;
        let pending = PendingWrite { cmd, buf, received: n as u32, r2t_sn: 0 };
        let r2t = self.solicit(&pending);
        self.in_flight.insert(itt, pending);
        single(r2t)
    }

    /// Append one Data-Out burst; when EDTL is satisfied, execute and respond.
    fn data_out<M: BackingStore, O: OverlayStore>(
        &mut self,
        d: ScsiDataOut,
        bhs: &[u8],
        registry: &mut TargetRegistry<M, O>,
    ) -> (out: Vec<Outbound>)
        requires
            old(self).wf(),
            old(self).target is Some,
            old(registry).wf(),
            old(self).bound(old(registry)),
        ensures
            final(self).wf(),
            final(registry).wf(),
            final(self).bound(final(registry)),
            old(self).takes_data(old(registry), d, bhs@, *final(self), final(registry), out@),
    {
        if !self.in_flight.contains_key(&d.itt) {
            return single(self.reject(reject::PROTOCOL_ERROR, bhs));
        }
        let mut p = match self.in_flight.remove(&d.itt) {
            Some(p) => p,
            None => {
                return Vec::new();
            },
        };
        let start: u64 = d.buffer_offset as u64;
        let n: u64 = d.data.len() as u64;
        if n > p.buf.len() as u64 || start > p.buf.len() as u64 - n {
            return single(self.reject(reject::PROTOCOL_ERROR, bhs));
        }
        wire::copy_into(p.buf.as_mut_slice(), d.buffer_offset as usize, d.data.as_slice());
        let edtl: u32 = p.cmd.edtl;
        if (p.received as u64) + n < edtl as u64 {
            // Solicit the next burst.
            p.received = p.received + n as u32;
            p.r2t_sn = p.r2t_sn.wrapping_add(1);
            let r2t = self.solicit(&p);
            self.in_flight.insert(d.itt, p);
            assert(self.in_flight@ =~= old(self).in_flight@.insert(d.itt, p));
            return single(r2t);
        }
        let ghost c = *self;
        assert(old(self).without_pending(d.itt, c));
        self.finish_write(&p.cmd, p.buf.as_slice(), registry)
    }

    /// Run the assembled write through the SCSI target and build the SCSI Response.
    fn finish_write<M: BackingStore, O: OverlayStore>(
        &mut self,
        cmd: &ScsiCommand,
        payload: &[u8],
        registry: &mut TargetRegistry<M, O>,
    ) -> (out: Vec<Outbound>)
        requires
            old(self).wf(),
            old(self).target is Some,
            old(registry).wf(),
            old(self).bound(old(registry)),
        ensures
            final(self).wf(),
            final(registry).wf(),
            final(self).bound(final(registry)),
            old(self).finishes_write(
                old(registry),
                *cmd,
                payload@,
                *final(self),
                final(registry),
                out@,
            ),
    {
        let target: usize = match self.target {
            Some(t) => t,
            None => {
                return Vec::new();
            },
        };
        let outcome = registry.execute(target, cmd, payload);
        assert(registry.executed(old(registry), target, cmd.lun, cmd.cdb@, payload@, outcome@));
        let stat_sn: u32 = self.next_stat_sn();
        single(
            Outbound::ScsiResp(
                ScsiResponse {
                    response: 0x00,
                    status: outcome.status,
                    itt: cmd.itt,
                    stat_sn,
                    exp_cmd_sn: self.exp_cmd_sn,
                    max_cmd_sn: self.max_cmd_sn(),
                    residual: 0,
                    sense: outcome.sense,
                },
            ),
        )
    }

    /// This connection ends: it closes and gives up the target that it holds.
    pub open spec fn ends<M: BackingStore, O: OverlayStore>(
        self,
        r0: &TargetRegistry<M, O>,
        after: Connection,
        r1: &TargetRegistry<M, O>,
    ) -> bool {
        &&& after == (Connection { target: None, ..self.closing() })
        &&& match self.target {
            Some(id) => r1.released(r0, id),
            None => *r1 == *r0,
        }
    }

    /// End the connection: give up the target it holds.
    pub fn close<M: BackingStore, O: OverlayStore>(&mut self, registry: &mut TargetRegistry<M, O>)
        requires
            old(self).wf(),
            old(registry).wf(),
            old(self).bound(old(registry)),
        ensures
            final(self).wf(),
            final(registry).wf(),
            old(self).ends(old(registry), *final(self), final(registry)),
    {
        self.stage = Stage::Closing;
        match self.target {
            Some(id) => {
                registry.release(id);
                self.target = None;
            },
            None => {},
        }
    }
}

} // verus!
