//! Login negotiation: resolve the target, fold operational keys, advance stage.
use vstd::prelude::*;
use super::params;
use super::{Connection, Outbound, Stage};
use crate::iscsi::registry;
use crate::iscsi::registry::TargetRegistry;
use crate::iscsi::text;
use crate::iscsi::{LoginRequest, LoginResponse};
use crate::storage::BackingStore;
use crate::text::{same_text, to_decimal};
use crate::volume::OverlayStore;

verus! {

/// Status class of a login that the initiator or target got wrong.
pub const CLASS_INITIATOR_ERROR: u8 = 0x02;

/// Status detail "not found".
pub const DETAIL_NOT_FOUND: u8 = 0x03;

/// The value of the first pair with `key`.
pub open spec fn first_value(
    pairs: Seq<(Seq<char>, Seq<char>)>,
    key: Seq<char>,
) -> Option<Seq<char>>
    decreases pairs.len(),
{
    if pairs.len() == 0 {
        None
    } else if pairs[0].0 == key {
        Some(pairs[0].1)
    } else {
        first_value(pairs.drop_first(), key)
    }
}

pub open spec fn yes_no_text(b: bool) -> Seq<char> {
    if b {
        "Yes"@
    } else {
        "No"@
    }
}

/// The keys a login response declares.
pub open spec fn declared(p: params::SessionParams) -> Seq<(Seq<char>, Seq<char>)> {
    seq![
        ("MaxBurstLength"@, crate::text::decimal(p.max_burst_length as nat)),
        ("FirstBurstLength"@, crate::text::decimal(p.first_burst_length as nat)),
        ("ImmediateData"@, yes_no_text(p.immediate_data)),
        ("InitialR2T"@, yes_no_text(p.initial_r2t)),
        ("HeaderDigest"@, "None"@),
        ("DataDigest"@, "None"@),
    ]
}

/// Operational keys are negotiated in the operational phase (CSG=1) and when
/// jumping from security straight to full feature (CSG=0, NSG=3).
pub open spec fn negotiates(req: LoginRequest) -> bool {
    req.csg == 1 || (req.csg == 0 && req.nsg == 3)
}

/// The initiator asks to move to the operational or full-feature phase.
pub open spec fn transits(req: LoginRequest) -> bool {
    req.transit && (req.nsg == 1 || req.nsg == 3)
}

/// The login is over: the move to full feature is asked for, or the
/// operational phase (CSG=1, NSG=1) is left with a target at hand.
pub open spec fn completes(req: LoginRequest, has_target: bool) -> bool {
    transits(req) && (req.nsg == 3 || (req.csg == 1 && has_target))
}

/// `o` is a Login Response of `c` to `req`.
pub open spec fn is_login_response(
    c: Connection,
    req: LoginRequest,
    o: Outbound,
    transit: bool,
    nsg: u8,
    tsih: u16,
    class: u8,
    detail: u8,
    keys: Seq<(Seq<char>, Seq<char>)>,
) -> bool {
    &&& o matches Outbound::Login(r)
    &&& r.transit == transit
    &&& !r.continue_
    &&& r.csg == req.csg
    &&& r.nsg == nsg
    &&& r.version_max == 0
    &&& r.version_active == 0
    &&& r.isid == req.isid
    &&& r.tsih == tsih
    &&& r.itt == req.itt
    &&& r.stat_sn == c.stat_sn
    &&& r.exp_cmd_sn == c.exp_cmd_sn
    &&& r.max_cmd_sn == c.window()
    &&& r.status_class == class
    &&& r.status_detail == detail
    &&& text::pairs_view(r.text@) == keys
}

/// A failed login: status class 0x02, "not found", and the connection closes.
pub open spec fn fails(
    c: Connection,
    req: LoginRequest,
    after: Connection,
    out: Seq<Outbound>,
) -> bool {
    &&& after == c.closing().advanced()
    &&& out.len() == 1
    &&& is_login_response(
        c,
        req,
        out[0],
        false,
        req.csg,
        req.tsih,
        CLASS_INITIATOR_ERROR,
        DETAIL_NOT_FOUND,
        Seq::empty(),
    )
}

/// A login step that succeeds, with the target already resolved in `c`.
pub open spec fn proceeds(
    c: Connection,
    req: LoginRequest,
    after: Connection,
    out: Seq<Outbound>,
) -> bool {
    let p = if negotiates(req) {
        params::negotiated_all(c.params, text::pairs_view(req.text@))
    } else {
        c.params
    };
    let moved = Connection {
        params: p,
        stage: if completes(req, c.target is Some) {
            Stage::FullFeature
        } else {
            c.stage
        },
        ..c
    };
    &&& after == moved.advanced()
    &&& out.len() == 1
    &&& is_login_response(
        c,
        req,
        out[0],
        transits(req),
        req.nsg,
        if req.tsih == 0 {
            1
        } else {
            req.tsih
        },
        0,
        0,
        if negotiates(req) {
            declared(p)
        } else {
            Seq::empty()
        },
    )
}

/// The connection with its sequence numbers taken from the login request.
pub open spec fn sequenced(c: Connection, req: LoginRequest) -> Connection {
    Connection {
        stat_sn: if c.stat_sn == 0 {
            req.exp_stat_sn
        } else {
            c.stat_sn
        },
        exp_cmd_sn: req.cmd_sn,
        ..c
    }
}

/// A login request and what it does. The first TargetName binds the target;
/// naming an unknown target, or asking for full feature without ever having
/// named one, fails the login.
pub open spec fn logs_in<M: BackingStore, O: OverlayStore>(
    before: Connection,
    r0: &TargetRegistry<M, O>,
    req: LoginRequest,
    after: Connection,
    r1: &TargetRegistry<M, O>,
    out: Seq<Outbound>,
) -> bool {
    let c = sequenced(before, req);
    if before.target is Some {
        *r1 == *r0 && proceeds(c, req, after, out)
    } else {
        match first_value(text::pairs_view(req.text@), "TargetName"@) {
            Some(iqn) => if r0.registered(iqn) {
                &&& after.target is Some
                &&& ({
                    let id = after.target->0;
                    &&& r0.named(iqn, id)
                    &&& r1.names@ == r0.names@
                    &&& r1.slots@ == r0.slots@.update(
                        id as int,
                        Some(
                            registry::TargetSlot {
                                target: r0.slots@[id as int]->0.target,
                                holders: registry::held_once_more(
                                    r0.slots@[id as int]->0.holders,
                                ),
                            },
                        ),
                    )
                    &&& proceeds(Connection { target: Some(id), ..c }, req, after, out)
                })
            } else {
                r1.slots@ == r0.slots@ && r1.names@ == r0.names@ && fails(c, req, after, out)
            },
            None => if req.transit && req.nsg == 3 {
                *r1 == *r0 && fails(c, req, after, out)
            } else {
                *r1 == *r0 && proceeds(c, req, after, out)
            },
        }
    }
}

/// Handle a LoginRequest in the Login stage. Resolves TargetName, negotiates the
/// operational keys we care about, and (when the initiator sets transit to
/// FullFeature) moves the connection to FullFeature. On a missing/unknown
/// target, fails the login with status-class 0x02 and marks the connection
/// Closing.
pub fn handle_login<M: BackingStore, O: OverlayStore>(
    conn: &mut Connection,
    req: LoginRequest,
    registry: &mut TargetRegistry<M, O>,
) -> (out: Vec<Outbound>)
    requires
        old(conn).wf(),
        old(conn).stage == Stage::Login,
        old(registry).wf(),
        old(conn).bound(old(registry)),
    ensures
        final(conn).wf(),
        final(registry).wf(),
        final(conn).bound(final(registry)),
        logs_in(*old(conn), old(registry), req, *final(conn), final(registry), out@),
{
    // Initialize sequencing from the first login PDU.
    if conn.stat_sn == 0 {
        conn.stat_sn = req.exp_stat_sn;
    }
    conn.exp_cmd_sn = req.cmd_sn;
    assert(*conn == sequenced(*old(conn), req));

    // Resolve the target on first declaration of TargetName.
    if conn.target.is_none() {
        match find_value(req.text.as_slice(), "TargetName") {
            Some(iqn) => {
                let found = registry.acquire(iqn.as_str());
                if found.is_none() {
                    return super::single(fail(conn, &req));
                }
                conn.target = found;
            },
            None => {
                if req.transit && req.nsg == 3 {
                    // Transiting to FullFeature without ever naming a target: error.
                    return super::single(fail(conn, &req));
                }
                // NSG=1 with no TargetName is fine: the initiator will send it in the
                // next PDU.
            },
        }
    }
    let ghost c = *conn;
    // Negotiate operational keys (only during the operational phase, CSG=1, or when
    // jumping directly to FullFeature from security, CSG=0 to NSG=3).
    let mut reply_keys: Vec<(String, String)> = Vec::new();
    if req.csg == 1 || (req.csg == 0 && req.nsg == 3) {
        negotiate_all(&mut conn.params, req.text.as_slice());
        reply_keys = declare(&conn.params);
    }
    assert(text::pairs_view(reply_keys@) =~= if negotiates(req) {
        declared(conn.params)
    } else {
        Seq::empty()
    });
    // iPXE does a 2-step login: CSG=0 to NSG=1 (skip security), then CSG=1 to NSG=3
    // (FullFeature). We accept any requested transit and advance to FullFeature when
    // NSG=3, or when the operational phase ends with the target resolved.
    let transit = req.transit && (req.nsg == 1 || req.nsg == 3);
    if transit && (req.nsg == 3 || (req.csg == 1 && conn.target.is_some())) {
        conn.stage = Stage::FullFeature;
    }
    let stat_sn: u32 = conn.next_stat_sn();
    super::single(
        Outbound::Login(
            LoginResponse {
                transit,
                continue_: false,
                csg: req.csg,
                nsg: req.nsg,
                version_max: 0,
                version_active: 0,
                isid: req.isid,
                tsih: if req.tsih == 0 {
                    1
                } else {
                    req.tsih
                },
                itt: req.itt,
                stat_sn,
                exp_cmd_sn: conn.exp_cmd_sn,
                max_cmd_sn: conn.max_cmd_sn(),
                status_class: 0,
                status_detail: 0,
                text: reply_keys,
            },
        ),
    )
}

/// The value of the first pair with `key`.
fn find_value<'a>(pairs: &'a [(String, String)], key: &str) -> (v: Option<&'a String>)
    ensures
        v matches Some(s) ==> first_value(text::pairs_view(pairs@), key@) == Some(s@),
        v is None ==> first_value(text::pairs_view(pairs@), key@) is None,
{
    let ghost view = text::pairs_view(pairs@);
    let mut i: usize = 0;
    assert(view.skip(0) =~= view);
    while i < pairs.len()
        invariant
            i <= pairs@.len(),
            view == text::pairs_view(pairs@),
            first_value(view, key@) == first_value(view.skip(i as int), key@),
        decreases pairs@.len() - i,
    {
        let ghost rest = view.skip(i as int);
        assert(rest[0] == view[i as int]);
        assert(rest.drop_first() =~= view.skip(i + 1));
        if same_text(pairs[i].0.as_str(), key) {
            return Some(&pairs[i].1);
        }
        i += 1;
    }
    None
}

/// Fold every offered pair into the parameters, in order.
fn negotiate_all(p: &mut params::SessionParams, pairs: &[(String, String)])
    ensures
        *final(p) == params::negotiated_all(*old(p), text::pairs_view(pairs@)),
{
    let ghost view = text::pairs_view(pairs@);
    let mut i: usize = 0;
    assert(view.take(0) =~= Seq::empty());
    while i < pairs.len()
        invariant
            i <= pairs@.len(),
            view == text::pairs_view(pairs@),
            *p == params::negotiated_all(*old(p), view.take(i as int)),
        decreases pairs@.len() - i,
    {
        assert(view.take(i + 1).drop_last() =~= view.take(i as int));
        assert(view.take(i + 1).last() == view[i as int]);
        p.negotiate(pairs[i].0.as_str(), pairs[i].1.as_str());
        i += 1;
    }
    assert(view.take(i as int) =~= view);
}

/// The keys a login response declares.
fn declare(p: &params::SessionParams) -> (keys: Vec<(String, String)>)
    ensures
        text::pairs_view(keys@) == declared(*p),
{
    let mut keys: Vec<(String, String)> = Vec::new();
    keys.push((String::from_str("MaxBurstLength"), to_decimal(p.max_burst_length as u64)));
    keys.push((String::from_str("FirstBurstLength"), to_decimal(p.first_burst_length as u64)));
    keys.push((String::from_str("ImmediateData"), yes_no(p.immediate_data)));
    keys.push((String::from_str("InitialR2T"), yes_no(p.initial_r2t)));
    keys.push((String::from_str("HeaderDigest"), String::from_str("None")));
    keys.push((String::from_str("DataDigest"), String::from_str("None")));
    assert(text::pairs_view(keys@) =~= declared(*p));
    keys
}

/// A login failure response (status-class 0x02 = target/initiator error), closing.
fn fail(conn: &mut Connection, req: &LoginRequest) -> (o: Outbound)
    ensures
        *final(conn) == old(conn).closing().advanced(),
        is_login_response(
            *old(conn),
            *req,
            o,
            false,
            req.csg,
            req.tsih,
            CLASS_INITIATOR_ERROR,
            DETAIL_NOT_FOUND,
            Seq::empty(),
        ),
{
    conn.stage = Stage::Closing;
    let stat_sn: u32 = conn.next_stat_sn();
    let text: Vec<(String, String)> = Vec::new();
    assert(text::pairs_view(text@) =~= Seq::empty());
    Outbound::Login(
        LoginResponse {
            transit: false,
            continue_: false,
            csg: req.csg,
            nsg: req.csg,
            version_max: 0,
            version_active: 0,
            isid: req.isid,
            tsih: req.tsih,
            itt: req.itt,
            stat_sn,
            exp_cmd_sn: conn.exp_cmd_sn,
            max_cmd_sn: conn.max_cmd_sn(),
            status_class: CLASS_INITIATOR_ERROR,
            status_detail: DETAIL_NOT_FOUND,
            text,
        },
    )
}

fn yes_no(b: bool) -> (s: String)
    ensures
        s@ == yes_no_text(b),
{
    if b {
        String::from_str("Yes")
    } else {
        String::from_str("No")
    }
}

} // verus!
