//! Framing between a byte stream and a session: takes PDUs off the front of
//! what has been received and gives the bytes to send for each.
use vstd::prelude::*;
use super::laws;
use super::pdu;
use super::registry::TargetRegistry;
use super::session::{Connection, Outbound, Stage};
use super::{decode, PduError, Request, BHS_LEN};
use crate::storage::BackingStore;
use crate::volume::OverlayStore;
use crate::wire;

verus! {

/// What to do about the bytes received so far.
pub enum Pump {
    /// One PDU was handled: send these, then close if `closing`.
    Sent { pdus: Vec<Vec<u8>>, closing: bool },
    /// The PDU at the front is incomplete: read more.
    NeedMore,
    /// Malformed framing: close.
    Broken(PduError),
}

/// `sent` is `out` on the wire, PDU by PDU.
pub open spec fn encodes(sent: Seq<Vec<u8>>, out: Seq<Outbound>) -> bool {
    &&& sent.len() == out.len()
    &&& forall|i: int| 0 <= i < out.len() ==> (#[trigger] sent[i])@ == out[i].bytes()
}

/// `c0` handles the PDU at the front of `b`, becoming `c1`, and `sent` is what
/// it answers.
pub open spec fn serves<M: BackingStore, O: OverlayStore>(
    c0: Connection,
    r0: &TargetRegistry<M, O>,
    b: Seq<u8>,
    c1: Connection,
    r1: &TargetRegistry<M, O>,
    sent: Seq<Vec<u8>>,
) -> bool {
    let bhs = b.take(BHS_LEN as int);
    exists|req: Request, out: Seq<Outbound>| #[trigger]
        c0.handles(r0, req, bhs, c1, r1, out) && pdu::is_request(req, bhs, pdu::data_segment(b))
            && encodes(sent, out)
}

/// What is done about the bytes `b0` received so far: the PDU at the front is
/// handled and taken off, or nothing changes because there is no whole one.
pub open spec fn pumps<M: BackingStore, O: OverlayStore>(
    c0: Connection,
    r0: &TargetRegistry<M, O>,
    b0: Vec<u8>,
    c1: Connection,
    r1: &TargetRegistry<M, O>,
    b1: Vec<u8>,
    r: Pump,
) -> bool {
    match pdu::framing_error(b0@) {
        Some(e) => {
            &&& c1 == c0
            &&& *r1 == *r0
            &&& b1 == b0
            &&& r == if e == PduError::ShortHeader || e == PduError::ShortData {
                Pump::NeedMore
            } else {
                Pump::Broken(e)
            }
        },
        None => {
            &&& b1@ == b0@.skip(pdu::pdu_len(b0@))
            &&& r is Sent
            &&& r->closing == (c1.stage == Stage::Closing)
            &&& serves(c0, r0, b0@, c1, r1, r->pdus@)
        },
    }
}

/// A header that is not whole, or data that is not, waits for more; a header
/// with additional segments, or data of more than 256 KiB, breaks the
/// connection off. A whole PDU is taken off with its padding and nothing else,
/// and handled: the request in its 48 bytes and its data is answered by what the
/// connection sends for it, in order, and the connection is closed if its
/// session is.
pub proof fn one_pdu_is_taken_at_a_time<M: BackingStore, O: OverlayStore>(
    c0: Connection,
    r0: &TargetRegistry<M, O>,
    b0: Vec<u8>,
    c1: Connection,
    r1: &TargetRegistry<M, O>,
    b1: Vec<u8>,
    r: Pump,
)
    requires
        pumps(c0, r0, b0, c1, r1, b1, r),
    ensures
        ({
            let b = b0@;
            let n = laws::field(b, 5, 3);
            let whole = 48 + (n + 3) / 4 * 4;
            let waits = b.len() < 48 || b[4] == 0 && n <= 0x4_0000 && b.len() < whole;
            let broken = b.len() >= 48 && (b[4] != 0 || n > 0x4_0000);
            &&& waits ==> r is NeedMore
            &&& broken ==> r is Broken
            &&& waits || broken ==> c1 == c0 && *r1 == *r0 && b1@ == b
            &&& !waits && !broken ==> {
                &&& r matches Pump::Sent { pdus, closing }
                &&& closing == (c1.stage == Stage::Closing)
                &&& b1@ == b.skip(whole)
                &&& exists|req: Request, out: Seq<Outbound>| #[trigger]
                    c0.handles(r0, req, b.take(48), c1, r1, out) && pdu::is_request(
                        req,
                        b.take(48),
                        b.subrange(48, 48 + n),
                    ) && pdus@.len() == out.len() && forall|i: int|
                        0 <= i < out.len() ==> (#[trigger] pdus@[i])@ == out[i].bytes()
            }
        }),
{
    laws::framing_of(b0@);
}

/// Handle the PDU at the front of `buf`, if there is a whole one, and take it
/// off.
pub fn pump<M: BackingStore, O: OverlayStore>(
    conn: &mut Connection,
    registry: &mut TargetRegistry<M, O>,
    buf: &mut Vec<u8>,
) -> (r: Pump)
    requires
        old(conn).wf(),
        old(registry).wf(),
        old(conn).bound(old(registry)),
    ensures
        final(conn).wf(),
        final(registry).wf(),
        final(conn).bound(final(registry)),
        pumps(
            *old(conn),
            old(registry),
            *old(buf),
            *final(conn),
            final(registry),
            *final(buf),
            r,
        ),
{
    match decode(buf.as_slice()) {
        Ok((req, used)) => {
            let bhs: Vec<u8> = wire::sub_vec(buf.as_slice(), 0, BHS_LEN);
            assert(bhs@ =~= old(buf)@.take(BHS_LEN as int));
            let ghost taken = req;
            let responses = conn.handle(req, bhs.as_slice(), registry);
            let mut pdus: Vec<Vec<u8>> = Vec::new();
            let mut i: usize = 0;
            while i < responses.len()
                invariant
                    i <= responses@.len(),
                    pdus@.len() == i,
                    forall|j: int| 0 <= j < i ==> (#[trigger] pdus@[j])@ == responses@[j].bytes(),
                decreases responses@.len() - i,
            {
                pdus.push(responses[i].encode());
                i += 1;
            }
            proof {
                let bhs_view = old(buf)@.take(BHS_LEN as int);
                assert(encodes(pdus@, responses@));
                assert(pdu::is_request(taken, bhs_view, pdu::data_segment(old(buf)@)));
                assert(old(conn).handles(
                    old(registry),
                    taken,
                    bhs_view,
                    *conn,
                    registry,
                    responses@,
                ));
                assert(serves(*old(conn), old(registry), old(buf)@, *conn, registry, pdus@));
            }
            let rest: Vec<u8> = wire::sub_vec(buf.as_slice(), used, buf.len());
            *buf = rest;
            let closing = match conn.stage() {
                Stage::Closing => true,
                _ => false,
            };
            Pump::Sent { pdus, closing }
        },
        Err(PduError::ShortHeader) => Pump::NeedMore,
        Err(PduError::ShortData) => Pump::NeedMore,
        Err(e) => Pump::Broken(e),
    }
}

/// How a stream is cut into reads does not matter: a PDU that is complete now
/// is taken off the same way once more bytes have arrived behind it, and they
/// stay behind it.
pub proof fn framing_is_independent_of_reads(b: Seq<u8>, more: Seq<u8>)
    requires
        pdu::framing_error(b) is None,
    ensures
        pdu::framing_error(b + more) is None,
        (b + more).take(BHS_LEN as int) == b.take(BHS_LEN as int),
        pdu::data_segment(b + more) == pdu::data_segment(b),
        (b + more).skip(pdu::pdu_len(b + more)) == b.skip(pdu::pdu_len(b)) + more,
{
    pdu::framing_ignores_what_follows(b, more);
    assert((b + more).skip(pdu::pdu_len(b)) =~= b.skip(pdu::pdu_len(b)) + more);
}

} // verus!
