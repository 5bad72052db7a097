//! What a peer gets back for a stream of bytes, however the stream arrives.
use vstd::prelude::*;
use super::pdu;
use super::registry::TargetRegistry;
use super::session::twins;
use super::session::{Connection, Outbound, Stage};
use super::transport;
use super::{PduError, Request, BHS_LEN};
use crate::storage::BackingStore;
use crate::volume::OverlayStore;

verus! {

/// A connection and the registry it works on.
pub struct Side<M, O> {
    pub conn: Connection,
    pub registry: TargetRegistry<M, O>,
}

impl<M: BackingStore, O: OverlayStore> Side<M, O> {
    pub open spec fn wf(&self) -> bool {
        &&& self.conn.wf()
        &&& self.registry.wf()
        &&& self.conn.bound(&self.registry)
    }

    pub open spec fn closing(&self) -> bool {
        self.conn.stage == Stage::Closing
    }

    /// The sides cannot be told apart.
    pub open spec fn alike(&self, other: &Self) -> bool {
        &&& twins::alike_connections(self.conn, other.conn)
        &&& twins::alike_registries(&self.registry, &other.registry)
    }
}

/// PDUs as the bytes they consist of.
pub open spec fn bytes_of(pdus: Seq<Vec<u8>>) -> Seq<Seq<u8>> {
    Seq::new(pdus.len(), |i: int| pdus[i]@)
}

/// `x` handles the PDU at the front of `b`, becoming `y`, and answers `sent`:
/// what `transport::pump` does with a whole PDU.
pub open spec fn steps<M: BackingStore, O: OverlayStore>(
    x: Side<M, O>,
    b: Seq<u8>,
    y: Side<M, O>,
    sent: Seq<Seq<u8>>,
) -> bool {
    &&& y.wf()
    &&& exists|pdus: Seq<Vec<u8>>| #[trigger]
        transport::serves(x.conn, &x.registry, b, y.conn, &y.registry, pdus) && sent == bytes_of(
            pdus,
        )
}

/// `b` without its first `n` PDUs.
pub open spec fn rest(b: Seq<u8>, n: int) -> Seq<u8>
    decreases n,
{
    if n <= 0 {
        b
    } else {
        rest(b.skip(pdu::pdu_len(b)), n - 1)
    }
}

/// Repeated pumping of `b` goes through the sides `t` and answers `s`, PDU by
/// PDU, until the session closes or no PDU can be taken off any more.
pub open spec fn drains<M: BackingStore, O: OverlayStore>(
    b: Seq<u8>,
    t: Seq<Side<M, O>>,
    s: Seq<Seq<Seq<u8>>>,
) -> bool
    decreases s.len(),
{
    &&& t.len() == s.len() + 1
    &&& if s.len() == 0 {
        pdu::framing_error(b) is Some
    } else {
        &&& pdu::framing_error(b) is None
        &&& steps(t[0], b, t[1], s[0])
        &&& if t[1].closing() {
            s.len() == 1
        } else {
            drains(b.skip(pdu::pdu_len(b)), t.drop_first(), s.drop_first())
        }
    }
}

/// More bytes behind `b` can complete a PDU.
pub open spec fn waits(b: Seq<u8>) -> bool {
    ||| pdu::framing_error(b) == Some(PduError::ShortHeader)
    ||| pdu::framing_error(b) == Some(PduError::ShortData)
}

/// A connection that has drained its bytes down to `left` reads no more: its
/// session closes, or the framing is malformed.
pub open spec fn over<M: BackingStore, O: OverlayStore>(left: Seq<u8>, x: Side<M, O>) -> bool {
    x.closing() || !waits(left)
}

/// A connection that has `held` bytes at hand gets `reads`, one after the
/// other, and drains what it has after each, until it is over or the peer
/// closes.
pub open spec fn arrives<M: BackingStore, O: OverlayStore>(
    held: Seq<u8>,
    reads: Seq<Seq<u8>>,
    t: Seq<Side<M, O>>,
    s: Seq<Seq<Seq<u8>>>,
) -> bool
    decreases reads.len(),
{
    if reads.len() == 0 {
        t.len() == 1 && s.len() == 0
    } else {
        let b = held + reads[0];
        &&& t.len() == s.len() + 1
        &&& exists|n: int|
            0 <= n <= s.len() && #[trigger] drains(b, t.take(n + 1), s.take(n)) && if over(
                rest(b, n),
                t[n],
            ) {
                n == s.len()
            } else {
                arrives(rest(b, n), reads.drop_first(), t.skip(n), s.skip(n))
            }
    }
}

/// A PDU is answered the same whatever follows it.
proof fn steps_ignore_what_follows<M: BackingStore, O: OverlayStore>(
    x: Side<M, O>,
    b: Seq<u8>,
    more: Seq<u8>,
    y: Side<M, O>,
    sent: Seq<Seq<u8>>,
)
    requires
        pdu::framing_error(b) is None,
    ensures
        steps(x, b + more, y, sent) == steps(x, b, y, sent),
        pdu::framing_error(b + more) is None,
        (b + more).skip(pdu::pdu_len(b + more)) == b.skip(pdu::pdu_len(b)) + more,
{
    transport::framing_is_independent_of_reads(b, more);
    assert forall|pdus: Seq<Vec<u8>>| #[trigger]
        transport::serves(x.conn, &x.registry, b, y.conn, &y.registry, pdus) implies transport::serves(
        x.conn,
        &x.registry,
        b + more,
        y.conn,
        &y.registry,
        pdus,
    ) by {}
    assert forall|pdus: Seq<Vec<u8>>| #[trigger]
        transport::serves(
            x.conn,
            &x.registry,
            b + more,
            y.conn,
            &y.registry,
            pdus,
        ) implies transport::serves(x.conn, &x.registry, b, y.conn, &y.registry, pdus) by {}
}

/// What is left once `b` is drained holds no whole PDU, unless the session
/// closes.
proof fn drained<M: BackingStore, O: OverlayStore>(
    b: Seq<u8>,
    t: Seq<Side<M, O>>,
    s: Seq<Seq<Seq<u8>>>,
)
    requires
        drains(b, t, s),
        !t.last().closing(),
    ensures
        pdu::framing_error(rest(b, s.len() as int)) is Some,
    decreases s.len(),
{
    if s.len() > 0 {
        if !t[1].closing() {
            assert(t.drop_first().last() == t.last());
            drained(b.skip(pdu::pdu_len(b)), t.drop_first(), s.drop_first());
        }
    }
}

/// Nothing is answered for what follows the PDU that closes the session, nor
/// for anything from malformed framing on: draining goes the same way with
/// `more` behind.
pub proof fn nothing_follows_the_end<M: BackingStore, O: OverlayStore>(
    b: Seq<u8>,
    more: Seq<u8>,
    t: Seq<Side<M, O>>,
    s: Seq<Seq<Seq<u8>>>,
)
    requires
        !t[0].closing(),
        drains(b, t, s),
        over(rest(b, s.len() as int), t.last()),
    ensures
        drains(b + more, t, s),
    decreases s.len(),
{
    if s.len() == 0 {
        pdu::framing_ignores_what_follows(b, more);
    } else {
        steps_ignore_what_follows(t[0], b, more, t[1], s[0]);
        if !t[1].closing() {
            assert(t.drop_first().last() == t.last());
            nothing_follows_the_end(
                b.skip(pdu::pdu_len(b)),
                more,
                t.drop_first(),
                s.drop_first(),
            );
        }
    }
}

/// Draining `b`, and then what is left of it with `more` behind, is draining
/// both at once.
proof fn drains_join<M: BackingStore, O: OverlayStore>(
    b: Seq<u8>,
    more: Seq<u8>,
    t: Seq<Side<M, O>>,
    s: Seq<Seq<Seq<u8>>>,
    n: int,
)
    requires
        t.len() == s.len() + 1,
        0 <= n <= s.len(),
        drains(b, t.take(n + 1), s.take(n)),
        !t[n].closing(),
        drains(rest(b, n) + more, t.skip(n), s.skip(n)),
    ensures
        drains(b + more, t, s),
    decreases n,
{
    if n == 0 {
        assert(t.skip(0) =~= t);
        assert(s.skip(0) =~= s);
    } else {
        let (t1, s1) = (t.drop_first(), s.drop_first());
        assert(t.take(n + 1)[0] == t[0] && t.take(n + 1)[1] == t[1] && s.take(n)[0] == s[0]);
        steps_ignore_what_follows(t[0], b, more, t[1], s[0]);
        assert(!t[1].closing());
        assert(t.take(n + 1).drop_first() =~= t1.take(n));
        assert(s.take(n).drop_first() =~= s1.take(n - 1));
        assert(t1.skip(n - 1) =~= t.skip(n));
        assert(s1.skip(n - 1) =~= s.skip(n));
        drains_join(b.skip(pdu::pdu_len(b)), more, t1, s1, n - 1);
    }
}

/// Draining `b` with `more` behind is draining `b` first.
proof fn drains_split<M: BackingStore, O: OverlayStore>(
    b: Seq<u8>,
    more: Seq<u8>,
    t: Seq<Side<M, O>>,
    s: Seq<Seq<Seq<u8>>>,
) -> (n: int)
    requires
        !t[0].closing(),
        drains(b + more, t, s),
    ensures
        0 <= n <= s.len(),
        drains(b, t.take(n + 1), s.take(n)),
        over(rest(b, n), t[n]) ==> n == s.len(),
        !over(rest(b, n), t[n]) ==> drains(rest(b, n) + more, t.skip(n), s.skip(n)),
    decreases s.len(),
{
    if pdu::framing_error(b) is Some {
        pdu::framing_ignores_what_follows(b, more);
        assert(t.skip(0) =~= t);
        assert(s.skip(0) =~= s);
        0
    } else {
        pdu::framing_ignores_what_follows(b, more);
        steps_ignore_what_follows(t[0], b, more, t[1], s[0]);
        let (t1, s1) = (t.drop_first(), s.drop_first());
        let m = if t[1].closing() {
            0
        } else {
            drains_split(b.skip(pdu::pdu_len(b)), more, t1, s1)
        };
        let n = m + 1;
        assert(t.take(n + 1)[0] == t[0] && t.take(n + 1)[1] == t[1] && s.take(n)[0] == s[0]);
        assert(t.take(n + 1).drop_first() =~= t1.take(n));
        assert(s.take(n).drop_first() =~= s1.take(m));
        assert(t1.skip(m) =~= t.skip(n));
        assert(s1.skip(m) =~= s.skip(n));
        n
    }
}

/// How a stream is cut into reads does not matter: what can be answered to it
/// read by read is what can be answered to all of it at once.
pub proof fn reads_do_not_matter<M: BackingStore, O: OverlayStore>(
    held: Seq<u8>,
    reads: Seq<Seq<u8>>,
    t: Seq<Side<M, O>>,
    s: Seq<Seq<Seq<u8>>>,
)
    requires
        waits(held),
        !t[0].closing(),
    ensures
        arrives(held, reads, t, s) == drains(held + reads.flatten(), t, s),
    decreases reads.len(),
{
    if reads.len() == 0 {
        assert(held + reads.flatten() =~= held);
    } else {
        let b = held + reads[0];
        let more = reads.drop_first().flatten();
        assert(b + more =~= held + reads.flatten());
        if arrives(held, reads, t, s) {
            let n = choose|n: int|
                0 <= n <= s.len() && #[trigger] drains(b, t.take(n + 1), s.take(n)) && if over(
                    rest(b, n),
                    t[n],
                ) {
                    n == s.len()
                } else {
                    arrives(rest(b, n), reads.drop_first(), t.skip(n), s.skip(n))
                };
            assert(t.take(n + 1).last() == t[n]);
            if over(rest(b, n), t[n]) {
                assert(t.take(n + 1) =~= t);
                assert(s.take(n) =~= s);
                nothing_follows_the_end(b, more, t, s);
            } else {
                reads_do_not_matter(rest(b, n), reads.drop_first(), t.skip(n), s.skip(n));
                drains_join(b, more, t, s, n);
            }
        }
        if drains(b + more, t, s) {
            let n = drains_split(b, more, t, s);
            if !over(rest(b, n), t[n]) {
                reads_do_not_matter(rest(b, n), reads.drop_first(), t.skip(n), s.skip(n));
            }
            assert(arrives(held, reads, t, s));
        }
    }
}

/// Alike sides answer a PDU with the same bytes and stay alike.
proof fn steps_alike<M: BackingStore, O: OverlayStore>(
    x0: Side<M, O>,
    x1: Side<M, O>,
    sent: Seq<Seq<u8>>,
    y0: Side<M, O>,
    y1: Side<M, O>,
    other: Seq<Seq<u8>>,
    b: Seq<u8>,
)
    requires
        x0.wf(),
        x0.alike(&y0),
        twins::dependable(&x0.registry),
        twins::dependable(&y0.registry),
        steps(x0, b, x1, sent),
        steps(y0, b, y1, other),
    ensures
        sent == other,
        x1.alike(&y1),
        twins::dependable(&x1.registry),
        twins::dependable(&y1.registry),
{
    let bhs = b.take(BHS_LEN as int);
    let data = pdu::data_segment(b);
    let p = choose|p: Seq<Vec<u8>>| #[trigger]
        transport::serves(x0.conn, &x0.registry, b, x1.conn, &x1.registry, p) && sent == bytes_of(p);
    let q = choose|p: Seq<Vec<u8>>| #[trigger]
        transport::serves(y0.conn, &y0.registry, b, y1.conn, &y1.registry, p) && other == bytes_of(
            p,
        );
    let (req, out) = choose|req: Request, out: Seq<Outbound>| #[trigger]
        x0.conn.handles(&x0.registry, req, bhs, x1.conn, &x1.registry, out) && pdu::is_request(
            req,
            bhs,
            data,
        ) && transport::encodes(p, out);
    let (twin, also) = choose|req: Request, out: Seq<Outbound>| #[trigger]
        y0.conn.handles(&y0.registry, req, bhs, y1.conn, &y1.registry, out) && pdu::is_request(
            req,
            bhs,
            data,
        ) && transport::encodes(q, out);
    twins::sessions_answer_alike(
        x0.conn,
        &x0.registry,
        req,
        x1.conn,
        &x1.registry,
        out,
        y0.conn,
        &y0.registry,
        twin,
        y1.conn,
        &y1.registry,
        also,
        bhs,
        data,
    );
    assert forall|i: int| 0 <= i < sent.len() implies sent[i] == other[i] by {
        assert(p[i]@ == out[i].bytes());
        assert(q[i]@ == also[i].bytes());
    }
    assert(sent =~= other);
}

/// Alike sides answer the same bytes with the same bytes and end up alike, as
/// long as every master can be read.
pub proof fn drains_alike<M: BackingStore, O: OverlayStore>(
    b: Seq<u8>,
    t: Seq<Side<M, O>>,
    s: Seq<Seq<Seq<u8>>>,
    u: Seq<Side<M, O>>,
    v: Seq<Seq<Seq<u8>>>,
)
    requires
        t[0].wf(),
        t[0].alike(&u[0]),
        twins::dependable(&t[0].registry),
        twins::dependable(&u[0].registry),
        drains(b, t, s),
        drains(b, u, v),
    ensures
        s == v,
        t.last().alike(&u.last()),
    decreases s.len(),
{
    if s.len() > 0 {
        steps_alike(t[0], t[1], s[0], u[0], u[1], v[0], b);
        if !t[1].closing() {
            drains_alike(
                b.skip(pdu::pdu_len(b)),
                t.drop_first(),
                s.drop_first(),
                u.drop_first(),
                v.drop_first(),
            );
            assert(s =~= seq![s[0]] + s.drop_first());
            assert(v =~= seq![v[0]] + v.drop_first());
            assert(t.drop_first().last() == t.last());
            assert(u.drop_first().last() == u.last());
        } else {
            assert(s =~= v);
        }
    } else {
        assert(s =~= v);
    }
}

/// The same stream, cut into reads in two ways, gets the same answers, PDU by
/// PDU and byte by byte, from connections that start out alike over alike
/// registries whose masters can be read; and the connections and registries
/// end up alike.
pub proof fn same_stream_same_answers<M: BackingStore, O: OverlayStore>(
    reads: Seq<Seq<u8>>,
    t: Seq<Side<M, O>>,
    s: Seq<Seq<Seq<u8>>>,
    cuts: Seq<Seq<u8>>,
    u: Seq<Side<M, O>>,
    v: Seq<Seq<Seq<u8>>>,
)
    requires
        reads.flatten() == cuts.flatten(),
        t[0].wf(),
        !t[0].closing(),
        t[0].alike(&u[0]),
        twins::dependable(&t[0].registry),
        twins::dependable(&u[0].registry),
        arrives(Seq::empty(), reads, t, s),
        arrives(Seq::empty(), cuts, u, v),
    ensures
        s == v,
        t.last().alike(&u.last()),
{
    reads_do_not_matter(Seq::empty(), reads, t, s);
    reads_do_not_matter(Seq::empty(), cuts, u, v);
    drains_alike(Seq::<u8>::empty() + reads.flatten(), t, s, u, v);
}

} // verus!
