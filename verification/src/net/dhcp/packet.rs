//! BOOTP/DHCP packets.
use vstd::prelude::*;
use crate::net::addr::Ipv4Addr;
use crate::text;
use crate::wire;

verus! {

/// DHCP magic cookie (RFC 2131) that precedes the options area.
pub const MAGIC_COOKIE: [u8; 4] = [0x63, 0x82, 0x53, 0x63];

/// BOOTP `op` for a client request.
pub const BOOTREQUEST: u8 = 1;

/// BOOTP `op` for a server reply.
pub const BOOTREPLY: u8 = 2;

/// A parsed BOOTP/DHCP message. The options area is kept as raw values; typed
/// access lives in `options`.
#[derive(Debug, PartialEq, Eq)]
pub struct DhcpMessage {
    pub op: u8,
    pub htype: u8,
    pub hlen: u8,
    pub hops: u8,
    pub xid: u32,
    pub secs: u16,
    pub flags: u16,
    pub ciaddr: Ipv4Addr,
    pub yiaddr: Ipv4Addr,
    pub siaddr: Ipv4Addr,
    pub giaddr: Ipv4Addr,
    pub chaddr: [u8; 16],
    pub options: Vec<DhcpOption>,
}

/// One DHCP option as a code and a raw value. PAD (0) and END (255) are not
/// stored; END terminates parsing.
#[derive(Debug, PartialEq, Eq)]
pub struct DhcpOption {
    pub code: u8,
    pub data: Vec<u8>,
}

/// What a `DhcpOption` holds.
pub struct OptionView {
    pub code: u8,
    pub data: Seq<u8>,
}

/// What a `DhcpMessage` holds.
pub struct MessageView {
    pub op: u8,
    pub htype: u8,
    pub hlen: u8,
    pub hops: u8,
    pub xid: u32,
    pub secs: u16,
    pub flags: u16,
    pub ciaddr: Seq<u8>,
    pub yiaddr: Seq<u8>,
    pub siaddr: Seq<u8>,
    pub giaddr: Seq<u8>,
    pub chaddr: Seq<u8>,
    pub options: Seq<OptionView>,
}

impl View for DhcpOption {
    type V = OptionView;

    open spec fn view(&self) -> OptionView {
        OptionView { code: self.code, data: self.data@ }
    }
}

/// What a list of options holds.
pub open spec fn options_view(options: Seq<DhcpOption>) -> Seq<OptionView> {
    Seq::new(options.len(), |i: int| options[i]@)
}

impl View for DhcpMessage {
    type V = MessageView;

    open spec fn view(&self) -> MessageView {
        MessageView {
            op: self.op,
            htype: self.htype,
            hlen: self.hlen,
            hops: self.hops,
            xid: self.xid,
            secs: self.secs,
            flags: self.flags,
            ciaddr: self.ciaddr.octets@,
            yiaddr: self.yiaddr.octets@,
            siaddr: self.siaddr.octets@,
            giaddr: self.giaddr.octets@,
            chaddr: self.chaddr@,
            options: options_view(self.options@),
        }
    }
}

/// Why a datagram is not a DHCP message. All variants are recoverable: the
/// caller drops the datagram and keeps serving.
#[derive(Debug, PartialEq, Eq)]
pub enum ParseError {
    TooShort(usize),
    BadCookie,
    TruncatedOption { code: u8 },
}

impl ParseError {
    /// The error in words.
    pub open spec fn text(&self) -> Seq<char> {
        match self {
            ParseError::TooShort(n) => "packet too short: "@ + text::decimal(*n as nat)
                + " bytes"@,
            ParseError::BadCookie => "bad magic cookie"@,
            ParseError::TruncatedOption { code } => "truncated option (code "@ + text::decimal(
                *code as nat,
            ) + ")"@,
        }
    }

    /// The error in words.
    pub fn message(&self) -> (m: String)
        ensures
            m@ == self.text(),
    {
        match self {
            ParseError::TooShort(n) => {
                let mut m: String = String::from_str("packet too short: ");
                text::push_decimal(&mut m, *n as u64);
                m.append(" bytes");
                m
            },
            ParseError::BadCookie => String::from_str("bad magic cookie"),
            ParseError::TruncatedOption { code } => {
                let mut m: String = String::from_str("truncated option (code ");
                text::push_decimal(&mut m, *code as u64);
                m.append(")");
                m
            },
        }
    }
}

/// The options that an options area holds: PAD is skipped, END or the end of
/// the area ends it.
pub open spec fn options_in(b: Seq<u8>) -> Result<Seq<OptionView>, ParseError>
    decreases b.len(),
{
    if b.len() == 0 || b[0] == 255 {
        Ok(Seq::empty())
    } else if b[0] == 0 {
        options_in(b.skip(1))
    } else if b.len() < 2 || 2 + b[1] > b.len() {
        Err(ParseError::TruncatedOption { code: b[0] })
    } else {
        after(
            seq![OptionView { code: b[0], data: b.subrange(2, 2 + b[1]) }],
            options_in(b.skip(2 + b[1])),
        )
    }
}

/// `first`, then what `rest` holds.
pub open spec fn after(
    first: Seq<OptionView>,
    rest: Result<Seq<OptionView>, ParseError>,
) -> Result<Seq<OptionView>, ParseError> {
    match rest {
        Ok(options) => Ok(first + options),
        Err(e) => Err(e),
    }
}

/// The message that a datagram holds.
pub open spec fn message_in(b: Seq<u8>) -> Result<MessageView, ParseError> {
    if b.len() < 240 {
        Err(ParseError::TooShort(b.len() as usize))
    } else if b.subrange(236, 240) != MAGIC_COOKIE@ {
        Err(ParseError::BadCookie)
    } else {
        match options_in(b.skip(240)) {
            Err(e) => Err(e),
            Ok(options) => Ok(
                MessageView {
                    op: b[0],
                    htype: b[1],
                    hlen: b[2],
                    hops: b[3],
                    xid: wire::be32_at(b, 4),
                    secs: wire::be16_at(b, 8),
                    flags: wire::be16_at(b, 10),
                    ciaddr: b.subrange(12, 16),
                    yiaddr: b.subrange(16, 20),
                    siaddr: b.subrange(20, 24),
                    giaddr: b.subrange(24, 28),
                    chaddr: b.subrange(28, 44),
                    options,
                },
            ),
        }
    }
}

fn ipv4(b: &[u8], at: usize) -> (ip: Ipv4Addr)
    requires
        at + 4 <= b@.len(),
    ensures
        ip.octets@ == b@.subrange(at as int, at + 4),
{
    let ip = Ipv4Addr::new(b[at], b[at + 1], b[at + 2], b[at + 3]);
    assert(ip.octets@ =~= b@.subrange(at as int, at + 4));
    ip
}

/// Parse a datagram. Never panics.
pub fn parse(buf: &[u8]) -> (r: Result<DhcpMessage, ParseError>)
    ensures
        r matches Ok(m) ==> message_in(buf@) == Ok::<MessageView, ParseError>(m@),
        r matches Err(e) ==> message_in(buf@) == Err::<MessageView, ParseError>(e),
{
    if buf.len() < 240 {
        return Err(ParseError::TooShort(buf.len()));
    }
    let cookie = wire::sub_vec(buf, 236, 240);
    if !wire::bytes_eq(cookie.as_slice(), &MAGIC_COOKIE) {
        return Err(ParseError::BadCookie);
    }
    let options = match parse_options(buf, 240) {
        Ok(options) => options,
        Err(e) => return Err(e),
    };
    let mut chaddr: [u8; 16] = [0; 16];
    let mut i: usize = 0;
    while i < 16
        invariant
            i <= 16,
            buf@.len() >= 240,
            chaddr@.len() == 16,
            forall|j: int| 0 <= j < i ==> chaddr@[j] == buf@[28 + j],
        decreases 16 - i,
    {
        chaddr[i] = buf[28 + i];
        i += 1;
    }
    assert(chaddr@ =~= buf@.subrange(28, 44));
    Ok(
        DhcpMessage {
            op: buf[0],
            htype: buf[1],
            hlen: buf[2],
            hops: buf[3],
            xid: wire::get_be32(buf, 4),
            secs: wire::get_be16(buf, 8),
            flags: wire::get_be16(buf, 10),
            ciaddr: ipv4(buf, 12),
            yiaddr: ipv4(buf, 16),
            siaddr: ipv4(buf, 20),
            giaddr: ipv4(buf, 24),
            chaddr,
            options,
        },
    )
}

/// Parse the options area of `buf`, which starts at `from`.
fn parse_options(buf: &[u8], from: usize) -> (r: Result<Vec<DhcpOption>, ParseError>)
    requires
        from <= buf@.len(),
    ensures
        r matches Ok(o) ==> options_in(buf@.skip(from as int)) == Ok::<
            Seq<OptionView>,
            ParseError,
        >(options_view(o@)),
        r matches Err(e) ==> options_in(buf@.skip(from as int)) == Err::<
            Seq<OptionView>,
            ParseError,
        >(e),
{
    let ghost area = buf@.skip(from as int);
    let mut opts: Vec<DhcpOption> = Vec::new();
    let mut i: usize = from;
    proof {
        same_after_nothing(options_in(area));
        assert(options_view(opts@) =~= Seq::empty());
    }
    while i < buf.len()
        invariant
            from <= i <= buf@.len(),
            area == buf@.skip(from as int),
            options_in(area) == after(options_view(opts@), options_in(buf@.skip(i as int))),
        ensures
            options_in(area) == after(options_view(opts@), Ok(Seq::empty())),
        decreases buf@.len() - i,
    {
        let ghost rest = buf@.skip(i as int);
        let code: u8 = buf[i];
        if code == 255 {
            break ;  // END
        }
        if code == 0 {
            // PAD
            assert(rest.skip(1) =~= buf@.skip(i + 1));
            i += 1;
            continue ;
        }
        if buf.len() - i < 2 {
            return Err(ParseError::TruncatedOption { code });
        }
        let len: usize = buf[i + 1] as usize;
        if buf.len() - i - 2 < len {
            return Err(ParseError::TruncatedOption { code });
        }
        let end: usize = i + 2 + len;
        let data = wire::sub_vec(buf, i + 2, end);
        proof {
            let o = OptionView { code, data: data@ };
            assert(rest.subrange(2, 2 + rest[1]) =~= data@);
            assert(rest.skip(2 + rest[1]) =~= buf@.skip(end as int));
            after_twice(options_view(opts@), seq![o], options_in(buf@.skip(end as int)));
        }
        let ghost before = opts@;
        opts.push(DhcpOption { code, data });
        assert(options_view(opts@) =~= options_view(before) + seq![
            OptionView { code, data: data@ },
        ]);
        i = end;
    }
    assert(options_view(opts@) + Seq::<OptionView>::empty() =~= options_view(opts@));
    Ok(opts)
}

proof fn same_after_nothing(rest: Result<Seq<OptionView>, ParseError>)
    ensures
        after(Seq::empty(), rest) == rest,
{
    if let Ok(o) = rest {
        assert(Seq::<OptionView>::empty() + o =~= o);
    }
}

proof fn after_twice(
    a: Seq<OptionView>,
    b: Seq<OptionView>,
    rest: Result<Seq<OptionView>, ParseError>,
)
    ensures
        after(a, after(b, rest)) == after(a + b, rest),
{
    if let Ok(o) = rest {
        assert(a + (b + o) =~= (a + b) + o);
    }
}

/// The wire form of an option.
pub open spec fn option_bytes(o: OptionView) -> Seq<u8> {
    seq![o.code, (o.data.len() % 0x100) as u8] + o.data
}

/// The wire form of the first `k` options.
pub open spec fn options_bytes(options: Seq<OptionView>, k: int) -> Seq<u8>
    decreases k,
{
    if k <= 0 {
        Seq::empty()
    } else {
        options_bytes(options, k - 1) + option_bytes(options[k - 1])
    }
}

/// The fixed header and the cookie.
pub open spec fn header_bytes(m: MessageView) -> Seq<u8> {
    seq![m.op, m.htype, m.hlen, m.hops] + wire::be32(m.xid) + wire::be16(m.secs) + wire::be16(
        m.flags,
    ) + m.ciaddr + m.yiaddr + m.siaddr + m.giaddr + m.chaddr + wire::zeros(192) + MAGIC_COOKIE@
}

/// The wire form of a message.
pub open spec fn message_bytes(m: MessageView) -> Seq<u8> {
    header_bytes(m) + options_bytes(m.options, m.options.len() as int) + seq![255u8]
}

/// The length of an option fits in its length byte.
pub open spec fn options_fit(options: Seq<OptionView>) -> bool {
    forall|i: int| 0 <= i < options.len() ==> (#[trigger] options[i]).data.len() <= 255
}

/// Encode a message: fixed header, cookie, options, END.
pub fn encode(msg: &DhcpMessage) -> (out: Vec<u8>)
    requires
        options_fit(msg@.options),
    ensures
        out@ == message_bytes(msg@),
{
    let mut out: Vec<u8> = Vec::new();
    out.push(msg.op);
    out.push(msg.htype);
    out.push(msg.hlen);
    out.push(msg.hops);
    assert(out@ =~= seq![msg.op, msg.htype, msg.hlen, msg.hops]);
    wire::push_be32(&mut out, msg.xid);
    wire::push_be16(&mut out, msg.secs);
    wire::push_be16(&mut out, msg.flags);
    wire::push_bytes(&mut out, &msg.ciaddr.octets);
    wire::push_bytes(&mut out, &msg.yiaddr.octets);
    wire::push_bytes(&mut out, &msg.siaddr.octets);
    wire::push_bytes(&mut out, &msg.giaddr.octets);
    wire::push_bytes(&mut out, &msg.chaddr);
    wire::push_zeros(&mut out, 192);
    wire::push_bytes(&mut out, &MAGIC_COOKIE);
    assert(out@ == header_bytes(msg@));
    let mut i: usize = 0;
    assert(out@ =~= header_bytes(msg@) + options_bytes(msg@.options, 0));
    while i < msg.options.len()
        invariant
            i <= msg.options@.len(),
            options_fit(msg@.options),
            out@ == header_bytes(msg@) + options_bytes(msg@.options, i as int),
        decreases msg.options@.len() - i,
    {
        let o = &msg.options[i];
        assert(o@ == msg@.options[i as int]);
        assert(o.data@.len() <= 255);
        out.push(o.code);
        out.push(o.data.len() as u8);
        wire::push_bytes(&mut out, o.data.as_slice());
        i += 1;
        assert(out@ =~= header_bytes(msg@) + options_bytes(msg@.options, i as int));
    }
    out.push(255);  // END
    assert(out@ =~= message_bytes(msg@));
    out
}

/// No option has the code of PAD or END.
pub open spec fn proper_codes(options: Seq<OptionView>) -> bool {
    forall|i: int| 0 <= i < options.len() ==> (#[trigger] options[i]).code != 0 && options[i].code
        != 255
}

proof fn options_round_trip(options: Seq<OptionView>, k: int, trailing: Seq<u8>)
    requires
        0 <= k <= options.len(),
        options_fit(options),
        proper_codes(options),
    ensures
        options_in(options_bytes(options, k) + trailing) == after(
            options.take(k),
            options_in(trailing),
        ),
    decreases k,
{
    if k == 0 {
        assert(options_bytes(options, k) + trailing =~= trailing);
        assert(options.take(0) =~= Seq::empty());
        same_after_nothing(options_in(trailing));
    } else {
        let o = options[k - 1];
        let tail = option_bytes(o) + trailing;
        assert(options_bytes(options, k) + trailing =~= options_bytes(options, k - 1) + tail);
        options_round_trip(options, k - 1, tail);
        assert(tail.subrange(2, 2 + tail[1]) =~= o.data);
        assert(tail.skip(2 + tail[1]) =~= trailing);
        assert(OptionView { code: tail[0], data: o.data } == o);
        after_twice(options.take(k - 1), seq![o], options_in(trailing));
        assert(options.take(k - 1) + seq![o] =~= options.take(k));
    }
}

proof fn header_round_trip(m: DhcpMessage, trailing: Seq<u8>)
    ensures
        header_bytes(m@).len() == 240,
        ({
            let b = header_bytes(m@) + trailing;
            &&& b[0] == m.op
            &&& b[1] == m.htype
            &&& b[2] == m.hlen
            &&& b[3] == m.hops
            &&& wire::be32_at(b, 4) == m.xid
            &&& wire::be16_at(b, 8) == m.secs
            &&& wire::be16_at(b, 10) == m.flags
            &&& b.subrange(12, 16) == m@.ciaddr
            &&& b.subrange(16, 20) == m@.yiaddr
            &&& b.subrange(20, 24) == m@.siaddr
            &&& b.subrange(24, 28) == m@.giaddr
            &&& b.subrange(28, 44) == m@.chaddr
            &&& b.subrange(236, 240) == MAGIC_COOKIE@
        }),
{
    let b = header_bytes(m@) + trailing;
    let numbers = seq![m.op, m.htype, m.hlen, m.hops] + wire::be32(m.xid) + wire::be16(m.secs)
        + wire::be16(m.flags);
    let addresses = m@.ciaddr + m@.yiaddr + m@.siaddr + m@.giaddr;
    let rest = m@.chaddr + wire::zeros(192) + MAGIC_COOKIE@;
    assert(header_bytes(m@) =~= numbers + addresses + rest);
    assert(numbers.len() == 12 && addresses.len() == 16 && rest.len() == 212);
    assert(b.subrange(0, 12) =~= numbers);
    assert(b.subrange(12, 28) =~= addresses);
    assert(b.subrange(28, 240) =~= rest);
    assert(forall|i: int| 0 <= i < 12 ==> b[i] == numbers[i]);
    assert(b.subrange(12, 16) =~= addresses.subrange(0, 4));
    assert(b.subrange(16, 20) =~= addresses.subrange(4, 8));
    assert(b.subrange(20, 24) =~= addresses.subrange(8, 12));
    assert(b.subrange(24, 28) =~= addresses.subrange(12, 16));
    assert(addresses.subrange(0, 4) =~= m@.ciaddr);
    assert(addresses.subrange(4, 8) =~= m@.yiaddr);
    assert(addresses.subrange(8, 12) =~= m@.siaddr);
    assert(addresses.subrange(12, 16) =~= m@.giaddr);
    assert(b.subrange(28, 44) =~= rest.subrange(0, 16));
    assert(b.subrange(236, 240) =~= rest.subrange(208, 212));
    assert(rest.subrange(0, 16) =~= m@.chaddr);
    assert(rest.subrange(208, 212) =~= MAGIC_COOKIE@);
}

/// A message whose options have proper codes and fit is what its wire form
/// parses to, whatever follows the END of its options.
pub proof fn message_round_trip(m: DhcpMessage, trailing: Seq<u8>)
    requires
        options_fit(m@.options),
        proper_codes(m@.options),
    ensures
        message_in(message_bytes(m@) + trailing) == Ok::<MessageView, ParseError>(m@),
{
    let all = message_bytes(m@) + trailing;
    let k = m@.options.len() as int;
    let area = options_bytes(m@.options, k) + (seq![255u8] + trailing);
    assert(all =~= header_bytes(m@) + area);
    header_round_trip(m, area);
    assert(all.skip(240) =~= area);
    options_round_trip(m@.options, k, seq![255u8] + trailing);
    assert(m@.options.take(k) + Seq::<OptionView>::empty() =~= m@.options);
}

/// PAD in front of an options area changes nothing.
pub proof fn pad_is_skipped(area: Seq<u8>)
    ensures
        options_in(seq![0u8] + area) == options_in(area),
{
    assert((seq![0u8] + area).skip(1) =~= area);
}

/// END behind an options area changes nothing, nor does whatever follows it.
pub proof fn end_stops_parsing(area: Seq<u8>, trailing: Seq<u8>)
    requires
        options_in(area) is Ok,
    ensures
        options_in(area + seq![255u8] + trailing) == options_in(area),
    decreases area.len(),
{
    let all = area + seq![255u8] + trailing;
    if area.len() > 0 && area[0] != 255 {
        let n = if area[0] == 0 {
            1
        } else {
            2 + area[1]
        };
        end_stops_parsing(area.skip(n), trailing);
        assert(all.skip(n) =~= area.skip(n) + seq![255u8] + trailing);
        if area[0] != 0 {
            assert(all.subrange(2, n) =~= area.subrange(2, n));
        }
    }
}

/// Neither PAD nor END is stored: every option that an area holds has another
/// code.
pub proof fn stored_codes_are_proper(area: Seq<u8>)
    ensures
        options_in(area) matches Ok(options) ==> proper_codes(options) && options_fit(options),
    decreases area.len(),
{
    if area.len() > 0 && area[0] != 255 {
        if area[0] == 0 {
            stored_codes_are_proper(area.skip(1));
        } else if area.len() >= 2 && 2 + area[1] <= area.len() {
            stored_codes_are_proper(area.skip(2 + area[1]));
            if let Ok(options) = options_in(area) {
                let rest = options_in(area.skip(2 + area[1]))->Ok_0;
                assert forall|i: int| 0 <= i < options.len() implies (#[trigger] options[i]).code
                    != 0 && options[i].code != 255 && options[i].data.len() <= 255 by {
                    if i > 0 {
                        assert(options[i] == rest[i - 1]);
                    }
                }
            }
        }
    }
}

} // verus!
