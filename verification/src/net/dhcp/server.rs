//! Which datagrams are answered, with what, and where the answer goes.
use vstd::prelude::*;
use super::decide;
use super::decide::{OfferPlan, PlanView};
use super::options;
use super::options::msg_type;
use super::packet;
use super::packet::{DhcpMessage, DhcpOption, MessageView, OptionView, BOOTREPLY};
use crate::config::model::BootConfig;
use crate::net::addr;
use crate::net::addr::{Endpoint, IpAddr, Ipv4Addr};
use crate::wire;

verus! {

/// Which listener role a datagram arrived on.
#[derive(Clone, Copy, Debug, PartialEq, Eq, Structural)]
pub enum Role {
    /// `:67`, DHCP server (IP allocation)
    Dhcp,
    /// `:67`, proxyDHCP server (PXE information)
    ProxyDhcp,
    /// `:4011`, PXE boot server (answers REQUEST with ACK)
    BootServer,
}

/// The letters `PXEClient`.
pub open spec fn pxe_client() -> Seq<u8> {
    seq![0x50u8, 0x58, 0x45, 0x43, 0x6c, 0x69, 0x65, 0x6e, 0x74]
}

/// One option.
pub open spec fn opt(code: u8, data: Seq<u8>) -> Seq<OptionView> {
    seq![OptionView { code, data }]
}

/// The options of a reply.
pub open spec fn reply_options(
    plan: PlanView,
    server: Seq<u8>,
    mtype: u8,
    vendor: Seq<u8>,
    role: Role,
) -> Seq<OptionView> {
    opt(options::MSG_TYPE, seq![mtype]) + (if role != Role::ProxyDhcp {
        opt(options::SERVER_ID, server)
    } else {
        Seq::empty()
    }) + opt(options::VENDOR_CLASS_ID, pxe_client()) + (if role != Role::Dhcp {
        boot_options(plan)
    } else {
        Seq::empty()
    }) + opt(options::VENDOR_SPECIFIC, vendor) + (if role != Role::BootServer {
        lease_options(server)
    } else {
        Seq::empty()
    })
}

/// The bootfile, and on the firmware arm the server that has it.
pub open spec fn boot_options(plan: PlanView) -> Seq<OptionView> {
    opt(options::BOOTFILE_NAME, vstd::utf8::encode_utf8(plan.bootfile)) + match plan.next_server {
        Some(ip) => opt(
            options::TFTP_SERVER_NAME,
            vstd::utf8::encode_utf8(addr::dotted_text(ip)),
        ),
        None => Seq::empty(),
    }
}

/// Subnet mask 255.255.255.0, the server as gateway and name server, and a
/// lease of one hour.
pub open spec fn lease_options(server: Seq<u8>) -> Seq<OptionView> {
    opt(options::SUBNET_MASK, seq![255u8, 255, 255, 0]) + opt(options::ROUTER, server) + opt(
        options::DOMAIN_NAME_SERVER,
        server,
    ) + opt(options::LEASE_TIME, wire::be32(3600))
}

/// `0.0.0.0`.
pub open spec fn unspecified() -> Seq<u8> {
    seq![0u8, 0, 0, 0]
}

/// The reply to `req`.
pub open spec fn reply_of(
    req: MessageView,
    plan: PlanView,
    server: Seq<u8>,
    mtype: u8,
    vendor: Seq<u8>,
    role: Role,
) -> MessageView {
    MessageView {
        op: BOOTREPLY,
        htype: req.htype,
        hlen: req.hlen,
        hops: 0,
        xid: req.xid,
        secs: 0,
        flags: req.flags,
        ciaddr: unspecified(),
        yiaddr: if role == Role::BootServer {
            unspecified()
        } else {
            plan.yiaddr
        },
        siaddr: match plan.next_server {
            Some(ip) => ip,
            None => unspecified(),
        },
        giaddr: req.giaddr,
        chaddr: req.chaddr,
        options: reply_options(plan, server, mtype, vendor, role),
    }
}

/// `e` is the IPv4 endpoint `octets:port`.
pub open spec fn is_v4(e: Endpoint, octets: Seq<u8>, port: u16) -> bool {
    e.ip matches IpAddr::V4(ip) && ip.octets@ == octets && e.port == port
}

/// `dest` is where the answer to `req`, which came from `from`, goes: to the
/// relay if there is one, by broadcast if the client asks for that, and else
/// back.
pub open spec fn is_reply_dest(req: MessageView, from: Endpoint, dest: Endpoint) -> bool {
    if req.giaddr != unspecified() {
        is_v4(dest, req.giaddr, 67)
    } else if req.flags >= 0x8000 {
        is_v4(dest, seq![255u8, 255, 255, 255], 68)
    } else {
        dest == from
    }
}

/// The vendor class (option 60) starts with `PXEClient`.
pub open spec fn from_pxe(m: MessageView) -> bool {
    match options::first_option(m.options, options::VENDOR_CLASS_ID) {
        Some(v) => decide::stands_at(v, pxe_client(), 0),
        None => false,
    }
}

/// The type of the answer that a message type gets on a port.
pub open spec fn answer_type(mtype: Option<u8>, is_port67: bool) -> Option<u8> {
    if mtype == Some(msg_type::REQUEST) {
        Some(msg_type::ACK)
    } else if is_port67 && mtype == Some(msg_type::DISCOVER) {
        Some(msg_type::OFFER)
    } else {
        None
    }
}

/// The reply to a datagram; `None` where it is dropped.
pub open spec fn answer(data: Seq<u8>, cfg: BootConfig, is_port67: bool) -> Option<MessageView> {
    match packet::message_in(data) {
        Err(_) => None,
        Ok(req) => match answer_type(options::message_type_of(req.options), is_port67) {
            None => None,
            Some(mtype) => match decide::plan_of(req, cfg) {
                None => None,
                Some(plan) => {
                    let server = cfg.server_ip.octets@;
                    if is_port67 {
                        let role = if from_pxe(req) {
                            Role::ProxyDhcp
                        } else {
                            Role::Dhcp
                        };
                        Some(
                            reply_of(
                                req,
                                plan,
                                server,
                                mtype,
                                options::offer_vendor(server),
                                role,
                            ),
                        )
                    } else {
                        Some(
                            reply_of(
                                req,
                                plan,
                                server,
                                mtype,
                                options::ack_vendor(),
                                Role::BootServer,
                            ),
                        )
                    }
                },
            },
        },
    }
}

/// Append an option.
fn add(opts: &mut Vec<DhcpOption>, code: u8, data: &[u8])
    ensures
        packet::options_view(final(opts)@) == packet::options_view(old(opts)@) + opt(code, data@),
{
    opts.push(options::make_option(code, data));
    assert(packet::options_view(opts@) =~= packet::options_view(old(opts)@) + opt(code, data@));
}

/// Assemble a DHCP or proxyDHCP reply.
pub fn build_reply(
    req: &DhcpMessage,
    plan: &OfferPlan,
    cfg: &BootConfig,
    mtype: u8,
    vendor43: Vec<u8>,
    role: Role,
) -> (reply: DhcpMessage)
    ensures
        reply@ == reply_of(req@, plan@, cfg.server_ip.octets@, mtype, vendor43@, role),
{
    let server = &cfg.server_ip.octets;
    let mut opts: Vec<DhcpOption> = Vec::new();
    let ghost p = plan@;
    assert(packet::options_view(opts@) =~= Seq::empty());
    let t: [u8; 1] = [mtype];
    self::add(&mut opts, options::MSG_TYPE, &t);
    assert(t@ =~= seq![mtype]);
    assert(packet::options_view(opts@) =~= opt(options::MSG_TYPE, seq![mtype]));
    // Server ID only for regular DHCP, not proxyDHCP
    if role != Role::ProxyDhcp {
        self::add(&mut opts, options::SERVER_ID, server);
    }
    let class: [u8; 9] = [0x50, 0x58, 0x45, 0x43, 0x6c, 0x69, 0x65, 0x6e, 0x74];
    assert(class@ =~= pxe_client());
    self::add(&mut opts, options::VENDOR_CLASS_ID, &class);
    // Boot file and TFTP server only for the proxyDHCP and boot-server roles
    if role != Role::Dhcp {
        self::add(&mut opts, options::BOOTFILE_NAME, plan.bootfile.as_str().as_bytes());
        if let Some(ns) = &plan.next_server {
            self::add(&mut opts, options::TFTP_SERVER_NAME, ns.dotted().as_str().as_bytes());
        }
    }
    self::add(&mut opts, options::VENDOR_SPECIFIC, vendor43.as_slice());
    // Standard DHCP options for DHCP and proxyDHCP
    if role != Role::BootServer {
        let mask: [u8; 4] = [255, 255, 255, 0];
        assert(mask@ =~= seq![255u8, 255, 255, 0]);
        self::add(&mut opts, options::SUBNET_MASK, &mask);
        self::add(&mut opts, options::ROUTER, server);
        self::add(&mut opts, options::DOMAIN_NAME_SERVER, server);
        let mut lease: Vec<u8> = Vec::new();
        wire::push_be32(&mut lease, 3600);
        assert(lease@ =~= wire::be32(3600));
        self::add(&mut opts, options::LEASE_TIME, lease.as_slice());
    }
    assert(packet::options_view(opts@) =~= reply_options(
        plan@,
        cfg.server_ip.octets@,
        mtype,
        vendor43@,
        role,
    ));
    DhcpMessage {
        op: BOOTREPLY,
        htype: req.htype,
        hlen: req.hlen,
        hops: 0,
        xid: req.xid,
        secs: 0,
        flags: req.flags,
        ciaddr: Ipv4Addr::unspecified(),
        yiaddr: if role == Role::BootServer {
            Ipv4Addr::unspecified()
        } else {
            plan.yiaddr
        },
        siaddr: match plan.next_server {
            Some(ip) => ip,
            None => Ipv4Addr::unspecified(),
        },
        giaddr: req.giaddr,
        chaddr: req.chaddr,
        options: opts,
    }
}

/// Where to send the reply.
fn reply_dest(req: &DhcpMessage, from: Endpoint) -> (dest: Endpoint)
    ensures
        is_reply_dest(req@, from, dest),
{
    let g = &req.giaddr.octets;
    if g[0] != 0 || g[1] != 0 || g[2] != 0 || g[3] != 0 {
        Endpoint { ip: IpAddr::V4(req.giaddr), port: 67 }
    } else {
        assert(req@.giaddr =~= unspecified());
        if req.flags >= 0x8000 {
            Endpoint { ip: IpAddr::V4(Ipv4Addr::new(255, 255, 255, 255)), port: 68 }
        } else {
            from
        }
    }
}

/// Whether the vendor class starts with `PXEClient`.
fn is_pxe(req: &DhcpMessage) -> (r: bool)
    ensures
        r == from_pxe(req@),
{
    let class: [u8; 9] = [0x50, 0x58, 0x45, 0x43, 0x6c, 0x69, 0x65, 0x6e, 0x74];
    assert(class@ =~= pxe_client());
    match req.vendor_class() {
        Some(v) => v.len() >= 9 && wire::bytes_eq(wire::sub_vec(v, 0, 9).as_slice(), &class),
        None => false,
    }
}

/// A datagram is answered by `reply`, sent to `dest`; one that is dropped by none.
pub open spec fn replies(
    data: Seq<u8>,
    cfg: BootConfig,
    is_port67: bool,
    from: Endpoint,
    reply: Option<MessageView>,
    dest: Endpoint,
) -> bool {
    &&& answer(data, cfg, is_port67) == reply
    &&& reply is Some ==> if is_port67 {
        is_reply_dest(packet::message_in(data)->Ok_0, from, dest)
    } else {
        is_v4(dest, seq![255u8, 255, 255, 255], 68)
    }
}

/// The reply to a datagram and where to send it. `None` means "drop it".
pub fn handle_datagram(data: &[u8], cfg: &BootConfig, is_port67: bool, from: Endpoint) -> (r:
    Option<(DhcpMessage, Endpoint)>)
    ensures
        match r {
            Some(out) => replies(data@, *cfg, is_port67, from, Some(out.0@), out.1),
            None => replies(data@, *cfg, is_port67, from, None, from),
        },
{
    let req = match packet::parse(data) {
        Ok(m) => m,
        Err(_) => return None,
    };
    let mtype: u8 = match req.message_type() {
        Some(t) => if t == msg_type::REQUEST {
            msg_type::ACK
        } else if is_port67 && t == msg_type::DISCOVER {
            msg_type::OFFER
        } else {
            return None;
        },
        None => return None,
    };
    let plan = match decide::plan(&req, cfg) {
        Some(plan) => plan,
        None => return None,
    };
    if is_port67 {
        let vendor = options::pxe_offer_vendor_opts(cfg.server_ip);
        let role = if is_pxe(&req) {
            Role::ProxyDhcp
        } else {
            Role::Dhcp
        };
        let reply = build_reply(&req, &plan, cfg, mtype, vendor, role);
        let dest = reply_dest(&req, from);
        Some((reply, dest))
    } else {
        // PXE boot server: only REQUEST
        let vendor = options::pxe_ack_vendor_opts();
        let reply = build_reply(&req, &plan, cfg, mtype, vendor, Role::BootServer);
        Some((reply, Endpoint { ip: IpAddr::V4(Ipv4Addr::new(255, 255, 255, 255)), port: 68 }))
    }
}

/// A client recognises its answer: a reply carries the transaction and the
/// hardware address of the request, and is marked as a reply.
pub proof fn answers_echo_the_request(data: Seq<u8>, cfg: BootConfig, is_port67: bool)
    requires
        answer(data, cfg, is_port67) is Some,
    ensures
        packet::message_in(data) is Ok,
        ({
            let req = packet::message_in(data)->Ok_0;
            let reply = answer(data, cfg, is_port67)->0;
            &&& reply.op == BOOTREPLY
            &&& reply.xid == req.xid
            &&& reply.htype == req.htype
            &&& reply.hlen == req.hlen
            &&& reply.chaddr == req.chaddr
            &&& reply.flags == req.flags
            &&& reply.giaddr == req.giaddr
        }),
{
}

/// A proxyDHCP reply identifies no server, so that no client takes it for the
/// lease offer of the network's DHCP server.
pub proof fn proxy_reply_names_no_server(
    plan: PlanView,
    server: Seq<u8>,
    mtype: u8,
    vendor: Seq<u8>,
)
    ensures
        options::first_option(
            reply_options(plan, server, mtype, vendor, Role::ProxyDhcp),
            options::SERVER_ID,
        ) is None,
{
    let all = reply_options(plan, server, mtype, vendor, Role::ProxyDhcp);
    no_such_option(all, options::SERVER_ID);
}

proof fn no_such_option(all: Seq<OptionView>, code: u8)
    requires
        forall|i: int| 0 <= i < all.len() ==> (#[trigger] all[i]).code != code,
    ensures
        options::first_option(all, code) is None,
    decreases all.len(),
{
    if all.len() > 0 {
        assert forall|i: int| 0 <= i < all.drop_first().len() implies (
        #[trigger] all.drop_first()[i]).code != code by {
            assert(all[i + 1].code != code);
        }
        no_such_option(all.drop_first(), code);
    }
}

/// A client that asks on `:67` is given an address: the reply's is the one
/// planned for it, and never `0.0.0.0`. The boot server gives none.
pub proof fn only_port_67_gives_addresses(data: Seq<u8>, cfg: BootConfig, is_port67: bool)
    requires
        answer(data, cfg, is_port67) is Some,
    ensures
        is_port67 ==> answer(data, cfg, is_port67)->0.yiaddr == decide::offered_address(
            cfg.server_ip.octets@,
            packet::message_in(data)->Ok_0.chaddr,
        ),
        is_port67 <==> answer(data, cfg, is_port67)->0.yiaddr != unspecified(),
{
    let req = packet::message_in(data)->Ok_0;
    let ip = decide::offered_address(cfg.server_ip.octets@, req.chaddr);
    assert(ip[3] >= 1);
    assert(unspecified()[3] == 0);
}

/// Every option of `options` can be sent.
spec fn sendable(options: Seq<OptionView>) -> bool {
    packet::options_fit(options) && packet::proper_codes(options)
}

proof fn sendable_together(a: Seq<OptionView>, b: Seq<OptionView>)
    requires
        sendable(a),
        sendable(b),
    ensures
        sendable(a + b),
{
    assert forall|i: int| 0 <= i < (a + b).len() implies (#[trigger] (a + b)[i]).data.len() <= 255
        && (a + b)[i].code != 0 && (a + b)[i].code != 255 by {
        if i < a.len() {
            assert((a + b)[i] == a[i]);
        } else {
            assert((a + b)[i] == b[i - a.len()]);
        }
    }
}

proof fn lease_is_sendable(server: Seq<u8>)
    requires
        server.len() == 4,
    ensures
        sendable(lease_options(server)),
{
    let a = opt(options::SUBNET_MASK, seq![255u8, 255, 255, 0]);
    let b = opt(options::ROUTER, server);
    let c = opt(options::DOMAIN_NAME_SERVER, server);
    let d = opt(options::LEASE_TIME, wire::be32(3600));
    sendable_together(a, b);
    sendable_together(a + b, c);
    sendable_together(a + b + c, d);
}

proof fn boot_is_sendable(plan: PlanView)
    requires
        vstd::utf8::encode_utf8(plan.bootfile).len() <= 255,
    ensures
        sendable(boot_options(plan)),
{
    let a = opt(options::BOOTFILE_NAME, vstd::utf8::encode_utf8(plan.bootfile));
    match plan.next_server {
        Some(ip) => {
            addr::dotted_text_is_short(ip);
            sendable_together(
                a,
                opt(options::TFTP_SERVER_NAME, vstd::utf8::encode_utf8(addr::dotted_text(ip))),
            );
        },
        None => {
            sendable_together(a, Seq::empty());
        },
    }
}

/// A reply can be sent if its bootfile and its vendor options fit in an option
/// each.
pub proof fn replies_fit(
    plan: PlanView,
    server: Seq<u8>,
    mtype: u8,
    vendor: Seq<u8>,
    role: Role,
)
    requires
        server.len() == 4,
        vendor.len() <= 255,
        vstd::utf8::encode_utf8(plan.bootfile).len() <= 255,
    ensures
        packet::options_fit(reply_options(plan, server, mtype, vendor, role)),
        packet::proper_codes(reply_options(plan, server, mtype, vendor, role)),
{
    let a = opt(options::MSG_TYPE, seq![mtype]);
    let b = if role != Role::ProxyDhcp {
        opt(options::SERVER_ID, server)
    } else {
        Seq::empty()
    };
    let c = opt(options::VENDOR_CLASS_ID, pxe_client());
    let d = if role != Role::Dhcp {
        boot_options(plan)
    } else {
        Seq::empty()
    };
    let e = opt(options::VENDOR_SPECIFIC, vendor);
    let f = if role != Role::BootServer {
        lease_options(server)
    } else {
        Seq::empty()
    };
    boot_is_sendable(plan);
    lease_is_sendable(server);
    sendable_together(a, b);
    sendable_together(a + b, c);
    sendable_together(a + b + c, d);
    sendable_together(a + b + c + d, e);
    sendable_together(a + b + c + d + e, f);
}

/// A reply whose bootfile fits in an option parses back to itself.
pub proof fn replies_parse_back(
    reply: DhcpMessage,
    req: MessageView,
    plan: PlanView,
    server: Seq<u8>,
    mtype: u8,
    vendor: Seq<u8>,
    role: Role,
)
    requires
        reply@ == reply_of(req, plan, server, mtype, vendor, role),
        server.len() == 4,
        vendor.len() <= 255,
        vstd::utf8::encode_utf8(plan.bootfile).len() <= 255,
    ensures
        packet::message_in(packet::message_bytes(reply@)) == Ok::<MessageView, packet::ParseError>(
            reply@,
        ),
{
    replies_fit(plan, server, mtype, vendor, role);
    packet::message_round_trip(reply, Seq::empty());
    assert(packet::message_bytes(reply@) + Seq::<u8>::empty() =~= packet::message_bytes(reply@));
}

} // verus!
