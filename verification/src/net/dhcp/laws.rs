//! What a client that boots over the network is told.
use vstd::prelude::*;
use super::decide;
use super::decide::PlanView;
use super::options;
use super::packet;
use super::packet::{MessageView, OptionView, ParseError};
use super::server;
use super::server::Role;
use crate::config::model::BootConfig;
use crate::net::addr;
use crate::net::addr::{Endpoint, IpAddr};
use crate::text;
use crate::wire;

verus! {

/// The first option with `code` among `all` has the value `v`.
pub open spec fn gives(all: Seq<OptionView>, code: u8, v: Seq<u8>) -> bool {
    exists|i: int|
        #![trigger all[i]]
        0 <= i < all.len() && all[i].code == code && all[i].data == v && (forall|j: int|
            0 <= j < i ==> (#[trigger] all[j]).code != code)
}

/// No option among `all` has `code`.
pub open spec fn lacks(all: Seq<OptionView>, code: u8) -> bool {
    forall|j: int| 0 <= j < all.len() ==> (#[trigger] all[j]).code != code
}

proof fn first_option_is(all: Seq<OptionView>, code: u8)
    ensures
        match options::first_option(all, code) {
            Some(v) => gives(all, code, v),
            None => lacks(all, code),
        },
    decreases all.len(),
{
    if all.len() > 0 && all[0].code != code {
        let rest = all.drop_first();
        first_option_is(rest, code);
        match options::first_option(rest, code) {
            Some(v) => {
                let i = choose|i: int|
                    #![trigger rest[i]]
                    0 <= i < rest.len() && rest[i].code == code && rest[i].data == v && (forall|
                        j: int,
                    |
                        0 <= j < i ==> (#[trigger] rest[j]).code != code);
                assert(all[i + 1].code == code);
                assert forall|j: int| 0 <= j < i + 1 implies (#[trigger] all[j]).code != code by {
                    if j > 0 {
                        assert(rest[j - 1].code != code);
                    }
                }
            },
            None => {
                assert forall|j: int| 0 <= j < all.len() implies (#[trigger] all[j]).code
                    != code by {
                    if j > 0 {
                        assert(rest[j - 1].code != code);
                    }
                }
            },
        }
    } else if all.len() > 0 {
        assert(all[0].code == code);
    }
}

/// The value that a code gives is the only one it gives.
proof fn gives_one(all: Seq<OptionView>, code: u8, v: Seq<u8>)
    requires
        gives(all, code, v),
    ensures
        options::first_option(all, code) == Some(v),
{
    first_option_is(all, code);
    let i = choose|i: int|
        #![trigger all[i]]
        0 <= i < all.len() && all[i].code == code && all[i].data == v && (forall|j: int|
            0 <= j < i ==> (#[trigger] all[j]).code != code);
    match options::first_option(all, code) {
        Some(w) => {
            let k = choose|k: int|
                #![trigger all[k]]
                0 <= k < all.len() && all[k].code == code && all[k].data == w && (forall|j: int|
                    0 <= j < k ==> (#[trigger] all[j]).code != code);
            assert(i == k);
        },
        None => {
            assert(all[i].code != code);
        },
    }
}

proof fn lacks_all(all: Seq<OptionView>, code: u8)
    requires
        lacks(all, code),
    ensures
        options::first_option(all, code) is None,
{
    first_option_is(all, code);
}

/// A message has its fields where BOOTP puts them, and a cookie before its
/// options.
pub proof fn message_fields(b: Seq<u8>)
    ensures
        b.len() < 240 ==> packet::message_in(b) == Err::<MessageView, ParseError>(
            ParseError::TooShort(b.len() as usize),
        ),
        b.len() >= 240 && b.subrange(236, 240) != seq![0x63u8, 0x82, 0x53, 0x63]
            ==> packet::message_in(b) == Err::<MessageView, ParseError>(ParseError::BadCookie),
        b.len() >= 240 && b.subrange(236, 240) == seq![0x63u8, 0x82, 0x53, 0x63] ==> (
        packet::message_in(b) is Ok) == (packet::options_in(b.skip(240)) is Ok),
        packet::message_in(b) matches Ok(m) ==> {
            &&& m.op == b[0]
            &&& m.htype == b[1]
            &&& m.hlen == b[2]
            &&& m.hops == b[3]
            &&& m.xid == wire::number(b.subrange(4, 8))
            &&& m.secs == wire::number(b.subrange(8, 10))
            &&& m.flags == wire::number(b.subrange(10, 12))
            &&& m.ciaddr == b.subrange(12, 16)
            &&& m.yiaddr == b.subrange(16, 20)
            &&& m.siaddr == b.subrange(20, 24)
            &&& m.giaddr == b.subrange(24, 28)
            &&& m.chaddr == b.subrange(28, 44)
            &&& packet::options_in(b.skip(240)) == Ok::<Seq<OptionView>, ParseError>(m.options)
        },
{
    let cookie = packet::MAGIC_COOKIE@;
    assert(cookie =~= seq![0x63u8, 0x82, 0x53, 0x63]);
    if b.len() >= 240 {
        wire::be32_at_is_number(b, 4);
        wire::be16_at_is_number(b, 8);
        wire::be16_at_is_number(b, 10);
    }
}

/// Options are a code, a length and as many bytes, one after the other.
pub proof fn options_are_read_one_by_one(code: u8, data: Seq<u8>, rest: Seq<u8>)
    requires
        code != 0,
        code != 255,
        data.len() <= 255,
    ensures
        packet::options_in(Seq::empty()) == Ok::<Seq<OptionView>, ParseError>(Seq::empty()),
        ({
            let b = seq![code, data.len() as u8] + data + rest;
            match packet::options_in(rest) {
                Ok(more) => packet::options_in(b) == Ok::<Seq<OptionView>, ParseError>(
                    seq![OptionView { code, data }] + more,
                ),
                Err(e) => packet::options_in(b) == Err::<Seq<OptionView>, ParseError>(e),
            }
        }),
        forall|k: int|
            0 <= k < data.len() ==> packet::options_in(
                seq![code, data.len() as u8] + #[trigger] data.take(k),
            ) == Err::<Seq<OptionView>, ParseError>(ParseError::TruncatedOption { code }),
{
    let b = seq![code, data.len() as u8] + data + rest;
    assert(b.subrange(2, 2 + b[1]) =~= data);
    assert(b.skip(2 + b[1]) =~= rest);
}

/// A client that says iPXE in its user class is sent to the script with its own
/// address, and needs no server for it; any other is sent the file for its
/// architecture by the server; one of no known architecture is left alone.
pub proof fn plans_follow_the_client(m: MessageView, cfg: BootConfig, v: Seq<u8>, i: int)
    requires
        m.chaddr.len() == 16,
    ensures
        gives(m.options, 77, v) && 0 <= i && i + 4 <= v.len() && v.subrange(i, i + 4) == seq![
            0x69u8, 0x50, 0x58, 0x45,
        ] ==> {
            &&& decide::plan_of(m, cfg) matches Some(p)
            &&& p.next_server is None
            &&& p.bootfile == cfg.http_script_url@ + "?mac="@ + decide::mac_text(
                m.chaddr,
                if m.hlen < 16 {
                    m.hlen as int
                } else {
                    16
                },
            )
        },
        lacks(m.options, 77) && lacks(m.options, 93) ==> decide::plan_of(m, cfg) is None,
        lacks(m.options, 77) && gives(m.options, 93, v) && v.len() < 2 ==> decide::plan_of(
            m,
            cfg,
        ) is None,
        (lacks(m.options, 77) || exists|u: Seq<u8>| #[trigger]
            gives(m.options, 77, u) && forall|j: int|
                0 <= j && j + 4 <= u.len() ==> #[trigger] u.subrange(j, j + 4) != seq![
                    0x69u8, 0x50, 0x58, 0x45,
                ]) && gives(m.options, 93, v) && v.len() >= 2 ==> {
            let arch = wire::number(v.subrange(0, 2));
            let plan = decide::plan_of(m, cfg);
            &&& arch == 0 ==> (plan matches Some(p) && p.bootfile == cfg.bios_filename@
                && p.next_server == Some(cfg.server_ip.octets@))
            &&& arch == 7 || arch == 9 ==> (plan matches Some(p) && p.bootfile
                == cfg.uefi_filename@ && p.next_server == Some(cfg.server_ip.octets@))
            &&& arch != 0 && arch != 7 && arch != 9 ==> plan is None
        },
{
    let word = seq![0x69u8, 0x50, 0x58, 0x45];
    assert(decide::ipxe_letters() =~= word);
    if gives(m.options, 77, v) && 0 <= i && i + 4 <= v.len() && v.subrange(i, i + 4) == word {
        gives_one(m.options, 77, v);
        assert(decide::stands_at(v, decide::ipxe_letters(), i));
        assert(decide::carries(v, decide::ipxe_letters()));
    }
    if lacks(m.options, 77) {
        lacks_all(m.options, 77);
    }
    if lacks(m.options, 93) {
        lacks_all(m.options, 93);
    }
    if exists|u: Seq<u8>| #[trigger]
        gives(m.options, 77, u) && forall|j: int|
            0 <= j && j + 4 <= u.len() ==> #[trigger] u.subrange(j, j + 4) != word {
        let u = choose|u: Seq<u8>| #[trigger]
            gives(m.options, 77, u) && forall|j: int|
                0 <= j && j + 4 <= u.len() ==> #[trigger] u.subrange(j, j + 4) != word;
        gives_one(m.options, 77, u);
        assert(!decide::from_ipxe(m)) by {
            if decide::carries(u, decide::ipxe_letters()) {
                let j = choose|j: int| decide::stands_at(u, decide::ipxe_letters(), j);
                assert(u.subrange(j, j + 4) == word);
            }
        }
    }
    if gives(m.options, 93, v) {
        gives_one(m.options, 93, v);
        if v.len() >= 2 {
            wire::be16_at_is_number(v, 0);
        }
    }
}

/// Every plan offers an address in the server's network: its last octet is
/// picked by the sixth byte of the client's hardware address, and is the one
/// behind it where the server has that itself.
pub proof fn planned_address(m: MessageView, cfg: BootConfig)
    requires
        m.chaddr.len() == 16,
        decide::plan_of(m, cfg) is Some,
    ensures
        ({
            let ip = decide::plan_of(m, cfg)->0.yiaddr;
            let s = cfg.server_ip.octets@;
            let pick = 1 + m.chaddr[5] as int % 254;
            &&& ip.len() == 4
            &&& ip.take(3) == s.take(3)
            &&& s[3] != pick ==> ip[3] == pick
            &&& s[3] == pick ==> ip[3] == if pick == 254 { 1 } else { pick + 1 }
        }),
{
    let ip = decide::plan_of(m, cfg)->0.yiaddr;
    assert(ip.take(3) =~= cfg.server_ip.octets@.take(3));
}

/// An address in text is two lower-case hexadecimal digits for each byte, with a
/// colon between them.
pub proof fn address_in_text(b: Seq<u8>, k: int)
    requires
        1 <= k <= b.len(),
    ensures
        ({
            let s = decide::mac_text(b, k);
            &&& s.len() == 3 * k - 1
            &&& forall|j: int|
                #![trigger b[j]]
                0 <= j < k ==> is_digit_of(s[3 * j], b[j] as int / 16) && is_digit_of(
                    s[3 * j + 1],
                    b[j] as int % 16,
                ) && (j < k - 1 ==> s[3 * j + 2] == ':')
        }),
    decreases k,
{
    let s = decide::mac_text(b, k);
    digits_of(b[k - 1]);
    if k > 1 {
        let front = decide::mac_text(b, k - 1);
        address_in_text(b, k - 1);
        reveal_strlit(":");
        assert forall|j: int|
            #![trigger b[j]]
            0 <= j < k implies is_digit_of(s[3 * j], b[j] as int / 16) && is_digit_of(
            s[3 * j + 1],
            b[j] as int % 16,
        ) && (j < k - 1 ==> s[3 * j + 2] == ':') by {
            if j < k - 1 {
                assert(s[3 * j] == front[3 * j]);
                assert(s[3 * j + 1] == front[3 * j + 1]);
                if j < k - 2 {
                    assert(s[3 * j + 2] == front[3 * j + 2]);
                } else {
                    assert(s[front.len() as int] == ":"@[0]);
                }
            } else {
                assert(s[3 * j] == text::hex2(b[k - 1])[0]);
                assert(s[3 * j + 1] == text::hex2(b[k - 1])[1]);
            }
        }
    }
}

/// `c` is the digit of value `v`: `0` to `9`, then `a` to `f`.
pub open spec fn is_digit_of(c: char, v: int) -> bool {
    ||| 0 <= v < 10 && c as int == 0x30 + v
    ||| 10 <= v < 16 && c as int == 0x61 + (v - 10)
}

proof fn digits_of(b: u8)
    ensures
        text::hex2(b).len() == 2,
        is_digit_of(text::hex2(b)[0], b as int / 16),
        is_digit_of(text::hex2(b)[1], b as int % 16),
{
}

/// What a reply tells the client, by role: the type first; the server's address
/// unless the reply is a proxy's; the class `PXEClient`; the file, and where
/// there is one the server that has it, unless another server boots the client;
/// the vendor's options; and a lease unless the boot server answers.
pub proof fn replies_tell(
    plan: PlanView,
    s: Seq<u8>,
    mtype: u8,
    vendor: Seq<u8>,
    role: Role,
)
    ensures
        ({
            let all = server::reply_options(plan, s, mtype, vendor, role);
            let file = vstd::utf8::encode_utf8(plan.bootfile);
            &&& gives(all, 53, seq![mtype])
            &&& gives(
                all,
                60,
                seq![0x50u8, 0x58, 0x45, 0x43, 0x6c, 0x69, 0x65, 0x6e, 0x74],
            )
            &&& gives(all, 43, vendor)
            &&& role is ProxyDhcp ==> lacks(all, 54)
            &&& !(role is ProxyDhcp) ==> gives(all, 54, s)
            &&& role is Dhcp ==> lacks(all, 67) && lacks(all, 66)
            &&& !(role is Dhcp) ==> gives(all, 67, file)
            &&& !(role is Dhcp) && plan.next_server is None ==> lacks(all, 66)
            &&& !(role is Dhcp) ==> (plan.next_server matches Some(ip) ==> gives(
                all,
                66,
                vstd::utf8::encode_utf8(addr::dotted_text(ip)),
            ))
            &&& role is BootServer ==> lacks(all, 1) && lacks(all, 3) && lacks(all, 6) && lacks(
                all,
                51,
            )
            &&& !(role is BootServer) ==> gives(all, 1, seq![255u8, 255, 255, 0]) && gives(
                all,
                3,
                s,
            ) && gives(all, 6, s) && gives(all, 51, seq![0u8, 0, 0x0e, 0x10])
        }),
{
    let all = server::reply_options(plan, s, mtype, vendor, role);
    let n = all.len() as int;
    let class = seq![0x50u8, 0x58, 0x45, 0x43, 0x6c, 0x69, 0x65, 0x6e, 0x74];
    assert(server::pxe_client() =~= class);
    assert(wire::be32(3600) =~= seq![0u8, 0, 0x0e, 0x10]);
    assert(all[0].code == 53 && all[0].data == seq![mtype]);
    assert(gives(all, 53, seq![mtype]));
    // Where the parts stand.
    let a: int = if role is ProxyDhcp {
        1
    } else {
        2
    };
    let boot: int = if role is Dhcp {
        0
    } else if plan.next_server is Some {
        2
    } else {
        1
    };
    if !(role is ProxyDhcp) {
        assert(all[1].code == 54 && all[1].data == s);
        assert(gives(all, 54, s));
    }
    assert(all[a].code == 60 && all[a].data == class);
    assert(gives(all, 60, class)) by {
        assert forall|j: int| 0 <= j < a implies (#[trigger] all[j]).code != 60 by {}
    }
    if !(role is Dhcp) {
        let file = vstd::utf8::encode_utf8(plan.bootfile);
        assert(all[a + 1].code == 67 && all[a + 1].data == file);
        assert(gives(all, 67, file)) by {
            assert forall|j: int| 0 <= j < a + 1 implies (#[trigger] all[j]).code != 67 by {}
        }
        if let Some(ip) = plan.next_server {
            let name = vstd::utf8::encode_utf8(addr::dotted_text(ip));
            assert(all[a + 2].code == 66 && all[a + 2].data == name);
            assert(gives(all, 66, name)) by {
                assert forall|j: int| 0 <= j < a + 2 implies (#[trigger] all[j]).code != 66 by {}
            }
        }
    }
    let v = a + 1 + boot;
    assert(all[v].code == 43 && all[v].data == vendor);
    assert(gives(all, 43, vendor)) by {
        assert forall|j: int| 0 <= j < v implies (#[trigger] all[j]).code != 43 by {}
    }
    if !(role is BootServer) {
        let mask = seq![255u8, 255, 255, 0];
        assert(all[v + 1].code == 1 && all[v + 1].data == mask);
        assert(all[v + 2].code == 3 && all[v + 2].data == s);
        assert(all[v + 3].code == 6 && all[v + 3].data == s);
        assert(all[v + 4].code == 51 && all[v + 4].data == wire::be32(3600));
        assert(gives(all, 1, mask)) by {
            assert forall|j: int| 0 <= j < v + 1 implies (#[trigger] all[j]).code != 1 by {}
        }
        assert(gives(all, 3, s)) by {
            assert forall|j: int| 0 <= j < v + 2 implies (#[trigger] all[j]).code != 3 by {}
        }
        assert(gives(all, 6, s)) by {
            assert forall|j: int| 0 <= j < v + 3 implies (#[trigger] all[j]).code != 6 by {}
        }
        assert(gives(all, 51, seq![0u8, 0, 0x0e, 0x10])) by {
            assert forall|j: int| 0 <= j < v + 4 implies (#[trigger] all[j]).code != 51 by {}
        }
    }
}

/// Which datagrams are answered: a well-formed message that asks for a lease or
/// an address, and for which there is a plan. The first is offered one, on the
/// DHCP port alone; the second is acknowledged. A client that says `PXEClient`
/// gets the proxy's reply, any other the DHCP server's; on the other port it is
/// the boot server's.
pub proof fn who_is_answered(data: Seq<u8>, cfg: BootConfig, is_port67: bool, t: u8)
    ensures
        packet::message_in(data) is Err ==> server::answer(data, cfg, is_port67) is None,
        packet::message_in(data) matches Ok(m) ==> {
            let a = server::answer(data, cfg, is_port67);
            &&& lacks(m.options, 53) ==> a is None
            &&& decide::plan_of(m, cfg) is None ==> a is None
            &&& gives(m.options, 53, seq![t]) && t != 3 && !(t == 1 && is_port67) ==> a is None
            &&& gives(m.options, 53, seq![t]) && (t == 3 || t == 1 && is_port67)
                && decide::plan_of(m, cfg) is Some ==> {
                let plan = decide::plan_of(m, cfg)->0;
                let reply = if t == 3 {
                    5u8
                } else {
                    2u8
                };
                &&& a matches Some(r)
                &&& r.op == 2
                &&& r.hops == 0
                &&& r.secs == 0
                &&& r.xid == m.xid
                &&& r.htype == m.htype
                &&& r.hlen == m.hlen
                &&& r.flags == m.flags
                &&& r.chaddr == m.chaddr
                &&& r.giaddr == m.giaddr
                &&& r.ciaddr == seq![0u8, 0, 0, 0]
                &&& r.yiaddr == (if is_port67 {
                    plan.yiaddr
                } else {
                    seq![0u8, 0, 0, 0]
                })
                &&& r.siaddr == (match plan.next_server {
                    Some(ip) => ip,
                    None => seq![0u8, 0, 0, 0],
                })
                &&& gives(r.options, 53, seq![reply])
                &&& !is_port67 ==> gives(r.options, 54, cfg.server_ip.octets@) && lacks(
                    r.options,
                    51,
                ) && gives(r.options, 67, vstd::utf8::encode_utf8(plan.bootfile))
                &&& is_port67 && says_pxe(m) ==> lacks(r.options, 54) && gives(
                    r.options,
                    67,
                    vstd::utf8::encode_utf8(plan.bootfile),
                )
                &&& is_port67 && !says_pxe(m) ==> gives(r.options, 54, cfg.server_ip.octets@)
                    && lacks(r.options, 67)
            }
        },
{
    if let Ok(m) = packet::message_in(data) {
        if lacks(m.options, 53) {
            lacks_all(m.options, 53);
        }
        if gives(m.options, 53, seq![t]) {
            gives_one(m.options, 53, seq![t]);
        }
        says_pxe_is(m);
        if let Some(plan) = decide::plan_of(m, cfg) {
            let s = cfg.server_ip.octets@;
            if is_port67 {
                let role = if says_pxe(m) {
                    Role::ProxyDhcp
                } else {
                    Role::Dhcp
                };
                replies_tell(plan, s, 2, options::offer_vendor(s), role);
                replies_tell(plan, s, 5, options::offer_vendor(s), role);
            } else {
                replies_tell(plan, s, 5, options::ack_vendor(), Role::BootServer);
            }
        }
    }
}

/// The vendor class of `m` starts with `PXEClient`.
pub open spec fn says_pxe(m: MessageView) -> bool {
    exists|v: Seq<u8>| #[trigger]
        gives(m.options, 60, v) && v.len() >= 9 && v.take(9) == seq![
            0x50u8, 0x58, 0x45, 0x43, 0x6c, 0x69, 0x65, 0x6e, 0x74,
        ]
}

proof fn says_pxe_is(m: MessageView)
    ensures
        says_pxe(m) == server::from_pxe(m),
{
    let class = seq![0x50u8, 0x58, 0x45, 0x43, 0x6c, 0x69, 0x65, 0x6e, 0x74];
    assert(server::pxe_client() =~= class);
    first_option_is(m.options, 60);
    if says_pxe(m) {
        let v = choose|v: Seq<u8>| #[trigger]
            gives(m.options, 60, v) && v.len() >= 9 && v.take(9) == class;
        gives_one(m.options, 60, v);
        assert(v.subrange(0, 9) =~= v.take(9));
    }
    if server::from_pxe(m) {
        let v = options::first_option(m.options, 60)->0;
        assert(gives(m.options, 60, v));
        assert(v.subrange(0, 9) =~= v.take(9));
    }
}

/// Where a reply goes: to port 67 of the relay that passed the request on; to
/// everybody's port 68 where the client asks for that by the top bit of its
/// flags; and else to where the request came from.
pub proof fn replies_go_to(m: MessageView, from: Endpoint, dest: Endpoint)
    requires
        m.giaddr.len() == 4,
        server::is_reply_dest(m, from, dest),
    ensures
        m.giaddr != seq![0u8, 0, 0, 0] ==> (dest.ip matches IpAddr::V4(ip) && ip.octets@ == m.giaddr
            && dest.port == 67),
        m.giaddr == seq![0u8, 0, 0, 0] && m.flags >= 0x8000 ==> (
        dest.ip matches IpAddr::V4(ip) && ip.octets@ == seq![255u8, 255, 255, 255] && dest.port
            == 68),
        m.giaddr == seq![0u8, 0, 0, 0] && m.flags < 0x8000 ==> dest == from,
{
}

/// A reply on the port of the proxy is broadcast to the clients' port; one on the
/// server's port goes where the request says. What is not answered is dropped.
pub proof fn replies_are_sent(
    data: Seq<u8>,
    cfg: BootConfig,
    is_port67: bool,
    from: Endpoint,
    reply: Option<MessageView>,
    dest: Endpoint,
)
    requires
        server::replies(data, cfg, is_port67, from, reply, dest),
    ensures
        reply == server::answer(data, cfg, is_port67),
        reply is Some && !is_port67 ==> (dest.ip matches IpAddr::V4(ip) && ip.octets@ == seq![
            255u8,
            255,
            255,
            255,
        ] && dest.port == 68),
        reply is Some && is_port67 ==> packet::message_in(data) is Ok && server::is_reply_dest(
            packet::message_in(data)->Ok_0,
            from,
            dest,
        ),
{
}

/// The vendor's options in a reply: an offer lists the server as the only one to
/// ask, type 0, and forbids asking by broadcast or multicast; the boot server
/// names item 0 of its type, layer 0.
pub proof fn vendor_options_lead_to_the_server(data: Seq<u8>, cfg: BootConfig, is_port67: bool)
    ensures
        server::answer(data, cfg, is_port67) matches Some(r) ==> {
            &&& is_port67 ==> gives(
                r.options,
                43,
                seq![6u8, 1, 7, 8, 7, 0, 0, 1] + cfg.server_ip.octets@ + seq![255u8],
            )
            &&& !is_port67 ==> gives(r.options, 43, seq![71u8, 4, 0, 0, 0, 0, 255])
        },
{
    if server::answer(data, cfg, is_port67) is Some {
        let m = packet::message_in(data)->Ok_0;
        let plan = decide::plan_of(m, cfg)->0;
        let s = cfg.server_ip.octets@;
        let mtype = server::answer_type(options::message_type_of(m.options), is_port67)->0;
        if is_port67 {
            assert(options::offer_vendor(s) =~= seq![6u8, 1, 7, 8, 7, 0, 0, 1] + s + seq![255u8]);
            replies_tell(plan, s, mtype, options::offer_vendor(s), Role::ProxyDhcp);
            replies_tell(plan, s, mtype, options::offer_vendor(s), Role::Dhcp);
        } else {
            assert(options::ack_vendor() =~= seq![71u8, 4, 0, 0, 0, 0, 255]);
            replies_tell(plan, s, mtype, options::ack_vendor(), Role::BootServer);
        }
    }
}

} // verus!
