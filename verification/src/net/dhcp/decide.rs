//! What to offer a client. `None` means: stay silent.
use vstd::prelude::*;
use super::options;
use super::options::USER_CLASS;
use super::packet::{DhcpMessage, MessageView};
use crate::config::model::BootConfig;
use crate::net::addr::Ipv4Addr;
use crate::text;

verus! {

/// Client system architecture (option 93) codes that are served.
pub const ARCH_BIOS_X86: u16 = 0x0000;
pub const ARCH_UEFI_X64: u16 = 0x0007;
pub const ARCH_UEFI_X64_ALT: u16 = 0x0009;

/// What to put in the reply: the bootfile (option 67), on the firmware arm the
/// next-server IP (siaddr / option 66), and the client's address. A `None`
/// next-server is the iPXE HTTP arm.
#[derive(Debug, PartialEq, Eq)]
pub struct OfferPlan {
    pub bootfile: String,
    pub next_server: Option<Ipv4Addr>,
    pub yiaddr: Ipv4Addr,
}

/// What an `OfferPlan` says.
pub struct PlanView {
    pub bootfile: Seq<char>,
    pub next_server: Option<Seq<u8>>,
    pub yiaddr: Seq<u8>,
}

impl View for OfferPlan {
    type V = PlanView;

    open spec fn view(&self) -> PlanView {
        PlanView {
            bootfile: self.bootfile@,
            next_server: match self.next_server {
                Some(ip) => Some(ip.octets@),
                None => None,
            },
            yiaddr: self.yiaddr.octets@,
        }
    }
}

/// The letters `iPXE`.
pub open spec fn ipxe_letters() -> Seq<u8> {
    seq![0x69u8, 0x50u8, 0x58u8, 0x45u8]
}

/// `word` stands in `b` at `i`.
pub open spec fn stands_at(b: Seq<u8>, word: Seq<u8>, i: int) -> bool {
    0 <= i && i + word.len() <= b.len() && b.subrange(i, i + word.len()) == word
}

/// `word` stands somewhere in `b`.
pub open spec fn carries(b: Seq<u8>, word: Seq<u8>) -> bool {
    exists|i: int| stands_at(b, word, i)
}

/// The user class (option 77) carries `iPXE`, plain or length-prefixed.
pub open spec fn from_ipxe(m: MessageView) -> bool {
    match options::first_option(m.options, USER_CLASS) {
        Some(uc) => carries(uc, ipxe_letters()),
        None => false,
    }
}

/// The first `k` bytes in lower-case hexadecimal, with colons between them.
pub open spec fn mac_text(b: Seq<u8>, k: int) -> Seq<char>
    decreases k,
{
    if k <= 0 {
        Seq::empty()
    } else if k == 1 {
        text::hex2(b[0])
    } else {
        mac_text(b, k - 1) + ":"@ + text::hex2(b[k - 1])
    }
}

/// The number of hardware-address bytes.
pub open spec fn mac_len(m: MessageView) -> int {
    if m.hlen < 16 {
        m.hlen as int
    } else {
        16
    }
}

/// The last octet of a client's address: one that the last byte of its
/// Ethernet address picks, or the next where the server has that one itself.
pub open spec fn offered_host(server: u8, mac_last: u8) -> u8 {
    let h = 1 + mac_last % 254;
    if h == server {
        (h % 254 + 1) as u8
    } else {
        h as u8
    }
}

/// The address that a client is offered, in the network of the server.
pub open spec fn offered_address(server: Seq<u8>, chaddr: Seq<u8>) -> Seq<u8> {
    seq![server[0], server[1], server[2], offered_host(server[3], chaddr[5])]
}

/// The plan for a request.
pub open spec fn plan_of(m: MessageView, cfg: BootConfig) -> Option<PlanView> {
    let server = cfg.server_ip.octets@;
    let yiaddr = offered_address(server, m.chaddr);
    if from_ipxe(m) {
        Some(
            PlanView {
                bootfile: cfg.http_script_url@ + "?mac="@ + mac_text(m.chaddr, mac_len(m)),
                next_server: None,
                yiaddr,
            },
        )
    } else {
        match options::arch_of(m.options) {
            None => None,
            Some(arch) => if arch == ARCH_BIOS_X86 {
                Some(
                    PlanView { bootfile: cfg.bios_filename@, next_server: Some(server), yiaddr },
                )
            } else if arch == ARCH_UEFI_X64 || arch == ARCH_UEFI_X64_ALT {
                Some(
                    PlanView { bootfile: cfg.uefi_filename@, next_server: Some(server), yiaddr },
                )
            } else {
                None
            },
        }
    }
}

/// The address that a client is offered.
fn offer_address(server: &Ipv4Addr, chaddr: &[u8; 16]) -> (ip: Ipv4Addr)
    ensures
        ip.octets@ == offered_address(server.octets@, chaddr@),
{
    let s = &server.octets;
    let h: u8 = 1 + chaddr[5] % 254;
    let host: u8 = if h == s[3] {
        h % 254 + 1
    } else {
        h
    };
    Ipv4Addr::new(s[0], s[1], s[2], host)
}

/// Decide the boot plan for a request. `None` means "stay silent".
pub fn plan(msg: &DhcpMessage, cfg: &BootConfig) -> (r: Option<OfferPlan>)
    ensures
        r matches Some(p) ==> plan_of(msg@, *cfg) == Some(p@),
        r is None ==> plan_of(msg@, *cfg) is None,
{
    let yiaddr = offer_address(&cfg.server_ip, &msg.chaddr);
    // iPXE arm: breaks the chainload loop by handing iPXE the HTTP script
    // instead of the iPXE binary again.
    if is_ipxe(msg) {
        let n: usize = if msg.hlen < 16 {
            msg.hlen as usize
        } else {
            16
        };
        let mut bootfile: String = cfg.http_script_url.clone();
        bootfile.append("?mac=");
        bootfile.append(format_mac(&msg.chaddr, n).as_str());
        return Some(OfferPlan { bootfile, next_server: None, yiaddr });
    }
    // Firmware arm: branch on architecture (option 93).
    match msg.client_arch() {
        None => None,
        Some(arch) => if arch == ARCH_BIOS_X86 {
            Some(
                OfferPlan {
                    bootfile: cfg.bios_filename.clone(),
                    next_server: Some(cfg.server_ip),
                    yiaddr,
                },
            )
        } else if arch == ARCH_UEFI_X64 || arch == ARCH_UEFI_X64_ALT {
            Some(
                OfferPlan {
                    bootfile: cfg.uefi_filename.clone(),
                    next_server: Some(cfg.server_ip),
                    yiaddr,
                },
            )
        } else {
            None
        },
    }
}

/// True if the user-class option carries "iPXE" (plain or RFC-3004 length-prefixed).
fn is_ipxe(msg: &DhcpMessage) -> (r: bool)
    ensures
        r == from_ipxe(msg@),
{
    let uc = match msg.user_class() {
        Some(uc) => uc,
        None => return false,
    };
    let n: usize = uc.len();
    let mut i: usize = 0;
    while n - i >= 4
        invariant
            i <= n,
            n == uc@.len(),
            options::first_option(msg@.options, USER_CLASS) == Some(uc@),
            forall|j: int| 0 <= j < i ==> !stands_at(uc@, ipxe_letters(), j),
        decreases n - i,
    {
        if uc[i] == 0x69 && uc[i + 1] == 0x50 && uc[i + 2] == 0x58 && uc[i + 3] == 0x45 {
            assert(uc@.subrange(i as int, i + 4) =~= ipxe_letters());
            assert(stands_at(uc@, ipxe_letters(), i as int));
            assert(carries(uc@, ipxe_letters()));
            return true;
        }
        assert(!stands_at(uc@, ipxe_letters(), i as int)) by {
            if stands_at(uc@, ipxe_letters(), i as int) {
                let w = uc@.subrange(i as int, i + 4);
                assert(w[0] == 0x69 && w[1] == 0x50 && w[2] == 0x58 && w[3] == 0x45);
            }
        }
        i += 1;
    }
    false
}

/// Lower-case colon-separated MAC from the leading hardware-address bytes.
fn format_mac(bytes: &[u8; 16], n: usize) -> (s: String)
    requires
        n <= 16,
    ensures
        s@ == mac_text(bytes@, n as int),
{
    let mut s: String = String::new();
    let mut i: usize = 0;
    while i < n
        invariant
            i <= n <= 16,
            s@ == mac_text(bytes@, i as int),
        decreases n - i,
    {
        if i > 0 {
            s.append(":");
        }
        text::push_hex2(&mut s, bytes[i]);
        i += 1;
        assert(s@ =~= mac_text(bytes@, i as int));
    }
    s
}

/// An offered address is a host address in the server's /24 network: neither
/// the network, nor the broadcast address, nor the server's own.
pub proof fn offered_address_is_free_of_the_server(server: Seq<u8>, chaddr: Seq<u8>)
    requires
        server.len() == 4,
        chaddr.len() == 16,
    ensures
        offered_address(server, chaddr).len() == 4,
        offered_address(server, chaddr).take(3) == server.take(3),
        1 <= offered_address(server, chaddr)[3] <= 254,
        offered_address(server, chaddr) != server,
{
    let ip = offered_address(server, chaddr);
    assert(ip.take(3) =~= server.take(3));
    assert(ip[3] != server[3]);
}

/// iPXE is sent on to the HTTP script and never to a boot file again, whatever
/// architecture it claims: the chain of boot loaders ends.
pub proof fn ipxe_gets_the_script(m: MessageView, cfg: BootConfig)
    requires
        from_ipxe(m),
    ensures
        plan_of(m, cfg) matches Some(p) && p.next_server is None && p.bootfile
            == cfg.http_script_url@ + "?mac="@ + mac_text(m.chaddr, mac_len(m)),
{
}

} // verus!
