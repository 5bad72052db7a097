//! DHCP option codes, typed access to options, and the PXE vendor-specific
//! sub-options of option 43.
pub mod msg_type;
pub mod pxe;

use vstd::prelude::*;
use super::packet::{DhcpMessage, DhcpOption, OptionView};
use crate::net::addr::Ipv4Addr;
use crate::wire;

verus! {

pub const MSG_TYPE: u8 = 53;
pub const PARAM_REQUEST_LIST: u8 = 55;
pub const SERVER_ID: u8 = 54;
pub const TFTP_SERVER_NAME: u8 = 66;
pub const BOOTFILE_NAME: u8 = 67;
pub const VENDOR_CLASS_ID: u8 = 60;
pub const USER_CLASS: u8 = 77;
pub const CLIENT_SYSTEM_ARCH: u8 = 93;
pub const CLIENT_MACHINE_ID: u8 = 97;
pub const VENDOR_SPECIFIC: u8 = 43;
pub const SUBNET_MASK: u8 = 1;
pub const ROUTER: u8 = 3;
pub const DOMAIN_NAME_SERVER: u8 = 6;
pub const LEASE_TIME: u8 = 51;

/// The value of the first option with `code`.
pub open spec fn first_option(options: Seq<OptionView>, code: u8) -> Option<Seq<u8>>
    decreases options.len(),
{
    if options.len() == 0 {
        None
    } else if options[0].code == code {
        Some(options[0].data)
    } else {
        first_option(options.drop_first(), code)
    }
}

/// Option 53: the first byte of its value.
pub open spec fn message_type_of(options: Seq<OptionView>) -> Option<u8> {
    match first_option(options, MSG_TYPE) {
        Some(d) => if d.len() > 0 {
            Some(d[0])
        } else {
            None
        },
        None => None,
    }
}

/// Option 93: the first two bytes of its value.
pub open spec fn arch_of(options: Seq<OptionView>) -> Option<u16> {
    match first_option(options, CLIENT_SYSTEM_ARCH) {
        Some(d) => if d.len() >= 2 {
            Some(wire::be16_at(d, 0))
        } else {
            None
        },
        None => None,
    }
}

/// `r` is the value of the first option with `code`, if there is one.
pub open spec fn is_option(r: Option<&[u8]>, options: Seq<OptionView>, code: u8) -> bool {
    match r {
        Some(d) => first_option(options, code) == Some(d@),
        None => first_option(options, code) is None,
    }
}

impl DhcpMessage {
    /// Raw value of the first option with `code`, if present.
    pub fn option(&self, code: u8) -> (r: Option<&[u8]>)
        ensures
            is_option(r, self@.options, code),
    {
        let ghost all = self@.options;
        let mut i: usize = 0;
        assert(all.skip(0) =~= all);
        while i < self.options.len()
            invariant
                i <= self.options@.len(),
                all == self@.options,
                first_option(all, code) == first_option(all.skip(i as int), code),
            decreases self.options@.len() - i,
        {
            assert(all[i as int] == self.options@[i as int]@);
            if self.options[i].code == code {
                return Some(self.options[i].data.as_slice());
            }
            assert(all.skip(i as int).drop_first() =~= all.skip(i + 1));
            i += 1;
        }
        None
    }

    /// Option 53 message type.
    pub fn message_type(&self) -> (r: Option<u8>)
        ensures
            r == message_type_of(self@.options),
    {
        match self.option(MSG_TYPE) {
            Some(d) => if d.len() > 0 {
                Some(d[0])
            } else {
                None
            },
            None => None,
        }
    }

    /// Option 60 vendor class identifier.
    pub fn vendor_class(&self) -> (r: Option<&[u8]>)
        ensures
            is_option(r, self@.options, VENDOR_CLASS_ID),
    {
        self.option(VENDOR_CLASS_ID)
    }

    /// Option 93 client system architecture (first 2 bytes, big-endian).
    pub fn client_arch(&self) -> (r: Option<u16>)
        ensures
            r == arch_of(self@.options),
    {
        match self.option(CLIENT_SYSTEM_ARCH) {
            Some(d) => if d.len() >= 2 {
                Some(wire::get_be16(d, 0))
            } else {
                None
            },
            None => None,
        }
    }

    /// Option 77 user class.
    pub fn user_class(&self) -> (r: Option<&[u8]>)
        ensures
            is_option(r, self@.options, USER_CLASS),
    {
        self.option(USER_CLASS)
    }
}

/// The option-43 value of an offer: discovery by the boot-server list alone,
/// and a list of one server of type 0.
pub open spec fn offer_vendor(server: Seq<u8>) -> Seq<u8> {
    seq![pxe::DISCOVERY_CONTROL, 1u8, 7u8, pxe::BOOT_SERVERS, 7u8, 0u8, 0u8, 1u8] + server + seq![
        pxe::END,
    ]
}

/// The option-43 value of an acknowledgement: boot item of type 0, layer 0.
pub open spec fn ack_vendor() -> Seq<u8> {
    seq![pxe::BOOT_ITEM, 4u8, 0u8, 0u8, 0u8, 0u8, pxe::END]
}

/// Option-43 payload of the `:67` proxy OFFER: discovery control + a single
/// boot-server entry pointing the client at our `:4011` service.
pub fn pxe_offer_vendor_opts(server_ip: Ipv4Addr) -> (v: Vec<u8>)
    ensures
        v@ == offer_vendor(server_ip.octets@),
{
    let mut v: Vec<u8> = Vec::new();
    // Disable broadcast + multicast, use the boot-server list only.
    v.push(pxe::DISCOVERY_CONTROL);
    v.push(1);
    v.push(0x07);
    // One entry: server type 0x0000, IP count 1, our IP.
    v.push(pxe::BOOT_SERVERS);
    v.push(7);
    v.push(0);
    v.push(0);
    v.push(1);
    wire::push_bytes(&mut v, &server_ip.octets);
    v.push(pxe::END);
    assert(v@ =~= offer_vendor(server_ip.octets@));
    v
}

/// Option-43 payload of the `:4011` ACK: a single boot item (type 0, layer 0).
pub fn pxe_ack_vendor_opts() -> (v: Vec<u8>)
    ensures
        v@ == ack_vendor(),
{
    let mut v: Vec<u8> = Vec::new();
    v.push(pxe::BOOT_ITEM);
    v.push(4);
    v.push(0);
    v.push(0);
    v.push(0);
    v.push(0);
    v.push(pxe::END);
    assert(v@ =~= ack_vendor());
    v
}

/// One option.
pub fn make_option(code: u8, data: &[u8]) -> (o: DhcpOption)
    ensures
        o@ == (OptionView { code, data: data@ }),
{
    let o = DhcpOption { code, data: wire::sub_vec(data, 0, data.len()) };
    assert(o.data@ =~= data@);
    o
}

} // verus!
