//! Internet addresses.
use vstd::prelude::*;
use crate::text;

verus! {

/// An IPv4 address.
#[derive(Debug, Clone, Copy, PartialEq, Eq)]
pub struct Ipv4Addr {
    pub octets: [u8; 4],
}

impl Ipv4Addr {
    pub fn new(a: u8, b: u8, c: u8, d: u8) -> (ip: Self)
        ensures
            ip.octets@ == seq![a, b, c, d],
    {
        let octets: [u8; 4] = [a, b, c, d];
        assert(octets@ =~= seq![a, b, c, d]);
        Ipv4Addr { octets }
    }

    /// `0.0.0.0`.
    pub fn unspecified() -> (ip: Self)
        ensures
            ip.octets@ == seq![0u8, 0, 0, 0],
    {
        Ipv4Addr::new(0, 0, 0, 0)
    }

    /// The address in dotted decimal.
    pub fn dotted(&self) -> (s: String)
        ensures
            s@ == dotted_text(self.octets@),
    {
        let mut s: String = String::new();
        text::push_decimal(&mut s, self.octets[0] as u64);
        s.append(".");
        text::push_decimal(&mut s, self.octets[1] as u64);
        s.append(".");
        text::push_decimal(&mut s, self.octets[2] as u64);
        s.append(".");
        text::push_decimal(&mut s, self.octets[3] as u64);
        assert(s@ =~= dotted_text(self.octets@));
        s
    }
}

/// Four octets in dotted decimal.
pub open spec fn dotted_text(o: Seq<u8>) -> Seq<char> {
    text::decimal(o[0] as nat) + "."@ + text::decimal(o[1] as nat) + "."@ + text::decimal(
        o[2] as nat,
    ) + "."@ + text::decimal(o[3] as nat)
}

proof fn octet_text(b: u8)
    ensures
        text::decimal(b as nat).len() <= 3,
        vstd::utf8::is_ascii_chars(text::decimal(b as nat)),
{
    reveal_with_fuel(text::decimal, 3);
}

/// An address in dotted decimal takes at most fifteen bytes.
pub proof fn dotted_text_is_short(o: Seq<u8>)
    ensures
        vstd::utf8::encode_utf8(dotted_text(o)).len() <= 15,
{
    octet_text(o[0]);
    octet_text(o[1]);
    octet_text(o[2]);
    octet_text(o[3]);
    reveal_strlit(".");
    assert(vstd::utf8::is_ascii_chars(dotted_text(o)));
    vstd::utf8::is_ascii_chars_encode_utf8(dotted_text(o));
}

/// An IPv4 or IPv6 address.
#[derive(Debug, Clone, Copy, PartialEq, Eq)]
pub enum IpAddr {
    V4(Ipv4Addr),
    V6([u8; 16]),
}

/// An address and a port.
#[derive(Debug, Clone, Copy, PartialEq, Eq)]
pub struct Endpoint {
    pub ip: IpAddr,
    pub port: u16,
}

} // verus!
