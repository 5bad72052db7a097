//! DHCP packets, options, plans and replies.
use xboot_core::config::BootConfig;
use xboot_core::net::addr::{Endpoint, IpAddr, Ipv4Addr};
use xboot_core::net::dhcp::decide::plan;
use xboot_core::net::dhcp::options::{
    msg_type, pxe, pxe_ack_vendor_opts, pxe_offer_vendor_opts, BOOTFILE_NAME, CLIENT_SYSTEM_ARCH,
    LEASE_TIME, MSG_TYPE, SERVER_ID, TFTP_SERVER_NAME, USER_CLASS, VENDOR_CLASS_ID,
    VENDOR_SPECIFIC,
};
use xboot_core::net::dhcp::packet::{
    encode, parse, DhcpMessage, DhcpOption, ParseError, BOOTREPLY, BOOTREQUEST, MAGIC_COOKIE,
};
use xboot_core::net::dhcp::server::{build_reply, handle_datagram, Role};

fn boot_cfg() -> BootConfig {
    BootConfig {
        server_ip: Ipv4Addr::new(192, 168, 1, 10),
        bind: IpAddr::V4(Ipv4Addr::unspecified()),
        http_bind: IpAddr::V4(Ipv4Addr::unspecified()),
        http_port: 80,
        iscsi_port: 3260,
        tftp_root: "/tmp".into(),
        bios_filename: "undionly.kpxe".to_string(),
        uefi_filename: "ipxe.efi".to_string(),
        http_script_url: "http://192.168.1.10/boot.ipxe".to_string(),
    }
}

fn msg(options: Vec<DhcpOption>) -> DhcpMessage {
    DhcpMessage {
        op: 1,
        htype: 1,
        hlen: 6,
        hops: 0,
        xid: 1,
        secs: 0,
        flags: 0,
        ciaddr: Ipv4Addr::unspecified(),
        yiaddr: Ipv4Addr::unspecified(),
        siaddr: Ipv4Addr::unspecified(),
        giaddr: Ipv4Addr::unspecified(),
        chaddr: [
            0xAA, 0xBB, 0xCC, 0xDD, 0xEE, 0x01, 0, 0, 0, 0, 0, 0, 0, 0, 0, 0,
        ],
        options,
    }
}

#[test]
fn typed_accessors() {
    let m = msg(vec![
        DhcpOption {
            code: MSG_TYPE,
            data: vec![msg_type::DISCOVER],
        },
        DhcpOption {
            code: VENDOR_CLASS_ID,
            data: b"PXEClient:Arch:00007".to_vec(),
        },
        DhcpOption {
            code: CLIENT_SYSTEM_ARCH,
            data: vec![0x00, 0x07],
        },
        DhcpOption {
            code: USER_CLASS,
            data: b"iPXE".to_vec(),
        },
    ]);
    assert_eq!(m.message_type(), Some(msg_type::DISCOVER));
    assert_eq!(m.vendor_class(), Some(b"PXEClient:Arch:00007".as_ref()));
    assert_eq!(m.client_arch(), Some(0x0007));
    assert_eq!(m.user_class(), Some(b"iPXE".as_ref()));
}

#[test]
fn missing_and_short_options_are_none() {
    let m = msg(vec![DhcpOption {
        code: CLIENT_SYSTEM_ARCH,
        data: vec![0x00],
    }]);
    assert_eq!(m.message_type(), None);
    assert_eq!(m.client_arch(), None); // 1 byte is too short for u16
}

#[test]
fn pxe_offer_vendor_opts_layout() {
    let v = pxe_offer_vendor_opts(Ipv4Addr::new(192, 168, 1, 10));
    // sub-opt 6 (discovery control), len 1, value 0x07
    assert_eq!(&v[0..3], &[pxe::DISCOVERY_CONTROL, 1, 0x07]);
    // sub-opt 8 (boot servers), len 7, type 0x0000, count 1, IP
    assert_eq!(v[3], pxe::BOOT_SERVERS);
    assert_eq!(v[4], 7);
    assert_eq!(&v[5..7], &[0x00, 0x00]);
    assert_eq!(v[7], 1);
    assert_eq!(&v[8..12], &[192, 168, 1, 10]);
    assert_eq!(*v.last().unwrap(), pxe::END);
}

#[test]
fn pxe_ack_vendor_opts_layout() {
    let v = pxe_ack_vendor_opts();
    // sub-opt 71 (boot item), len 4, type 0x0000, layer 0x0000
    assert_eq!(&v[0..6], &[pxe::BOOT_ITEM, 4, 0x00, 0x00, 0x00, 0x00]);
    assert_eq!(*v.last().unwrap(), pxe::END);
}

#[test]
fn bios_arch_gets_bios_filename() {
    let m = msg(vec![DhcpOption {
        code: CLIENT_SYSTEM_ARCH,
        data: vec![0x00, 0x00],
    }]);
    let plan = plan(&m, &boot_cfg()).unwrap();
    assert_eq!(plan.bootfile, "undionly.kpxe");
    assert_eq!(plan.next_server, Some(Ipv4Addr::new(192, 168, 1, 10)));
}

#[test]
fn uefi_arch_gets_uefi_filename() {
    for arch in [[0x00, 0x07], [0x00, 0x09]] {
        let m = msg(vec![DhcpOption {
            code: CLIENT_SYSTEM_ARCH,
            data: arch.to_vec(),
        }]);
        let plan = plan(&m, &boot_cfg()).unwrap();
        assert_eq!(plan.bootfile, "ipxe.efi");
        assert_eq!(plan.next_server, Some(Ipv4Addr::new(192, 168, 1, 10)));
    }
}

#[test]
fn ipxe_user_class_gets_http_url_with_mac() {
    let m = msg(vec![
        DhcpOption {
            code: USER_CLASS,
            data: b"iPXE".to_vec(),
        },
        DhcpOption {
            code: CLIENT_SYSTEM_ARCH,
            data: vec![0x00, 0x07],
        },
    ]);
    let plan = plan(&m, &boot_cfg()).unwrap();
    assert_eq!(
        plan.bootfile,
        "http://192.168.1.10/boot.ipxe?mac=aa:bb:cc:dd:ee:01"
    );
    assert_eq!(plan.next_server, None);
}

#[test]
fn unknown_arch_is_none() {
    let m = msg(vec![DhcpOption {
        code: CLIENT_SYSTEM_ARCH,
        data: vec![0x00, 0x42],
    }]);
    assert_eq!(plan(&m, &boot_cfg()), None);
}

#[test]
fn no_arch_no_ipxe_is_none() {
    let m = msg(vec![]);
    assert_eq!(plan(&m, &boot_cfg()), None);
}

#[test]
fn ipxe_rfc3004_length_prefixed_user_class() {
    // RFC 3004 encodes user-class as length-prefixed strings: \x04iPXE
    let m = msg(vec![
        DhcpOption {
            code: USER_CLASS,
            data: b"\x04iPXE".to_vec(),
        },
        DhcpOption {
            code: CLIENT_SYSTEM_ARCH,
            data: vec![0x00, 0x07],
        },
    ]);
    let plan = plan(&m, &boot_cfg()).unwrap();
    assert!(plan.bootfile.starts_with("http://"));
    assert_eq!(plan.next_server, None);
}

fn sample() -> DhcpMessage {
    DhcpMessage {
        op: BOOTREQUEST,
        htype: 1,
        hlen: 6,
        hops: 0,
        xid: 0xDEAD_BEEF,
        secs: 0,
        flags: 0x8000,
        ciaddr: Ipv4Addr::unspecified(),
        yiaddr: Ipv4Addr::unspecified(),
        siaddr: Ipv4Addr::unspecified(),
        giaddr: Ipv4Addr::new(10, 0, 0, 1),
        chaddr: [
            0xAA, 0xBB, 0xCC, 0xDD, 0xEE, 0x01, 0, 0, 0, 0, 0, 0, 0, 0, 0, 0,
        ],
        options: vec![
            DhcpOption {
                code: 53,
                data: vec![1],
            },
            DhcpOption {
                code: 60,
                data: b"PXEClient".to_vec(),
            },
        ],
    }
}

#[test]
fn round_trip_message() {
    let msg = sample();
    let bytes = encode(&msg);
    let parsed = parse(&bytes).unwrap();
    assert_eq!(parsed, msg);
}

#[test]
fn rejects_short_packet() {
    assert_eq!(parse(&[0u8; 10]), Err(ParseError::TooShort(10)));
}

#[test]
fn packet_rejects_bad_cookie() {
    let mut bytes = encode(&sample());
    bytes[236] = 0; // corrupt the magic cookie
    assert_eq!(parse(&bytes), Err(ParseError::BadCookie));
}

#[test]
fn rejects_truncated_option() {
    let mut bytes = encode(&sample());
    // Append an option claiming 5 bytes but supplying none.
    bytes.truncate(240);
    bytes.extend_from_slice(&[99, 5]); // code 99, len 5, no data
    assert_eq!(parse(&bytes), Err(ParseError::TruncatedOption { code: 99 }));
}

#[test]
fn skips_pad_and_stops_at_end() {
    let mut bytes = vec![0u8; 240];
    bytes[0] = BOOTREQUEST;
    bytes[236..240].copy_from_slice(&MAGIC_COOKIE);
    bytes.extend_from_slice(&[0, 0, 53, 1, 1, 255, 0, 0]); // PADs, opt53=DISCOVER, END, trailing
    let parsed = parse(&bytes).unwrap();
    assert_eq!(
        parsed.options,
        vec![DhcpOption {
            code: 53,
            data: vec![1]
        }]
    );
}


/// PADs anywhere, and anything behind END, leave the options as they are, and
/// neither is an option.
#[test]
fn pads_and_what_follows_end_do_not_count() {
    let options = |raw: &[u8]| {
        let mut bytes = vec![0u8; 240];
        bytes[0] = BOOTREQUEST;
        bytes[236..240].copy_from_slice(&MAGIC_COOKIE);
        bytes.extend_from_slice(raw);
        parse(&bytes).map(|m| m.options)
    };
    let plain = options(&[53, 1, 1, 54, 2, 7, 8]).unwrap();
    assert_eq!(plain.len(), 2);
    assert_eq!(options(&[0, 53, 1, 1, 0, 0, 54, 2, 7, 8, 0]).unwrap(), plain);
    assert_eq!(options(&[53, 1, 1, 54, 2, 7, 8, 255]).unwrap(), plain);
    // Not even a truncated option counts behind END.
    assert_eq!(options(&[53, 1, 1, 54, 2, 7, 8, 255, 12, 200, 1]).unwrap(), plain);
    assert!(options(&[53, 1, 1, 54, 2, 7, 8, 12, 200, 1]).is_err());
    assert!(options(&[0, 255, 0]).unwrap().is_empty());
}

fn discover(arch: Option<[u8; 2]>) -> Vec<u8> {
    let mut options = vec![
        DhcpOption {
            code: MSG_TYPE,
            data: vec![msg_type::DISCOVER],
        },
        DhcpOption {
            code: VENDOR_CLASS_ID,
            data: b"PXEClient".to_vec(),
        },
    ];
    if let Some(a) = arch {
        options.push(DhcpOption {
            code: CLIENT_SYSTEM_ARCH,
            data: a.to_vec(),
        });
    }
    encode(&DhcpMessage {
        op: 1,
        htype: 1,
        hlen: 6,
        hops: 0,
        xid: 0x1234,
        secs: 0,
        flags: 0,
        ciaddr: Ipv4Addr::unspecified(),
        yiaddr: Ipv4Addr::unspecified(),
        siaddr: Ipv4Addr::unspecified(),
        giaddr: Ipv4Addr::unspecified(),
        chaddr: [
            0xAA, 0xBB, 0xCC, 0xDD, 0xEE, 0x01, 0, 0, 0, 0, 0, 0, 0, 0, 0, 0,
        ],
        options,
    })
}

#[test]
fn proxy_dhcp_has_ip_boot_info_no_server_id() {
    let cfg = boot_cfg();
    let req = parse(&discover(Some([0x00, 0x00]))).unwrap();
    let plan = plan(&req, &cfg).unwrap();
    let reply = build_reply(
        &req,
        &plan,
        &cfg,
        msg_type::OFFER,
        pxe_offer_vendor_opts(cfg.server_ip),
        Role::ProxyDhcp,
    );
    assert_ne!(reply.yiaddr, Ipv4Addr::unspecified()); // proxyDHCP also assigns IP
    assert_eq!(reply.option(SERVER_ID), None); // no Server ID (identifies as proxyDHCP)
    assert_eq!(
        reply.option(BOOTFILE_NAME),
        Some(b"undionly.kpxe".as_ref())
    ); // has boot file
    // Should also have DHCP options
    assert_eq!(reply.option(1), Some([255, 255, 255, 0].as_ref())); // Subnet Mask
    assert_eq!(reply.option(3), Some([192, 168, 1, 10].as_ref())); // Gateway
}

#[test]
fn dhcp_has_ip_and_gateway() {
    let cfg = boot_cfg();
    let req = parse(&discover(Some([0x00, 0x00]))).unwrap();
    let plan = plan(&req, &cfg).unwrap();
    let reply = build_reply(
        &req,
        &plan,
        &cfg,
        msg_type::OFFER,
        pxe_offer_vendor_opts(cfg.server_ip),
        Role::Dhcp,
    );
    assert_ne!(reply.yiaddr, Ipv4Addr::unspecified()); // has IP
    assert_eq!(
        reply.option(SERVER_ID),
        Some([192, 168, 1, 10].as_ref())
    ); // has Server ID
    assert_eq!(reply.option(1), Some([255, 255, 255, 0].as_ref())); // Subnet Mask
    assert_eq!(reply.option(3), Some([192, 168, 1, 10].as_ref())); // Gateway
}

/// Any bytes parse to a message or an error.
#[test]
fn parse_never_panics() {
    let mut x: u32 = 7;
    for len in 0..600usize {
        let mut bytes = vec![0u8; len];
        for b in bytes.iter_mut() {
            x = x.wrapping_mul(1664525).wrapping_add(1013904223);
            *b = (x >> 24) as u8;
        }
        if len >= 240 {
            bytes[236..240].copy_from_slice(&MAGIC_COOKIE);
        }
        let _ = parse(&bytes);
    }
}

#[test]
fn parse_errors_in_words() {
    assert_eq!(ParseError::TooShort(10).message(), "packet too short: 10 bytes");
    assert_eq!(ParseError::BadCookie.message(), "bad magic cookie");
    assert_eq!(ParseError::TruncatedOption { code: 99 }.message(), "truncated option (code 99)");
}

// --- Answers ---

fn from() -> Endpoint {
    Endpoint { ip: IpAddr::V4(Ipv4Addr::new(192, 168, 1, 77)), port: 68 }
}

fn broadcast() -> Endpoint {
    Endpoint { ip: IpAddr::V4(Ipv4Addr::new(255, 255, 255, 255)), port: 68 }
}

fn opt(code: u8, data: &[u8]) -> DhcpOption {
    DhcpOption { code, data: data.to_vec() }
}

#[test]
fn a_pxe_discover_gets_a_proxy_offer() {
    let (reply, dest) =
        handle_datagram(&discover(Some([0x00, 0x07])), &boot_cfg(), true, from()).unwrap();
    assert_eq!(reply.op, BOOTREPLY);
    assert_eq!(reply.xid, 0x1234);
    assert_eq!(reply.message_type(), Some(msg_type::OFFER));
    assert_eq!(reply.option(SERVER_ID), None);
    assert_eq!(reply.option(BOOTFILE_NAME), Some(b"ipxe.efi".as_ref()));
    assert_eq!(reply.option(TFTP_SERVER_NAME), Some(b"192.168.1.10".as_ref()));
    assert_eq!(reply.option(LEASE_TIME), Some([0, 0, 14, 16].as_ref()));
    assert_eq!(reply.yiaddr, Ipv4Addr::new(192, 168, 1, 2));
    assert_eq!(reply.siaddr, Ipv4Addr::new(192, 168, 1, 10));
    assert_eq!(dest, from());
    // The reply survives the wire.
    assert_eq!(parse(&encode(&reply)).unwrap(), reply);
}

#[test]
fn the_boot_server_answers_requests_alone() {
    let discover = encode(&msg(vec![opt(MSG_TYPE, &[1]), opt(CLIENT_SYSTEM_ARCH, &[0, 0])]));
    assert!(handle_datagram(&discover, &boot_cfg(), false, from()).is_none());
    let request = encode(&msg(vec![opt(MSG_TYPE, &[3]), opt(CLIENT_SYSTEM_ARCH, &[0, 0])]));
    let (reply, dest) = handle_datagram(&request, &boot_cfg(), false, from()).unwrap();
    assert_eq!(reply.message_type(), Some(msg_type::ACK));
    assert_eq!(reply.option(SERVER_ID), Some([192, 168, 1, 10].as_ref()));
    assert_eq!(reply.option(VENDOR_SPECIFIC), Some(&pxe_ack_vendor_opts()[..]));
    assert_eq!(reply.yiaddr, Ipv4Addr::unspecified());
    assert_eq!(dest, broadcast());
}

#[test]
fn replies_go_to_the_relay_or_by_broadcast() {
    let mut m = msg(vec![opt(MSG_TYPE, &[3]), opt(CLIENT_SYSTEM_ARCH, &[0, 0])]);
    m.flags = 0x8000;
    let (reply, dest) = handle_datagram(&encode(&m), &boot_cfg(), true, from()).unwrap();
    assert_eq!(dest, broadcast());
    // No PXE client: a plain lease, without boot information.
    assert_eq!(reply.option(BOOTFILE_NAME), None);
    assert_eq!(reply.option(SERVER_ID), Some([192, 168, 1, 10].as_ref()));
    m.giaddr = Ipv4Addr::new(10, 0, 0, 1);
    let (_, dest) = handle_datagram(&encode(&m), &boot_cfg(), true, from()).unwrap();
    assert_eq!(dest, Endpoint { ip: IpAddr::V4(Ipv4Addr::new(10, 0, 0, 1)), port: 67 });
}

#[test]
fn what_is_not_served_is_dropped() {
    assert!(handle_datagram(&[0u8; 10], &boot_cfg(), true, from()).is_none());
    assert!(handle_datagram(&discover(Some([0x00, 0x42])), &boot_cfg(), true, from()).is_none());
    let inform = encode(&msg(vec![opt(MSG_TYPE, &[8]), opt(CLIENT_SYSTEM_ARCH, &[0, 0])]));
    assert!(handle_datagram(&inform, &boot_cfg(), true, from()).is_none());
}

/// No client is offered the server's own address, the network's or the
/// broadcast address.
#[test]
fn offered_addresses_are_host_addresses() {
    for last in 0..=255u8 {
        for server in [0u8, 1, 10, 254, 255] {
            let mut cfg = boot_cfg();
            cfg.server_ip = Ipv4Addr::new(192, 168, 1, server);
            let mut m = msg(vec![opt(CLIENT_SYSTEM_ARCH, &[0, 0])]);
            m.chaddr[5] = last;
            let ip = plan(&m, &cfg).unwrap().yiaddr.octets;
            assert_eq!(&ip[..3], &[192, 168, 1]);
            assert!(ip[3] >= 1 && ip[3] <= 254 && ip[3] != server);
        }
    }
}
