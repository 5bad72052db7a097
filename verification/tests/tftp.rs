//! TFTP packets and transfers.
use xboot_core::net::addr::{IpAddr, Ipv4Addr};
use xboot_core::net::path::is_inside;
use xboot_core::net::tftp::packet::{
    encode_data, encode_error, encode_oack, is_safe_path, parse, Packet, ParseError,
};
use xboot_core::net::tftp::server::{
    handle_request, lookup_error, negotiate_blksize, Event, Lookup, Opening, Step, TftpServer,
    Transfer,
};

#[test]
fn parse_rrq_no_options() {
    let mut buf = vec![0x00, 0x01]; // opcode RRQ
    buf.extend(b"undionly.kpxe\0");
    buf.extend(b"octet\0");
    let pkt = parse(&buf).unwrap();
    assert_eq!(
        pkt,
        Packet::Rrq {
            filename: "undionly.kpxe".into(),
            mode: "octet".into(),
            options: vec![],
        }
    );
}

#[test]
fn parse_rrq_with_blksize() {
    let mut buf = vec![0x00, 0x01];
    buf.extend(b"ipxe.efi\0");
    buf.extend(b"octet\0");
    buf.extend(b"blksize\0");
    buf.extend(b"1468\0");
    let pkt = parse(&buf).unwrap();
    assert_eq!(
        pkt,
        Packet::Rrq {
            filename: "ipxe.efi".into(),
            mode: "octet".into(),
            options: vec![("blksize".into(), "1468".into())],
        }
    );
}

#[test]
fn parse_rrq_with_tsize() {
    let mut buf = vec![0x00, 0x01];
    buf.extend(b"boot.kpxe\0");
    buf.extend(b"octet\0");
    buf.extend(b"tsize\0");
    buf.extend(b"0\0");
    let pkt = parse(&buf).unwrap();
    assert_eq!(
        pkt,
        Packet::Rrq {
            filename: "boot.kpxe".into(),
            mode: "octet".into(),
            options: vec![("tsize".into(), "0".into())],
        }
    );
}

#[test]
fn parse_rrq_multiple_options() {
    let mut buf = vec![0x00, 0x01];
    buf.extend(b"file\0");
    buf.extend(b"octet\0");
    buf.extend(b"blksize\0");
    buf.extend(b"1468\0");
    buf.extend(b"tsize\0");
    buf.extend(b"0\0");
    buf.extend(b"timeout\0");
    buf.extend(b"5\0");
    let pkt = parse(&buf).unwrap();
    assert_eq!(
        pkt,
        Packet::Rrq {
            filename: "file".into(),
            mode: "octet".into(),
            options: vec![
                ("blksize".into(), "1468".into()),
                ("tsize".into(), "0".into()),
                ("timeout".into(), "5".into()),
            ],
        }
    );
}

// --- WRQ ---

#[test]
fn parse_wrq() {
    let mut buf = vec![0x00, 0x02];
    buf.extend(b"write.me\0");
    buf.extend(b"octet\0");
    let pkt = parse(&buf).unwrap();
    assert_eq!(
        pkt,
        Packet::Wrq {
            filename: "write.me".into(),
            mode: "octet".into(),
        }
    );
}

// --- ACK ---

#[test]
fn parse_ack() {
    let buf = [0x00, 0x04, 0x00, 0x01]; // ACK block 1
    let pkt = parse(&buf).unwrap();
    assert_eq!(pkt, Packet::Ack { block: 1 });
}

#[test]
fn parse_ack_zero() {
    let buf = [0x00, 0x04, 0x00, 0x00]; // ACK block 0 (OACK accept)
    let pkt = parse(&buf).unwrap();
    assert_eq!(pkt, Packet::Ack { block: 0 });
}

#[test]
fn parse_ack_max_block() {
    let buf = [0x00, 0x04, 0xFF, 0xFF]; // ACK block 65535
    let pkt = parse(&buf).unwrap();
    assert_eq!(pkt, Packet::Ack { block: 65535 });
}

// --- ERROR ---

#[test]
fn parse_error() {
    let mut buf = vec![0x00, 0x05, 0x00, 0x01]; // ERROR code 1
    buf.extend(b"File not found\0");
    let pkt = parse(&buf).unwrap();
    assert_eq!(
        pkt,
        Packet::Error {
            code: 1,
            message: "File not found".into(),
        }
    );
}

// --- Rejections ---

#[test]
fn reject_too_short() {
    assert!(matches!(parse(&[0x00]), Err(ParseError::TooShort)));
}

#[test]
fn reject_unknown_opcode() {
    let buf = [0x00, 0xFF, 0x00];
    assert!(matches!(parse(&buf), Err(ParseError::UnknownOpcode(0xFF))));
}

#[test]
fn reject_rrq_missing_mode_null() {
    let mut buf = vec![0x00, 0x01];
    buf.extend(b"file\0");
    buf.extend(b"octet"); // no trailing null
    assert!(matches!(parse(&buf), Err(ParseError::MissingNull)));
}

#[test]
fn reject_rrq_empty_filename() {
    let buf = [0x00, 0x01, 0x00, b'o', b'c', b't', b'e', b't', 0x00];
    assert!(matches!(parse(&buf), Err(ParseError::EmptyField)));
}

#[test]
fn reject_ack_bad_length() {
    let buf = [0x00, 0x04, 0x00]; // 3 bytes: opcode + one payload byte
    assert!(matches!(parse(&buf), Err(ParseError::BadAckLength(3))));
}

#[test]
fn reject_ack_too_long() {
    let buf = [0x00, 0x04, 0x00, 0x01, 0xFF]; // 5 bytes
    assert!(matches!(parse(&buf), Err(ParseError::BadAckLength(5))));
}

// --- Encoder tests ---

#[test]
fn encode_data_block() {
    let data = vec![0xAA; 512];
    let pkt = encode_data(1, &data);
    assert_eq!(&pkt[0..2], &[0x00, 0x03]); // opcode DATA
    assert_eq!(&pkt[2..4], &[0x00, 0x01]); // block 1
    assert_eq!(&pkt[4..], &data[..]); // payload
    assert_eq!(pkt.len(), 4 + 512);
}

#[test]
fn encode_data_last_block() {
    // Last block is < 512 bytes
    let data = vec![0xBB; 100];
    let pkt = encode_data(42, &data);
    assert_eq!(&pkt[0..2], &[0x00, 0x03]);
    assert_eq!(&pkt[2..4], &[0x00, 0x2A]); // block 42 = 0x002A
    assert_eq!(pkt.len(), 4 + 100);
}

#[test]
fn encode_data_block_65535() {
    let pkt = encode_data(65535, b"x");
    assert_eq!(&pkt[0..2], &[0x00, 0x03]);
    assert_eq!(&pkt[2..4], &[0xFF, 0xFF]); // max block number
}

#[test]
fn encode_oack_with_options() {
    let opts = vec![
        ("blksize".to_string(), "1468".to_string()),
        ("tsize".to_string(), "284672".to_string()),
    ];
    let pkt = encode_oack(&opts);
    assert_eq!(&pkt[0..2], &[0x00, 0x06]); // opcode OACK
    let rest = &pkt[2..];
    // Null-terminated key-value pairs
    let expected = b"blksize\x001468\x00tsize\x00284672\x00";
    assert_eq!(rest, expected);
}

#[test]
fn encode_oack_empty_options() {
    let pkt = encode_oack(&[]);
    assert_eq!(&pkt[0..2], &[0x00, 0x06]);
    assert_eq!(pkt.len(), 2); // just the opcode
}

#[test]
fn encode_error_test() {
    let pkt = encode_error(1, "File not found");
    assert_eq!(&pkt[0..2], &[0x00, 0x05]); // opcode ERROR
    assert_eq!(&pkt[2..4], &[0x00, 0x01]); // code 1
    assert_eq!(&pkt[4..], b"File not found\0");
}

// --- Path safety tests ---

#[test]
fn safe_relative_path() {
    assert!(is_safe_path("undionly.kpxe"));
    assert!(is_safe_path("subdir/ipxe.efi"));
    assert!(is_safe_path("a/b/c/file.bin"));
}

#[test]
fn reject_absolute_unix_path() {
    assert!(!is_safe_path("/etc/passwd"));
    assert!(!is_safe_path("/srv/xboot/file"));
}

#[test]
fn reject_parent_traversal() {
    assert!(!is_safe_path("../secret"));
    assert!(!is_safe_path("subdir/../../etc/passwd"));
    assert!(!is_safe_path(".."));
}

#[test]
fn reject_absolute_windows_path() {
    assert!(!is_safe_path("\\Windows\\secret"));
    assert!(!is_safe_path("D:\\xboot\\file"));
}

#[test]
fn reject_current_dir_segments() {
    // "." components are unnecessary for our use case and risky
    assert!(!is_safe_path("./file"));
    assert!(!is_safe_path("subdir/./file"));
}

// --- Transfers ---

fn server() -> TftpServer {
    TftpServer::new(IpAddr::V4(Ipv4Addr::new(127, 0, 0, 1)), "/srv/tftp")
}

/// The file name and options of a read request that is served.
fn opened(datagram: &[u8]) -> (String, Vec<(String, String)>) {
    match handle_request(datagram) {
        Opening::Read { filename, options } => (filename, options),
        other => panic!("{other:?}"),
    }
}

fn sent(step: Step) -> (Vec<u8>, u64) {
    match step {
        Step::Send { packet, wait } => (packet, wait),
        other => panic!("{other:?}"),
    }
}

fn ack(block: u16) -> Event {
    let b = block.to_be_bytes();
    Event::Datagram(vec![0x00, 0x04, b[0], b[1]])
}

#[test]
fn full_transfer_no_options() {
    let file_data = vec![0xAB; 1000]; // just under 2 blocks of 512
    let mut rrq = vec![0x00, 0x01];
    rrq.extend(b"test.bin\0");
    rrq.extend(b"octet\0");
    let (name, options) = opened(&rrq);
    assert_eq!(name, "test.bin");
    let (mut t, first) = Transfer::start(&server(), file_data.clone(), &options);

    // DATA block 1
    let (p, wait) = sent(first);
    assert_eq!(&p[0..2], &[0x00, 0x03]); // DATA opcode
    assert_eq!(&p[2..4], &[0x00, 0x01]); // block 1
    assert_eq!(&p[4..], &file_data[..512]);
    assert_eq!(wait, 1000);

    // DATA block 2 (partial = last)
    let (p, _) = sent(t.react(&ack(1)));
    assert_eq!(&p[0..2], &[0x00, 0x03]); // DATA
    assert_eq!(&p[2..4], &[0x00, 0x02]); // block 2
    assert_eq!(&p[4..], &file_data[512..]); // remaining 488 bytes
    assert!(p.len() - 4 < 512, "last block must be < 512 bytes");

    assert!(matches!(t.react(&ack(2)), Step::Stop));
    assert!(matches!(t.react(&ack(2)), Step::Stop));
}

#[test]
fn transfer_with_options_oack() {
    let file_data = vec![0xCD; 2000];
    let mut rrq = vec![0x00, 0x01];
    rrq.extend(b"big.bin\0");
    rrq.extend(b"octet\0");
    rrq.extend(b"blksize\0");
    rrq.extend(b"1468\0");
    rrq.extend(b"tsize\0");
    rrq.extend(b"0\0");
    let (_, options) = opened(&rrq);
    let (mut t, first) = Transfer::start(&server(), file_data.clone(), &options);

    // OACK
    let (p, wait) = sent(first);
    assert_eq!(&p[0..2], &[0x00, 0x06]);
    assert_eq!(&p[2..], b"blksize\x001468\x00tsize\x002000\x00");
    assert_eq!(wait, 2000);

    // ACK 0, then DATA block 1 (1468 bytes)
    let (p, wait) = sent(t.react(&ack(0)));
    assert_eq!(&p[0..2], &[0x00, 0x03]);
    assert_eq!(&p[2..4], &[0x00, 0x01]);
    assert_eq!(&p[4..], &file_data[..1468]);
    assert_eq!(wait, 1000);

    // DATA block 2 (532 bytes = last)
    let (p, _) = sent(t.react(&ack(1)));
    assert_eq!(&p[0..2], &[0x00, 0x03]);
    assert_eq!(&p[2..4], &[0x00, 0x02]);
    assert!(p.len() - 4 < 1468, "last block must be < blksize");
}

#[test]
fn options_that_are_not_accepted_end_the_transfer() {
    for event in [ack(1), Event::Timeout, Event::RecvError, Event::Datagram(vec![1])] {
        let options = [("blksize".to_string(), "1024".to_string())];
        let (mut t, _) = Transfer::start(&server(), vec![1; 10], &options);
        assert!(matches!(t.react(&event), Step::Stop));
    }
}

#[test]
fn file_not_found_returns_error() {
    let p = lookup_error(Lookup::Missing);
    assert_eq!(&p[0..2], &[0x00, 0x05]); // ERROR opcode
    assert_eq!(&p[2..4], &[0x00, 0x01]); // code 1 = file not found
    assert_eq!(lookup_error(Lookup::Unreadable), encode_error(1, "File not found"));
    assert_eq!(lookup_error(Lookup::NoRoot), encode_error(0, "Server error"));
    assert_eq!(lookup_error(Lookup::Outside), encode_error(2, "Path traversal denied"));
}

#[test]
fn wrq_returns_access_violation() {
    let mut wrq = vec![0x00, 0x02]; // WRQ
    wrq.extend(b"test.bin\0");
    wrq.extend(b"octet\0");
    match handle_request(&wrq) {
        Opening::Refuse(p) => {
            assert_eq!(&p[0..2], &[0x00, 0x05]); // ERROR
            assert_eq!(&p[2..4], &[0x00, 0x02]); // code 2 = access violation
        }
        other => panic!("{other:?}"),
    }
}

#[test]
fn requests_outside_the_root_are_refused_and_noise_is_ignored() {
    let p = match handle_request(b"\x00\x01../secret\0octet\0") {
        Opening::Refuse(p) => p,
        other => panic!("{other:?}"),
    };
    assert_eq!(p, encode_error(2, "Invalid path"));
    assert!(matches!(handle_request(&[0, 4, 0, 1]), Opening::Ignore));
    assert!(matches!(handle_request(&[9]), Opening::Ignore));
}

#[test]
fn retransmits_on_lost_ack() {
    let file_data = vec![0xEF; 1500]; // 3 blocks of 512
    let (mut t, first) = Transfer::start(&server(), file_data, &[]);
    let (p1, _) = sent(first);
    assert_eq!(&p1[2..4], &[0x00, 0x01]);
    // No ACK: the same DATA block 1 again, with the timeout doubled.
    let (p2, wait) = sent(t.react(&Event::Timeout));
    assert_eq!(p2, p1);
    assert_eq!(wait, 2000);
    // Now ACK, and block 2 follows with the timeout reset.
    let (p3, wait) = sent(t.react(&ack(1)));
    assert_eq!(&p3[2..4], &[0x00, 0x02]);
    assert_eq!(wait, 1000);
}

#[test]
fn sorcerers_apprentice_duplicate_ack() {
    let file_data = vec![0x11; 1000]; // 2 blocks
    let (mut t, _) = Transfer::start(&server(), file_data, &[]);
    let (p, _) = sent(t.react(&ack(1)));
    assert_eq!(&p[2..4], &[0x00, 0x02]);
    // A duplicate ACK 1: DATA 2 again, not 3.
    let (again, _) = sent(t.react(&ack(1)));
    assert_eq!(again, p);
}

#[test]
fn a_silent_client_is_given_up() {
    let (mut t, _) = Transfer::start(&server(), vec![1; 2000], &[]);
    let mut waits = Vec::new();
    for _ in 0..5 {
        waits.push(sent(t.react(&Event::Timeout)).1);
    }
    assert_eq!(waits, vec![2000, 4000, 8000, 16000, 32000]);
    match t.react(&Event::Timeout) {
        Step::Abort(p) => assert_eq!(p, encode_error(0, "Transfer timed out")),
        other => panic!("{other:?}"),
    }
    // On the last block, the server just stops.
    let (mut t, _) = Transfer::start(&server(), vec![1; 20], &[]);
    for _ in 0..5 {
        sent(t.react(&Event::RecvError));
    }
    assert!(matches!(t.react(&Event::Timeout), Step::Stop));
}

#[test]
fn concurrent_transfers_isolated() {
    let file_data = vec![0x42; 800];
    let mut transfers: Vec<(Transfer, Vec<u8>)> = Vec::new();
    for _ in 0..3 {
        let (t, first) = Transfer::start(&server(), file_data.clone(), &[]);
        transfers.push((t, sent(first).0[4..].to_vec()));
    }
    for (t, received) in transfers.iter_mut() {
        let (p, _) = sent(t.react(&ack(1)));
        received.extend_from_slice(&p[4..]);
    }
    for (t, received) in transfers.iter_mut() {
        assert!(matches!(t.react(&ack(2)), Step::Stop));
        assert_eq!(*received, file_data);
    }
}

/// Acknowledged block by block, any file arrives as it is.
#[test]
fn acknowledged_transfers_deliver_the_file() {
    for len in [0usize, 1, 511, 512, 513, 1024, 5000] {
        let file: Vec<u8> = (0..len).map(|i| (i % 251) as u8).collect();
        let (mut t, mut step) = Transfer::start(&server(), file.clone(), &[]);
        let mut got = Vec::new();
        let mut block: u16 = 0;
        while let Step::Send { packet, .. } = step {
            block += 1;
            assert_eq!(&packet[2..4], &block.to_be_bytes());
            got.extend_from_slice(&packet[4..]);
            step = t.react(&ack(block));
        }
        assert_eq!(block as usize, len / 512 + 1);
        assert_eq!(got, file);
    }
}

#[test]
fn block_sizes_are_negotiated() {
    let ask = |v: &str| [("blksize".to_string(), v.to_string())];
    assert_eq!(negotiate_blksize(&[], 1468), 512);
    assert_eq!(negotiate_blksize(&ask("8"), 1468), 8);
    assert_eq!(negotiate_blksize(&ask("7"), 1468), 512);
    assert_eq!(negotiate_blksize(&ask("65464"), 1468), 1468);
    assert_eq!(negotiate_blksize(&ask("65536"), 1468), 512);
    assert_eq!(negotiate_blksize(&ask("big"), 1468), 512);
}

#[test]
fn option_keys_are_lowered() {
    let (_, options) = opened(b"\x00\x01f\0octet\0BlkSize\x001024\0\xc3\x89TE\x00A\0");
    assert_eq!(
        options,
        vec![
            ("blksize".to_string(), "1024".to_string()),
            ("\u{e9}te".to_string(), "A".to_string()),
        ]
    );
}

fn components(path: &str) -> Vec<Vec<u8>> {
    path.split('/').map(|c| c.as_bytes().to_vec()).collect()
}

/// A file is inside a directory by whole names.
#[test]
fn files_are_inside_by_whole_names() {
    let root = components("/srv/tftp");
    assert!(is_inside(&root, &components("/srv/tftp/undionly.kpxe")));
    assert!(is_inside(&root, &components("/srv/tftp/a/b")));
    assert!(is_inside(&root, &root));
    assert!(!is_inside(&root, &components("/srv/tftp2/undionly.kpxe")));
    assert!(!is_inside(&root, &components("/srv")));
    assert!(!is_inside(&root, &components("/etc/passwd")));
    assert!(is_inside(&[], &root));
}
