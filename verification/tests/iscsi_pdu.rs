//! PDU codec, text segments, negotiated parameters, sense data.
use xboot_core::iscsi::pdu::decode;
use xboot_core::iscsi::scsi::cdb::{lba32, lba64, len16, len32_16};
use xboot_core::iscsi::scsi::op;
use xboot_core::iscsi::scsi::sense::{fixed_sense, ILLEGAL_REQUEST};
use xboot_core::iscsi::session::params::SessionParams;
use xboot_core::iscsi::text::{encode_pairs, parse_pairs};
use xboot_core::iscsi::{opcode, pad4, PduError, Request, BHS_LEN, MAX_DATA_SEGMENT};

#[test]
fn pad4_rounds_up_to_multiple_of_four() {
    assert_eq!(pad4(0), 0);
    assert_eq!(pad4(1), 3);
    assert_eq!(pad4(2), 2);
    assert_eq!(pad4(3), 1);
    assert_eq!(pad4(4), 0);
    assert_eq!(pad4(5), 3);
}

#[test]
fn opcodes_have_expected_values() {
    assert_eq!(opcode::SCSI_COMMAND, 0x01);
    assert_eq!(opcode::LOGIN_REQ, 0x03);
    assert_eq!(opcode::DATA_OUT, 0x05);
    assert_eq!(opcode::REJECT, 0x3f);
}

/// Build a 48-byte BHS with the given opcode in byte 0; all else zero.
fn bhs(op: u8) -> [u8; BHS_LEN] {
    let mut b = [0u8; BHS_LEN];
    b[0] = op;
    b
}

#[test]
fn short_buffer_is_short_header() {
    assert_eq!(decode(&[0u8; 10]), Err(PduError::ShortHeader));
}

#[test]
fn nonzero_ahs_rejected() {
    let mut b = bhs(opcode::NOP_OUT);
    b[4] = 1; // TotalAHSLength
    assert_eq!(decode(&b), Err(PduError::UnexpectedAhs));
}

#[test]
fn data_segment_length_capped() {
    let mut b = bhs(opcode::SCSI_COMMAND);
    // DataSegmentLength = 0xFFFFFF (> 256 KiB)
    b[5] = 0xFF;
    b[6] = 0xFF;
    b[7] = 0xFF;
    assert_eq!(decode(&b), Err(PduError::DataSegmentTooLong));
}

#[test]
fn declared_data_past_end_is_short_data() {
    let mut b = bhs(opcode::TEXT_REQ).to_vec();
    b[7] = 8; // DataSegmentLength = 8, but no data bytes follow
    assert_eq!(decode(&b), Err(PduError::ShortData));
}

#[test]
fn unknown_opcode_becomes_unsupported() {
    let mut b = bhs(0x1a); // not a known opcode
    b[16..20].copy_from_slice(&0xDEAD_BEEFu32.to_be_bytes()); // ITT
    let (req, consumed) = decode(&b).unwrap();
    assert_eq!(consumed, BHS_LEN);
    assert_eq!(
        req,
        Request::Unsupported {
            opcode: 0x1a,
            itt: 0xDEAD_BEEF
        }
    );
}

#[test]
fn decodes_login_request_fields_and_text() {
    let mut b = bhs(opcode::LOGIN_REQ).to_vec();
    b[1] = 0x87; // T=1, C=0, CSG=1 (bits 3..2 = 01), NSG=3 (bits 1..0 = 11)
    b[2] = 0x00; // version_max
    b[3] = 0x00; // version_min
    b[8..14].copy_from_slice(&[1, 2, 3, 4, 5, 6]); // ISID
    b[14..16].copy_from_slice(&0u16.to_be_bytes()); // TSIH
    b[16..20].copy_from_slice(&0x11u32.to_be_bytes()); // ITT
    b[20..22].copy_from_slice(&0u16.to_be_bytes()); // CID
    b[24..28].copy_from_slice(&5u32.to_be_bytes()); // CmdSN
    b[28..32].copy_from_slice(&7u32.to_be_bytes()); // ExpStatSN
    let text = b"AuthMethod=None\0";
    b[5..8].copy_from_slice(&[0, 0, text.len() as u8]); // DataSegmentLength
    b.extend_from_slice(text);
    // pad to 4-byte boundary (len 16 already multiple of 4 -> no pad)

    let (req, consumed) = decode(&b).unwrap();
    assert_eq!(consumed, BHS_LEN + 16);
    let Request::Login(l) = req else {
        panic!("not a login")
    };
    assert!(l.transit);
    assert!(!l.continue_);
    assert_eq!(l.csg, 1);
    assert_eq!(l.nsg, 3);
    assert_eq!(l.isid, [1, 2, 3, 4, 5, 6]);
    assert_eq!(l.itt, 0x11);
    assert_eq!(l.cmd_sn, 5);
    assert_eq!(l.exp_stat_sn, 7);
    assert_eq!(l.text, vec![("AuthMethod".to_string(), "None".to_string())]);
}

#[test]
fn decodes_scsi_read10_command() {
    let mut b = bhs(opcode::SCSI_COMMAND);
    b[1] = 0xC2; // F=1 (0x80), R=1 (0x40), W=0, ATTR=2 (SIMPLE)
    b[8..16].copy_from_slice(&1u64.to_be_bytes()); // LUN = 1
    b[16..20].copy_from_slice(&0x42u32.to_be_bytes()); // ITT
    b[20..24].copy_from_slice(&512u32.to_be_bytes()); // EDTL
    b[24..28].copy_from_slice(&9u32.to_be_bytes()); // CmdSN
                                                    // CDB starts at BHS byte 32; READ(10) opcode is 0x28.
    b[32] = 0x28;
    let (req, _) = decode(&b).unwrap();
    let Request::ScsiCommand(c) = req else {
        panic!("not scsi")
    };
    assert!(c.final_);
    assert!(c.read);
    assert!(!c.write);
    assert_eq!(c.attr, 2);
    assert_eq!(c.lun, 1);
    assert_eq!(c.itt, 0x42);
    assert_eq!(c.edtl, 512);
    assert_eq!(c.cmd_sn, 9);
    assert_eq!(c.cdb[0], 0x28);
}

#[test]
fn decodes_data_out_payload() {
    let mut b = bhs(opcode::DATA_OUT).to_vec();
    b[1] = 0x80; // F=1
    b[16..20].copy_from_slice(&0x42u32.to_be_bytes()); // ITT
    b[20..24].copy_from_slice(&0x99u32.to_be_bytes()); // TTT
    b[36..40].copy_from_slice(&0u32.to_be_bytes()); // DataSN
    b[40..44].copy_from_slice(&0u32.to_be_bytes()); // BufferOffset
    let payload = [0xAB, 0xCD, 0xEF]; // 3 bytes -> 1 byte padding
    b[5..8].copy_from_slice(&[0, 0, payload.len() as u8]);
    b.extend_from_slice(&payload);
    b.push(0); // padding to 4 bytes

    let (req, consumed) = decode(&b).unwrap();
    assert_eq!(consumed, BHS_LEN + 4); // 3 bytes + 1 pad
    let Request::DataOut(d) = req else {
        panic!("not data-out")
    };
    assert!(d.final_);
    assert_eq!(d.itt, 0x42);
    assert_eq!(d.ttt, 0x99);
    assert_eq!(d.data, payload);
}

#[test]
fn decodes_logout_reason() {
    let mut b = bhs(opcode::LOGOUT_REQ);
    b[1] = 0x80 | 0x01; // F + reason code 1 (close connection)
    b[16..20].copy_from_slice(&0x7u32.to_be_bytes()); // ITT
    b[20..22].copy_from_slice(&3u16.to_be_bytes()); // CID
    let (req, _) = decode(&b).unwrap();
    let Request::Logout(l) = req else {
        panic!("not logout")
    };
    assert_eq!(l.reason, 1);
    assert_eq!(l.itt, 7);
    assert_eq!(l.cid, 3);
}

#[test]
fn read10_lba_and_length_are_big_endian() {
    // READ(10): opcode 0x28, LBA at bytes 2..6, transfer length at 7..9.
    let mut cdb = [0u8; 16];
    cdb[0] = op::READ_10;
    cdb[2..6].copy_from_slice(&0x0001_0002u32.to_be_bytes());
    cdb[7..9].copy_from_slice(&8u16.to_be_bytes());
    assert_eq!(lba32(&cdb), 0x0001_0002);
    assert_eq!(len16(&cdb), 8);
}

#[test]
fn read16_lba_and_length_are_big_endian() {
    // READ(16): LBA at 2..10 (8 bytes), transfer length at 10..14 (4 bytes).
    let mut cdb = [0u8; 16];
    cdb[0] = op::READ_16;
    cdb[2..10].copy_from_slice(&0x0000_0000_DEAD_BEEFu64.to_be_bytes());
    cdb[10..14].copy_from_slice(&4096u32.to_be_bytes());
    assert_eq!(lba64(&cdb), 0xDEAD_BEEF);
    assert_eq!(len32_16(&cdb), 4096);
}

#[test]
fn fixed_sense_has_response_code_key_and_asc() {
    let s = fixed_sense(ILLEGAL_REQUEST, 0x20, 0x00);
    assert_eq!(s.len(), 18);
    assert_eq!(s[0], 0x70); // response code, fixed format
    assert_eq!(s[2] & 0x0f, ILLEGAL_REQUEST); // sense key
    assert_eq!(s[7], 10); // additional sense length (18 - 8)
    assert_eq!(s[12], 0x20); // ASC
    assert_eq!(s[13], 0x00); // ASCQ
}

#[test]
fn parses_nul_separated_pairs() {
    let data = b"AuthMethod=None\0MaxRecvDataSegmentLength=8192\0";
    let pairs = parse_pairs(data);
    assert_eq!(
        pairs,
        vec![
            ("AuthMethod".to_string(), "None".to_string()),
            ("MaxRecvDataSegmentLength".to_string(), "8192".to_string()),
        ]
    );
}

#[test]
fn value_may_contain_equals_sign() {
    // Only the first '=' separates key from value.
    let pairs = parse_pairs(b"TargetAddress=10.0.0.1:3260,1\0");
    assert_eq!(pairs, vec![("TargetAddress".into(), "10.0.0.1:3260,1".into())]);
}

#[test]
fn skips_malformed_entries() {
    // no '=' -> skipped; empty key -> skipped; trailing empty chunk -> skipped
    let pairs = parse_pairs(b"novalue\0=onlyvalue\0Good=1\0");
    assert_eq!(pairs, vec![("Good".into(), "1".into())]);
}

#[test]
fn encode_appends_nul_after_each_pair() {
    let out = encode_pairs(&[("A".into(), "1".into()), ("B".into(), "2".into())]);
    assert_eq!(out, b"A=1\0B=2\0");
}

#[test]
fn defaults_match_rfc() {
    let p = SessionParams::default();
    assert_eq!(p.max_recv_data_segment_length, 8192);
    assert_eq!(p.first_burst_length, 65536);
    assert_eq!(p.max_burst_length, 262144);
    assert!(p.immediate_data);
    assert!(p.initial_r2t); // RFC default Yes until negotiated down
}

#[test]
fn numeric_keys_take_the_minimum() {
    let mut p = SessionParams::default();
    // Initiator offers a smaller MaxBurstLength -> we take theirs.
    p.negotiate("MaxBurstLength", "16384");
    assert_eq!(p.max_burst_length, 16384);
    // Initiator offers a larger value than ours -> we keep ours (min).
    p.negotiate("FirstBurstLength", "1048576");
    assert_eq!(p.first_burst_length, 65536);
}

#[test]
fn immediate_data_is_anded_initial_r2t_is_ored() {
    let mut p = SessionParams::default();
    p.negotiate("ImmediateData", "No"); // ours Yes AND theirs No -> No
    assert!(!p.immediate_data);
    let mut p2 = SessionParams::default();
    p2.negotiate("InitialR2T", "No"); // ours Yes OR theirs No -> No
    assert!(!p2.initial_r2t);
}

#[test]
fn max_recv_is_declarative_per_direction() {
    let mut p = SessionParams::default();
    // The initiator declares the most it will accept; we remember it verbatim.
    p.negotiate("MaxRecvDataSegmentLength", "4096");
    assert_eq!(p.max_recv_data_segment_length, 4096);
}

#[test]
fn unknown_key_is_ignored() {
    let mut p = SessionParams::default();
    p.negotiate("X-com.example-thing", "whatever"); // must not panic
    assert_eq!(p.max_burst_length, 262144);
}

/// Keys without `=` or NUL and values without NUL come back as they went in.
#[test]
fn pairs_round_trip() {
    let cases: Vec<Vec<(&str, &str)>> = vec![
        vec![],
        vec![("A", "")],
        vec![("Key9", "a=b=c"), ("K", " spaces and <signs> "), ("K", "twice")],
        vec![("Umlaut", "gr\u{fc}n"), ("Last", "~")],
    ];
    for case in cases {
        let pairs: Vec<(String, String)> =
            case.iter().map(|(k, v)| (k.to_string(), v.to_string())).collect();
        assert_eq!(parse_pairs(&encode_pairs(&pairs)), pairs);
    }
}

/// Bytes that are not UTF-8 are replaced, not refused.
#[test]
fn invalid_utf8_in_a_text_segment_is_replaced() {
    let pairs = parse_pairs(b"Key=a\xffb\0");
    assert_eq!(pairs, vec![("Key".to_string(), "a\u{fffd}b".to_string())]);
}

/// Any bytes decode to a request or an error, and what follows a PDU does not
/// change what it decodes to.
#[test]
fn decode_takes_any_bytes() {
    let mut x: u32 = 1;
    for len in 0..200usize {
        let mut bytes = vec![0u8; len];
        for b in bytes.iter_mut() {
            x = x.wrapping_mul(1664525).wrapping_add(1013904223);
            *b = (x >> 24) as u8;
        }
        if len > 7 {
            bytes[4] = 0;
            bytes[5] = 0;
            bytes[6] = 0;
            bytes[7] %= 64;
        }
        if let Ok((req, used)) = decode(&bytes) {
            assert!(used <= len && used % 4 == 0);
            let mut longer = bytes.clone();
            longer.extend_from_slice(&[1, 2, 3]);
            assert_eq!(decode(&longer).unwrap(), (req, used));
        }
    }
}

#[test]
fn the_largest_data_segment_is_accepted() {
    let mut b = bhs(opcode::NOP_OUT).to_vec();
    b[5..8].copy_from_slice(&(MAX_DATA_SEGMENT as u32).to_be_bytes()[1..]);
    b.resize(BHS_LEN + MAX_DATA_SEGMENT, 7);
    let (_, used) = decode(&b).unwrap();
    assert_eq!(used, BHS_LEN + MAX_DATA_SEGMENT);
    assert_eq!(PduError::ShortData.message(), "declared data segment runs past the end of the buffer");
}
