//! Sessions, and the stream of PDUs they run over.
use xboot_core::iscsi::registry::TargetRegistry;
use xboot_core::iscsi::scsi::{LogicalUnit, ScsiTarget};
use xboot_core::iscsi::session::{Connection, Outbound, Stage};
use xboot_core::iscsi::transport::{pump, Pump};
use xboot_core::iscsi::{
    decode, opcode, LoginRequest, LogoutRequest, NopOut, Request, ScsiCommand, ScsiDataOut, TaskMgmt,
    TextRequest, BHS_LEN,
};
use xboot_core::storage::{BackingStore, StorageError};
use xboot_core::volume::{RamOverlay, Volume};

const IQN: &str = "iqn.2026-06.dev.xboot:client-01";

struct MemStore(Vec<u8>);

impl BackingStore for MemStore {
    fn size_bytes(&self) -> u64 {
        self.0.len() as u64
    }
    fn read_at(&self, offset: u64, buf: &mut [u8]) -> Result<(), StorageError> {
        let s = offset as usize;
        buf.copy_from_slice(&self.0[s..s + buf.len()]);
        Ok(())
    }
}

type Registry = TargetRegistry<MemStore, RamOverlay>;

fn one_lun_target(bytes: Vec<u8>) -> ScsiTarget<MemStore, RamOverlay> {
    let vol = Volume::new(MemStore(bytes), RamOverlay::new());
    ScsiTarget::new(vec![Some(LogicalUnit::new(vol))])
}

/// A fresh connection, and a registry with one target over a 4096-byte
/// (8-block) master.
fn conn() -> (Connection, Registry) {
    let mut reg = TargetRegistry::new();
    reg.insert(IQN, one_lun_target(vec![0u8; 4096]));
    (Connection::new(), reg)
}

fn login_req(transit: bool, csg: u8, nsg: u8, keys: &[(&str, &str)]) -> LoginRequest {
    LoginRequest {
        transit,
        continue_: false,
        csg,
        nsg,
        version_max: 0,
        version_min: 0,
        isid: [0, 0, 0, 0, 0, 1],
        tsih: 0,
        itt: 1,
        cid: 0,
        cmd_sn: 0,
        exp_stat_sn: 0,
        text: keys.iter().map(|(k, v)| (k.to_string(), v.to_string())).collect(),
    }
}

/// A connection in full-feature phase.
fn full_feature() -> (Connection, Registry) {
    let (mut c, mut reg) = conn();
    let req = login_req(
        true,
        0,
        3,
        &[("TargetName", IQN), ("MaxRecvDataSegmentLength", "4096")],
    );
    c.handle(Request::Login(req), &[0u8; 48], &mut reg);
    assert_eq!(c.stage(), Stage::FullFeature);
    (c, reg)
}

fn read10(lba: u32, blocks: u16, edtl: u32, itt: u32) -> ScsiCommand {
    let mut cdb = [0u8; 16];
    cdb[0] = 0x28; // READ(10)
    cdb[2..6].copy_from_slice(&lba.to_be_bytes());
    cdb[7..9].copy_from_slice(&blocks.to_be_bytes());
    ScsiCommand {
        final_: true,
        read: true,
        write: false,
        attr: 0,
        lun: 0,
        itt,
        edtl,
        cmd_sn: 0,
        exp_stat_sn: 0,
        cdb,
        data: Vec::new(),
    }
}

fn write10(lba: u32, blocks: u16, edtl: u32, itt: u32, immediate: Vec<u8>) -> ScsiCommand {
    let mut cmd = read10(lba, blocks, edtl, itt);
    cmd.cdb[0] = 0x2a; // WRITE(10)
    cmd.read = false;
    cmd.write = true;
    cmd.data = immediate;
    cmd
}

#[test]
fn collapsed_login_to_full_feature_succeeds() {
    let (mut c, mut reg) = conn();
    // CSG=0 (Security), NSG=3 (FullFeature) — skip auth, transit directly.
    let req = login_req(
        true,
        0,
        3,
        &[("TargetName", IQN), ("MaxBurstLength", "16384")],
    );
    let out = c.handle(Request::Login(req), &[0u8; 48], &mut reg);
    assert_eq!(out.len(), 1);
    let Outbound::Login(resp) = &out[0] else {
        panic!("expected LoginResponse");
    };
    assert_eq!(resp.status_class, 0);
    assert!(resp.transit);
    assert_eq!(resp.nsg, 3);
    assert_eq!(c.stage(), Stage::FullFeature);
}

#[test]
fn unknown_target_fails_login() {
    let (mut c, mut reg) = conn();
    let req = login_req(true, 0, 3, &[("TargetName", "iqn.2026-06.dev.xboot:ghost")]);
    let out = c.handle(Request::Login(req), &[0u8; 48], &mut reg);
    let Outbound::Login(resp) = &out[0] else {
        panic!("expected LoginResponse");
    };
    assert_eq!(resp.status_class, 0x02); // target/initiator error
    assert_eq!(c.stage(), Stage::Closing);
}

#[test]
fn missing_target_name_fails_login() {
    let (mut c, mut reg) = conn();
    let req = login_req(true, 0, 3, &[("HeaderDigest", "None")]);
    let out = c.handle(Request::Login(req), &[0u8; 48], &mut reg);
    let Outbound::Login(resp) = &out[0] else {
        panic!("expected LoginResponse");
    };
    assert_eq!(resp.status_class, 0x02);
}

#[test]
fn negotiated_keys_are_echoed_in_response() {
    let (mut c, mut reg) = conn();
    let req = login_req(
        true,
        0,
        3,
        &[("TargetName", IQN), ("MaxBurstLength", "16384")],
    );
    let out = c.handle(Request::Login(req), &[0u8; 48], &mut reg);
    let Outbound::Login(resp) = &out[0] else {
        panic!("expected LoginResponse");
    };
    let mbl = resp.text.iter().find(|(k, _)| k == "MaxBurstLength");
    assert_eq!(
        mbl,
        Some(&("MaxBurstLength".to_string(), "16384".to_string()))
    );
}

#[test]
fn scsi_command_before_full_feature_is_protocol_reject() {
    let (mut c, mut reg) = conn();
    // A NopOut in the Login stage is out of place -> reject + close.
    let nop = NopOut {
        lun: 0,
        itt: 5,
        ttt: 0xffff_ffff,
        cmd_sn: 0,
        exp_stat_sn: 0,
        data: vec![],
    };
    let out = c.handle(Request::NopOut(nop), &[0u8; 48], &mut reg);
    assert!(matches!(out[0], Outbound::Reject(_)));
    assert_eq!(c.stage(), Stage::Closing);
}

#[test]
fn read_one_block_yields_one_data_in_with_status() {
    let (mut c, mut reg) = full_feature();
    // 1 block = 512 bytes <= MaxRecvDataSegmentLength 4096 -> single Data-In.
    let out = c.handle(Request::ScsiCommand(read10(0, 1, 512, 10)), &[0u8; 48], &mut reg);
    assert_eq!(out.len(), 1);
    let Outbound::DataIn(d) = &out[0] else {
        panic!("expected Data-In");
    };
    assert!(d.final_);
    assert!(d.has_status);
    assert_eq!(d.status, 0x00); // GOOD
    assert_eq!(d.data.len(), 512);
    assert_eq!(d.buffer_offset, 0);
}

#[test]
fn read_chunks_by_max_recv_data_segment_length() {
    let (mut c, mut reg) = full_feature();
    // Force two chunks: read 8 blocks (4096) with cap 2048.
    c.params.max_recv_data_segment_length = 2048;
    let out = c.handle(Request::ScsiCommand(read10(0, 8, 4096, 11)), &[0u8; 48], &mut reg);
    // 4096 / 2048 = 2 Data-In PDUs.
    assert_eq!(out.len(), 2);
    let Outbound::DataIn(d0) = &out[0] else {
        panic!()
    };
    let Outbound::DataIn(d1) = &out[1] else {
        panic!()
    };
    assert!(!d0.final_ && !d0.has_status);
    assert_eq!(d0.data_sn, 0);
    assert_eq!(d0.buffer_offset, 0);
    assert_eq!(d0.data.len(), 2048);
    assert!(d1.final_ && d1.has_status);
    assert_eq!(d1.data_sn, 1);
    assert_eq!(d1.buffer_offset, 2048);
    assert_eq!(d1.data.len(), 2048);
}

#[test]
fn read_check_condition_yields_scsi_response_with_sense() {
    let (mut c, mut reg) = full_feature();
    // LBA 100 on an 8-block disk -> out of range -> CHECK CONDITION.
    let out = c.handle(Request::ScsiCommand(read10(100, 1, 512, 12)), &[0u8; 48], &mut reg);
    assert_eq!(out.len(), 1);
    let Outbound::ScsiResp(r) = &out[0] else {
        panic!("expected SCSI Response");
    };
    assert_eq!(r.status, 0x02); // CHECK CONDITION
    assert!(!r.sense.is_empty());
}

#[test]
fn write_fully_immediate_executes_at_once() {
    let (mut c, mut reg) = full_feature();
    let payload = vec![0xABu8; 512];
    // All 512 bytes arrive as immediate data -> no R2T, straight SCSI Response.
    let out = c.handle(
        Request::ScsiCommand(write10(1, 1, 512, 20, payload.clone())),
        &[0u8; 48],
        &mut reg,
    );
    assert_eq!(out.len(), 1);
    let Outbound::ScsiResp(r) = &out[0] else {
        panic!("expected SCSI Response");
    };
    assert_eq!(r.status, 0x00); // GOOD

    // Read it back: the bytes must have landed in the overlay.
    let mut cdb = [0u8; 16];
    cdb[0] = 0x28;
    cdb[2..6].copy_from_slice(&1u32.to_be_bytes());
    cdb[7..9].copy_from_slice(&1u16.to_be_bytes());
    let rd = ScsiCommand {
        final_: true,
        read: true,
        write: false,
        attr: 0,
        lun: 0,
        itt: 21,
        edtl: 512,
        cmd_sn: 0,
        exp_stat_sn: 0,
        cdb,
        data: vec![],
    };
    let back = c.handle(Request::ScsiCommand(rd), &[0u8; 48], &mut reg);
    let Outbound::DataIn(d) = &back[0] else {
        panic!()
    };
    assert!(d.data.iter().all(|&b| b == 0xAB));
}

#[test]
fn write_with_no_immediate_data_issues_r2t() {
    let (mut c, mut reg) = full_feature();
    // No immediate data and 512 bytes expected -> target solicits with one R2T.
    let out = c.handle(
        Request::ScsiCommand(write10(0, 1, 512, 22, vec![])),
        &[0u8; 48],
        &mut reg,
    );
    assert_eq!(out.len(), 1);
    let Outbound::R2t(r) = &out[0] else {
        panic!("expected R2T");
    };
    assert_eq!(r.itt, 22);
    assert_eq!(r.buffer_offset, 0);
    assert_eq!(r.desired_length, 512);
    assert_eq!(r.r2t_sn, 0);
}

#[test]
fn data_out_completes_a_solicited_write() {
    let (mut c, mut reg) = full_feature();
    c.handle(
        Request::ScsiCommand(write10(0, 1, 512, 23, vec![])),
        &[0u8; 48],
        &mut reg,
    );
    // Send the solicited Data-Out (final), which should trigger execute + Response.
    let dout = ScsiDataOut {
        final_: true,
        lun: 0,
        itt: 23,
        ttt: 0,
        exp_stat_sn: 0,
        data_sn: 0,
        buffer_offset: 0,
        data: vec![0x5Au8; 512],
    };
    let out = c.handle(Request::DataOut(dout), &[0u8; 48], &mut reg);
    assert_eq!(out.len(), 1);
    let Outbound::ScsiResp(r) = &out[0] else {
        panic!("expected SCSI Response");
    };
    assert_eq!(r.status, 0x00);
    assert!(c.in_flight.is_empty());
}

#[test]
fn data_out_past_edtl_is_protocol_reject() {
    let (mut c, mut reg) = full_feature();
    c.handle(
        Request::ScsiCommand(write10(0, 1, 512, 24, vec![])),
        &[0u8; 48],
        &mut reg,
    );
    let dout = ScsiDataOut {
        final_: true,
        lun: 0,
        itt: 24,
        ttt: 0,
        exp_stat_sn: 0,
        data_sn: 0,
        buffer_offset: 256,
        data: vec![0u8; 512], // 256 + 512 = 768 > EDTL 512
    };
    let out = c.handle(Request::DataOut(dout), &[0u8; 48], &mut reg);
    assert!(matches!(out[0], Outbound::Reject(_)));
}

#[test]
fn nop_out_is_echoed_as_nop_in() {
    let (mut c, mut reg) = full_feature();
    let nop = NopOut {
        lun: 0,
        itt: 30,
        ttt: 0xffff_ffff,
        cmd_sn: 1,
        exp_stat_sn: 0,
        data: vec![1, 2, 3],
    };
    let out = c.handle(Request::NopOut(nop), &[0u8; 48], &mut reg);
    let Outbound::NopIn(n) = &out[0] else {
        panic!("expected Nop-In")
    };
    assert_eq!(n.itt, 30);
    assert_eq!(n.data, vec![1, 2, 3]);
}

#[test]
fn sendtargets_text_lists_the_target() {
    let (mut c, mut reg) = full_feature();
    let t = TextRequest {
        final_: true,
        continue_: false,
        lun: 0,
        itt: 31,
        ttt: 0xffff_ffff,
        cmd_sn: 1,
        exp_stat_sn: 0,
        text: vec![("SendTargets".into(), "All".into())],
    };
    let out = c.handle(Request::Text(t), &[0u8; 48], &mut reg);
    let Outbound::Text(r) = &out[0] else {
        panic!("expected Text Response")
    };
    assert!(r.text.iter().any(|(k, v)| k == "TargetName" && v == IQN));
}

#[test]
fn task_mgmt_returns_function_complete() {
    let (mut c, mut reg) = full_feature();
    let tm = TaskMgmt {
        function: 1,
        lun: 0,
        itt: 32,
        ref_task_tag: 0,
        cmd_sn: 1,
        exp_stat_sn: 0,
    };
    let out = c.handle(Request::TaskMgmt(tm), &[0u8; 48], &mut reg);
    assert!(matches!(out[0], Outbound::TaskMgmt(_)));
    let bytes = out[0].encode();
    assert_eq!(bytes[0], opcode::TASK_MGMT_RESP);
    assert_eq!(bytes[2], 0x00); // function complete
}

#[test]
fn logout_responds_and_closes() {
    let (mut c, mut reg) = full_feature();
    let lo = LogoutRequest {
        reason: 0,
        itt: 33,
        cid: 0,
        cmd_sn: 1,
        exp_stat_sn: 0,
    };
    let out = c.handle(Request::Logout(lo), &[0u8; 48], &mut reg);
    let Outbound::Logout(r) = &out[0] else {
        panic!("expected Logout Response")
    };
    assert_eq!(r.response, 0x00);
    assert_eq!(c.stage(), Stage::Closing);
}

// --- A whole session ---

/// Build a Login Request PDU (single text segment).
fn login_pdu(transit: bool, csg: u8, nsg: u8, keys: &[(&str, &str)]) -> Vec<u8> {
    let mut h = [0u8; BHS_LEN];
    h[0] = opcode::LOGIN_REQ;
    if transit {
        h[1] |= 0x80;
    }
    h[1] |= (csg & 0x3) << 2;
    h[1] |= nsg & 0x3;
    h[13] = 1; // ISID byte
    put32(&mut h, 16, 1); // ITT
    let text = encode_keys(keys);
    frame(h, &text)
}

/// Build a READ(10) SCSI Command PDU.
fn read10_pdu(itt: u32, lba: u32, blocks: u16) -> Vec<u8> {
    let mut h = [0u8; BHS_LEN];
    h[0] = opcode::SCSI_COMMAND;
    h[1] = 0xC0; // F + R (read)
    put32(&mut h, 16, itt);
    put32(&mut h, 20, blocks as u32 * 512); // EDTL
    h[32] = 0x28; // CDB[0] READ(10)
    h[34..38].copy_from_slice(&lba.to_be_bytes()); // CDB LBA at CDB byte 2 (= BHS 32+2)
    h[39..41].copy_from_slice(&blocks.to_be_bytes()); // CDB length at CDB byte 7
    frame(h, &[])
}

/// Build a WRITE(10) SCSI Command PDU with all data immediate.
fn write10_immediate_pdu(itt: u32, lba: u32, blocks: u16, data: &[u8]) -> Vec<u8> {
    let mut h = [0u8; BHS_LEN];
    h[0] = opcode::SCSI_COMMAND;
    h[1] = 0xA0; // F + W (write)
    put32(&mut h, 16, itt);
    put32(&mut h, 20, data.len() as u32); // EDTL
    h[32] = 0x2a; // WRITE(10)
    h[34..38].copy_from_slice(&lba.to_be_bytes());
    h[39..41].copy_from_slice(&blocks.to_be_bytes());
    frame(h, data)
}

/// Build a Logout Request PDU.
fn logout_pdu(itt: u32) -> Vec<u8> {
    let mut h = [0u8; BHS_LEN];
    h[0] = opcode::LOGOUT_REQ;
    h[1] = 0x80; // close session
    put32(&mut h, 16, itt);
    frame(h, &[])
}

/// Feed one raw initiator PDU into the connection, returning the responses.
fn step(conn: &mut Connection, reg: &mut Registry, pdu: &[u8]) -> Vec<Outbound> {
    let (req, _used) = decode(pdu).expect("a valid PDU");
    conn.handle(req, &pdu[..BHS_LEN], reg)
}

fn put32(h: &mut [u8; BHS_LEN], off: usize, v: u32) {
    h[off..off + 4].copy_from_slice(&v.to_be_bytes());
}

fn encode_keys(keys: &[(&str, &str)]) -> Vec<u8> {
    let mut out = Vec::new();
    for (k, v) in keys {
        out.extend_from_slice(k.as_bytes());
        out.push(b'=');
        out.extend_from_slice(v.as_bytes());
        out.push(0);
    }
    out
}

fn frame(h: [u8; BHS_LEN], data: &[u8]) -> Vec<u8> {
    let mut h = h;
    // DataSegmentLength in the 24-bit field at bytes 5..8.
    let len = data.len() as u32;
    h[5] = (len >> 16) as u8;
    h[6] = (len >> 8) as u8;
    h[7] = len as u8;
    let mut pdu = h.to_vec();
    pdu.extend_from_slice(data);
    while pdu.len() % 4 != 0 {
        pdu.push(0);
    }
    pdu
}

#[test]
fn full_cycle_login_write_read_logout() {
    let (mut c, mut reg) = conn();

    // Login -> FullFeature.
    let out = step(&mut c, &mut reg, &login_pdu(true, 1, 1, &[("TargetName", IQN)]));
    assert!(matches!(out[0], Outbound::Login(_)));
    assert_eq!(c.stage(), Stage::FullFeature);

    // WRITE block 3 with 0x77, all immediate.
    let payload = vec![0x77u8; 512];
    let out = step(&mut c, &mut reg, &write10_immediate_pdu(40, 3, 1, &payload));
    let Outbound::ScsiResp(r) = &out[0] else {
        panic!("expected SCSI Response");
    };
    assert_eq!(r.status, 0x00);

    // READ block 3 back -> Data-In carrying our bytes.
    let out = step(&mut c, &mut reg, &read10_pdu(41, 3, 1));
    let Outbound::DataIn(d) = &out[0] else {
        panic!("expected Data-In");
    };
    assert!(d.has_status);
    assert_eq!(d.data, payload);

    // Logout -> closing.
    let out = step(&mut c, &mut reg, &logout_pdu(42));
    assert!(matches!(out[0], Outbound::Logout(_)));
    assert_eq!(c.stage(), Stage::Closing);
}

// --- Registry ---

#[test]
fn lookup_hit_returns_the_target() {
    let mut reg = TargetRegistry::new();
    reg.insert("iqn.2026-06.dev.xboot:client-01", one_lun_target(vec![0u8; 4096]));
    assert!(reg.get("iqn.2026-06.dev.xboot:client-01").is_some());
}

#[test]
fn lookup_miss_is_none() {
    let reg: Registry = TargetRegistry::new();
    assert!(reg.get("iqn.2026-06.dev.xboot:nope").is_none());
}

#[test]
fn a_reregistered_target_stays_with_its_connection() {
    let (mut c, mut reg) = full_feature();
    c.handle(Request::ScsiCommand(write10(0, 1, 512, 1, vec![7; 512])), &[0u8; 48], &mut reg);
    let first = reg.get(IQN).unwrap();
    reg.insert(IQN, one_lun_target(vec![0u8; 4096]));
    let second = reg.get(IQN).unwrap();
    assert_ne!(first, second);
    // The old connection still reads what it wrote.
    let out = c.handle(Request::ScsiCommand(read10(0, 1, 512, 2)), &[0u8; 48], &mut reg);
    assert!(matches!(&out[0], Outbound::DataIn(d) if d.data == vec![7; 512]));
    // A new one starts from the master.
    let mut d = Connection::new();
    let req = login_req(true, 0, 3, &[("TargetName", IQN)]);
    d.handle(Request::Login(req), &[0u8; 48], &mut reg);
    let out = d.handle(Request::ScsiCommand(read10(0, 1, 512, 2)), &[0u8; 48], &mut reg);
    assert!(matches!(&out[0], Outbound::DataIn(d) if d.data == vec![0; 512]));
    // The old target goes with its connection.
    c.close(&mut reg);
    assert!(reg.slots[first].is_none());
    assert!(reg.slots[second].is_some());
    assert_eq!(reg.iqns(), vec![IQN.to_string()]);
}

// --- Stream ---

/// Hand `bytes` to the connection in pieces of `step` bytes; gives what it
/// sends, PDU by PDU.
fn feed(conn: &mut Connection, reg: &mut Registry, bytes: &[u8], step: usize) -> Vec<Vec<u8>> {
    let mut sent = Vec::new();
    let mut buf: Vec<u8> = Vec::new();
    for piece in bytes.chunks(step) {
        buf.extend_from_slice(piece);
        loop {
            match pump(conn, reg, &mut buf) {
                Pump::Sent { pdus, .. } => sent.extend(pdus),
                Pump::NeedMore => break,
                Pump::Broken(e) => panic!("{}", e.message()),
            }
        }
    }
    assert!(buf.is_empty());
    sent
}

#[test]
fn loopback_login_write_read_logout() {
    let (mut c, mut reg) = conn();
    let payload = vec![0x99u8; 512];
    let mut stream = login_pdu(true, 0, 3, &[("TargetName", IQN)]);
    stream.extend(write10_immediate_pdu(50, 2, 1, &payload));
    stream.extend(read10_pdu(51, 2, 1));
    let sent = feed(&mut c, &mut reg, &stream, 65536);
    assert_eq!(sent.len(), 3);
    assert_eq!(sent[0][0] & 0x3f, opcode::LOGIN_RESP);
    assert_eq!(sent[1][0] & 0x3f, opcode::SCSI_RESP);
    assert_eq!(sent[1][3], 0x00); // GOOD
    assert_eq!(sent[2][0] & 0x3f, opcode::DATA_IN);
    assert_eq!(&sent[2][BHS_LEN..BHS_LEN + 512], &payload[..]);
}

/// How the bytes arrive does not change what is answered.
#[test]
fn framing_does_not_depend_on_the_reads() {
    let mut stream = login_pdu(true, 0, 3, &[("TargetName", IQN)]);
    stream.extend(write10_immediate_pdu(50, 2, 1, &[0x99u8; 512]));
    stream.extend(read10_pdu(51, 2, 1));
    stream.extend(logout_pdu(52));
    let (mut c, mut reg) = conn();
    let whole = feed(&mut c, &mut reg, &stream, stream.len());
    for step in [1, 7, 48, 100] {
        let (mut c, mut reg) = conn();
        assert_eq!(feed(&mut c, &mut reg, &stream, step), whole);
    }
}

/// Nothing is answered for what follows a logout, nor from malformed framing on,
/// however the bytes arrive.
#[test]
fn nothing_follows_the_end_of_a_stream() {
    let login = login_pdu(true, 0, 3, &[("TargetName", IQN)]);
    let mut stream = login.clone();
    stream.extend(logout_pdu(52));
    let closed = drain(&stream, stream.len());
    assert_eq!(closed.len(), 2);
    stream.extend(read10_pdu(51, 2, 1));
    let mut bad = read10_pdu(53, 0, 1);
    bad[4] = 1;
    let mut broken = login.clone();
    broken.extend(bad);
    broken.extend(logout_pdu(54));
    for step in [1, 7, 48, 4096] {
        assert_eq!(drain(&stream, step), closed);
        assert_eq!(drain(&broken, step), drain(&login, login.len()));
    }
}

/// What a fresh connection answers to `bytes`, read in pieces of `step` bytes,
/// until it closes.
fn drain(bytes: &[u8], step: usize) -> Vec<Vec<u8>> {
    let (mut c, mut reg) = conn();
    let mut sent = Vec::new();
    let mut buf: Vec<u8> = Vec::new();
    for piece in bytes.chunks(step) {
        buf.extend_from_slice(piece);
        loop {
            match pump(&mut c, &mut reg, &mut buf) {
                Pump::Sent { pdus, closing } => {
                    sent.extend(pdus);
                    if closing {
                        return sent;
                    }
                }
                Pump::NeedMore => break,
                Pump::Broken(_) => return sent,
            }
        }
    }
    sent
}

/// A connection that closes gives up its hold; without a target there is none.
#[test]
fn closing_gives_up_the_hold() {
    let (mut c, mut reg) = full_feature();
    let id = reg.get(IQN).unwrap();
    assert_eq!(reg.slots[id].as_ref().unwrap().holders, 1);
    c.close(&mut reg);
    assert_eq!(reg.slots[id].as_ref().unwrap().holders, 0);
    Connection::new().close(&mut reg);
    assert_eq!(reg.slots[id].as_ref().unwrap().holders, 0);
}

#[test]
fn concurrent_clients_are_isolated() {
    let n: u8 = 8;
    let mut reg: Registry = TargetRegistry::new();
    let mut conns = Vec::new();
    for i in 0..n {
        reg.insert(&format!("{IQN}-{i}"), one_lun_target(vec![0u8; 4096]));
        conns.push(Connection::new());
    }
    // Round by round, every client in turn.
    for i in 0..n {
        let iqn = format!("{IQN}-{i}");
        let pdu = login_pdu(true, 0, 3, &[("TargetName", &iqn)]);
        feed(&mut conns[i as usize], &mut reg, &pdu, 4096);
    }
    for i in 0..n {
        let pdu = write10_immediate_pdu(1, 0, 1, &[0x10 + i; 512]);
        feed(&mut conns[i as usize], &mut reg, &pdu, 4096);
    }
    for i in 0..n {
        let sent = feed(&mut conns[i as usize], &mut reg, &read10_pdu(2, 0, 1), 4096);
        // Each client must read back exactly its own byte.
        assert!(sent[0][BHS_LEN..BHS_LEN + 512].iter().all(|&b| b == 0x10 + i));
    }
}

#[test]
fn broken_framing_closes() {
    let (mut c, mut reg) = conn();
    let mut buf = vec![0u8; 48];
    buf[4] = 1;
    assert!(matches!(pump(&mut c, &mut reg, &mut buf), Pump::Broken(_)));
}

#[test]
fn a_session_ends_by_logout_alone() {
    let (mut c, mut reg) = full_feature();
    for op in [0x1au8, 0x3e] {
        let req = Request::Unsupported { opcode: op, itt: 9 };
        let out = c.handle(req, &[0u8; 48], &mut reg);
        assert!(matches!(out[0], Outbound::Reject(_)));
        assert_eq!(c.stage(), Stage::FullFeature);
    }
    let lo = LogoutRequest { reason: 0, itt: 1, cid: 0, cmd_sn: 1, exp_stat_sn: 0 };
    c.handle(Request::Logout(lo), &[0u8; 48], &mut reg);
    assert_eq!(c.stage(), Stage::Closing);
    // Closed stays closed: nothing more is answered with data.
    let out = c.handle(Request::ScsiCommand(read10(0, 1, 512, 2)), &[0u8; 48], &mut reg);
    assert!(out.iter().all(|o| !matches!(o, Outbound::DataIn(_))));
    assert_eq!(c.stage(), Stage::Closing);
}

/// The Data-Ins of a read, put together by their offsets, are the data.
#[test]
fn data_ins_reassemble() {
    let (mut c, mut reg) = full_feature();
    let data: Vec<u8> = (0..4096).map(|i| (i % 251) as u8).collect();
    c.handle(Request::ScsiCommand(write10(0, 8, 4096, 1, data.clone())), &[0u8; 48], &mut reg);
    for size in [512u32, 1000, 4096, 8192] {
        c.params.max_recv_data_segment_length = size;
        let out = c.handle(Request::ScsiCommand(read10(0, 8, 4096, 2)), &[0u8; 48], &mut reg);
        let mut got = Vec::new();
        for o in &out {
            let Outbound::DataIn(d) = o else { panic!("expected Data-In") };
            assert_eq!(d.buffer_offset as usize, got.len());
            assert!(d.data.len() <= size as usize);
            got.extend_from_slice(&d.data);
        }
        assert_eq!(got, data);
    }
}
