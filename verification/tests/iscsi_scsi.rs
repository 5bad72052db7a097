//! SCSI command execution.
use xboot_core::iscsi::scsi::op;
use xboot_core::iscsi::scsi::{lun_number, sense, LogicalUnit, ScsiTarget};
use xboot_core::iscsi::ScsiCommand;
use xboot_core::storage::{BackingStore, StorageError};
use xboot_core::volume::{RamOverlay, Volume};

struct MemStore(Vec<u8>);

impl BackingStore for MemStore {
    fn size_bytes(&self) -> u64 {
        self.0.len() as u64
    }
    fn read_at(&self, offset: u64, buf: &mut [u8]) -> Result<(), StorageError> {
        let s = offset as usize;
        buf.copy_from_slice(&self.0[s..s + buf.len()]);
        Ok(())
    }
}

type Unit = LogicalUnit<MemStore, RamOverlay>;
type Target = ScsiTarget<MemStore, RamOverlay>;

/// A unit over an in-memory master of `bytes`, 512-byte blocks.
fn lu(bytes: Vec<u8>) -> Unit {
    LogicalUnit::new(Volume::new(MemStore(bytes), RamOverlay::new()))
}

/// A single-LUN target (LUN 0) over an in-memory master of `bytes`.
fn target(bytes: Vec<u8>) -> Target {
    ScsiTarget::new(vec![Some(lu(bytes))])
}

/// A command for LUN `lun` with the given CDB.
fn cmd(lun: u64, cdb: [u8; 16]) -> ScsiCommand {
    ScsiCommand {
        final_: true,
        read: false,
        write: false,
        attr: 0,
        lun,
        itt: 1,
        edtl: 0,
        cmd_sn: 0,
        exp_stat_sn: 0,
        cdb,
        data: Vec::new(),
    }
}

/// LUN number `n` in the 8-byte iSCSI LUN field (flat addressing).
fn lun_field(n: u8) -> u64 {
    (n as u64) << 48
}

#[test]
fn lun_number_decodes_flat_addressing() {
    assert_eq!(lun_number(lun_field(0)), Some(0));
    assert_eq!(lun_number(lun_field(1)), Some(1));
    // High address-method byte set -> unsupported.
    assert_eq!(lun_number(1u64 << 56), None);
}

#[test]
fn test_unit_ready_is_good() {
    let mut t = target(vec![0u8; 4096]);
    let mut cdb = [0u8; 16];
    cdb[0] = op::TEST_UNIT_READY;
    let out = t.execute(&cmd(lun_field(0), cdb), &[]);
    assert_eq!(out.status, sense::GOOD);
    assert!(out.sense.is_empty());
}

#[test]
fn unknown_opcode_is_check_condition_invalid_opcode() {
    let mut t = target(vec![0u8; 4096]);
    let mut cdb = [0u8; 16];
    cdb[0] = 0x3c; // not a recognized opcode
    let out = t.execute(&cmd(lun_field(0), cdb), &[]);
    assert_eq!(out.status, sense::CHECK_CONDITION);
    assert_eq!(out.sense[2] & 0x0f, sense::ILLEGAL_REQUEST);
    assert_eq!(out.sense[12], sense::ASC_INVALID_OPCODE.0);
}

#[test]
fn unknown_lun_is_check_condition() {
    let mut t = target(vec![0u8; 4096]);
    let mut cdb = [0u8; 16];
    cdb[0] = op::TEST_UNIT_READY;
    let out = t.execute(&cmd(lun_field(7), cdb), &[]); // LUN 7 not configured
    assert_eq!(out.status, sense::CHECK_CONDITION);
    assert_eq!(out.sense[12], sense::ASC_LUN_NOT_SUPPORTED.0);
}

#[test]
fn standard_inquiry_reports_block_device_and_idents() {
    let mut t = target(vec![0u8; 4096]);
    let mut cdb = [0u8; 16];
    cdb[0] = op::INQUIRY;
    let out = t.execute(&cmd(lun_field(0), cdb), &[]);
    assert_eq!(out.status, sense::GOOD);
    assert_eq!(out.data[0], 0x00); // direct-access block device
    assert_eq!(out.data[2], 0x05); // SPC-3
    assert_eq!(out.data[4], 31); // additional length
    assert_eq!(&out.data[8..16], b"XBOOT   ");
    assert_eq!(&out.data[16..21], b"VDISK");
}

#[test]
fn inquiry_evpd_serial_page_carries_serial() {
    let mut t = ScsiTarget::new(vec![Some(lu(vec![0u8; 4096]).with_serial("ABC123"))]);
    let mut cdb = [0u8; 16];
    cdb[0] = op::INQUIRY;
    cdb[1] = 0x01; // EVPD
    cdb[2] = 0x80; // unit serial number page
    let out = t.execute(&cmd(lun_field(0), cdb), &[]);
    assert_eq!(out.status, sense::GOOD);
    assert_eq!(out.data[1], 0x80); // page code echoed
    assert_eq!(&out.data[4..], b"ABC123");
}

#[test]
fn inquiry_evpd_supported_pages_lists_the_three() {
    let mut t = target(vec![0u8; 4096]);
    let mut cdb = [0u8; 16];
    cdb[0] = op::INQUIRY;
    cdb[1] = 0x01;
    cdb[2] = 0x00; // supported VPD pages
    let out = t.execute(&cmd(lun_field(0), cdb), &[]);
    assert_eq!(out.status, sense::GOOD);
    assert_eq!(&out.data[4..7], &[0x00, 0x80, 0x83]);
}

#[test]
fn inquiry_unknown_vpd_page_is_invalid_field() {
    let mut t = target(vec![0u8; 4096]);
    let mut cdb = [0u8; 16];
    cdb[0] = op::INQUIRY;
    cdb[1] = 0x01;
    cdb[2] = 0xde; // not a supported page
    let out = t.execute(&cmd(lun_field(0), cdb), &[]);
    assert_eq!(out.status, sense::CHECK_CONDITION);
    assert_eq!(out.data.len(), 0);
    assert_eq!(out.sense[12], sense::ASC_INVALID_FIELD_IN_CDB.0);
}

#[test]
fn read_capacity_10_reports_last_lba_and_block_len() {
    // 4096 bytes / 512 = 8 blocks -> last LBA = 7.
    let mut t = target(vec![0u8; 4096]);
    let mut cdb = [0u8; 16];
    cdb[0] = op::READ_CAPACITY_10;
    let out = t.execute(&cmd(lun_field(0), cdb), &[]);
    assert_eq!(out.status, sense::GOOD);
    assert_eq!(out.data.len(), 8);
    assert_eq!(u32::from_be_bytes([out.data[0], out.data[1], out.data[2], out.data[3]]), 7);
    assert_eq!(u32::from_be_bytes([out.data[4], out.data[5], out.data[6], out.data[7]]), 512);
}

#[test]
fn read_capacity_16_reports_8byte_last_lba() {
    let mut t = target(vec![0u8; 4096]);
    let mut cdb = [0u8; 16];
    cdb[0] = op::SERVICE_ACTION_IN_16;
    cdb[1] = 0x10; // READ CAPACITY (16) service action
    let out = t.execute(&cmd(lun_field(0), cdb), &[]);
    assert_eq!(out.status, sense::GOOD);
    assert_eq!(out.data.len(), 32);
    let last = u64::from_be_bytes(out.data[0..8].try_into().unwrap());
    assert_eq!(last, 7);
    assert_eq!(u32::from_be_bytes(out.data[8..12].try_into().unwrap()), 512);
}

#[test]
fn service_action_in_16_other_action_is_invalid_opcode() {
    let mut t = target(vec![0u8; 4096]);
    let mut cdb = [0u8; 16];
    cdb[0] = op::SERVICE_ACTION_IN_16;
    cdb[1] = 0x12; // not READ CAPACITY(16)
    let out = t.execute(&cmd(lun_field(0), cdb), &[]);
    assert_eq!(out.status, sense::CHECK_CONDITION);
    assert_eq!(out.sense[12], sense::ASC_INVALID_OPCODE.0);
}

#[test]
fn read10_returns_master_bytes() {
    // Master: 8 blocks of 512; fill block 1 (bytes 512..1024) with 0xAB.
    let mut master = vec![0u8; 4096];
    for b in &mut master[512..1024] {
        *b = 0xAB;
    }
    let mut t = target(master);
    let mut cdb = [0u8; 16];
    cdb[0] = op::READ_10;
    cdb[2..6].copy_from_slice(&1u32.to_be_bytes()); // LBA 1
    cdb[7..9].copy_from_slice(&1u16.to_be_bytes()); // 1 block
    let out = t.execute(&cmd(lun_field(0), cdb), &[]);
    assert_eq!(out.status, sense::GOOD);
    assert_eq!(out.data.len(), 512);
    assert!(out.data.iter().all(|&x| x == 0xAB));
}

#[test]
fn read10_zero_length_is_good_no_data() {
    let mut t = target(vec![0u8; 4096]);
    let mut cdb = [0u8; 16];
    cdb[0] = op::READ_10;
    // transfer length 0
    let out = t.execute(&cmd(lun_field(0), cdb), &[]);
    assert_eq!(out.status, sense::GOOD);
    assert!(out.data.is_empty());
}

#[test]
fn read10_past_end_is_lba_out_of_range() {
    let mut t = target(vec![0u8; 4096]); // 8 blocks
    let mut cdb = [0u8; 16];
    cdb[0] = op::READ_10;
    cdb[2..6].copy_from_slice(&7u32.to_be_bytes()); // LBA 7
    cdb[7..9].copy_from_slice(&2u16.to_be_bytes()); // 2 blocks -> ends at 9 > 8
    let out = t.execute(&cmd(lun_field(0), cdb), &[]);
    assert_eq!(out.status, sense::CHECK_CONDITION);
    assert_eq!(out.sense[12], sense::ASC_LBA_OUT_OF_RANGE.0);
}

#[test]
fn read16_returns_master_bytes() {
    let mut master = vec![0u8; 4096];
    for b in &mut master[0..512] {
        *b = 0xCD;
    }
    let mut t = target(master);
    let mut cdb = [0u8; 16];
    cdb[0] = op::READ_16;
    // LBA 0 (bytes 2..10 already zero), 1 block at 10..14
    cdb[10..14].copy_from_slice(&1u32.to_be_bytes());
    let out = t.execute(&cmd(lun_field(0), cdb), &[]);
    assert_eq!(out.status, sense::GOOD);
    assert_eq!(out.data.len(), 512);
    assert!(out.data.iter().all(|&x| x == 0xCD));
}

#[test]
fn write10_then_read10_round_trips_through_overlay() {
    let mut t = target(vec![0u8; 4096]);
    let payload = vec![0x5Au8; 512];
    let mut w = [0u8; 16];
    w[0] = op::WRITE_10;
    w[2..6].copy_from_slice(&2u32.to_be_bytes()); // LBA 2
    w[7..9].copy_from_slice(&1u16.to_be_bytes()); // 1 block
    let out = t.execute(&cmd(lun_field(0), w), &payload);
    assert_eq!(out.status, sense::GOOD);

    let mut r = [0u8; 16];
    r[0] = op::READ_10;
    r[2..6].copy_from_slice(&2u32.to_be_bytes());
    r[7..9].copy_from_slice(&1u16.to_be_bytes());
    let back = t.execute(&cmd(lun_field(0), r), &[]);
    assert_eq!(back.data, payload);
}

#[test]
fn write10_wrong_buffer_len_is_invalid_field() {
    let mut t = target(vec![0u8; 4096]);
    let mut w = [0u8; 16];
    w[0] = op::WRITE_10;
    w[7..9].copy_from_slice(&1u16.to_be_bytes()); // expects 512 bytes
    let out = t.execute(&cmd(lun_field(0), w), &[0u8; 100]); // wrong length
    assert_eq!(out.status, sense::CHECK_CONDITION);
    assert_eq!(out.sense[12], sense::ASC_INVALID_FIELD_IN_CDB.0);
}

#[test]
fn write10_past_end_is_lba_out_of_range() {
    let mut t = target(vec![0u8; 4096]); // 8 blocks
    let mut w = [0u8; 16];
    w[0] = op::WRITE_10;
    w[2..6].copy_from_slice(&8u32.to_be_bytes()); // LBA 8 == total -> out of range
    w[7..9].copy_from_slice(&1u16.to_be_bytes());
    let out = t.execute(&cmd(lun_field(0), w), &[0u8; 512]);
    assert_eq!(out.status, sense::CHECK_CONDITION);
    assert_eq!(out.sense[12], sense::ASC_LBA_OUT_OF_RANGE.0);
}

#[test]
fn write16_round_trips() {
    let mut t = target(vec![0u8; 4096]);
    let payload = vec![0x33u8; 512];
    let mut w = [0u8; 16];
    w[0] = op::WRITE_16;
    // LBA 0, 1 block at 10..14
    w[10..14].copy_from_slice(&1u32.to_be_bytes());
    assert_eq!(t.execute(&cmd(lun_field(0), w), &payload).status, sense::GOOD);

    let mut r = [0u8; 16];
    r[0] = op::READ_16;
    r[10..14].copy_from_slice(&1u32.to_be_bytes());
    assert_eq!(t.execute(&cmd(lun_field(0), r), &[]).data, payload);
}

#[test]
fn sync_cache_and_medium_and_start_stop_are_good() {
    let mut t = target(vec![0u8; 4096]);
    for op_code in [op::SYNC_CACHE_10, op::SYNC_CACHE_16, op::PREVENT_ALLOW, op::START_STOP_UNIT] {
        let mut cdb = [0u8; 16];
        cdb[0] = op_code;
        let out = t.execute(&cmd(lun_field(0), cdb), &[]);
        assert_eq!(out.status, sense::GOOD, "opcode {op_code:#x}");
        assert!(out.sense.is_empty());
    }
}

#[test]
fn request_sense_returns_no_sense() {
    let mut t = target(vec![0u8; 4096]);
    let mut cdb = [0u8; 16];
    cdb[0] = op::REQUEST_SENSE;
    let out = t.execute(&cmd(lun_field(0), cdb), &[]);
    assert_eq!(out.status, sense::GOOD); // sense rides in the data-in buffer
    assert_eq!(out.data.len(), 18);
    assert_eq!(out.data[0], 0x70);
    assert_eq!(out.data[2] & 0x0f, sense::NO_SENSE);
}

#[test]
fn mode_sense_6_returns_header() {
    let mut t = target(vec![0u8; 4096]);
    let mut cdb = [0u8; 16];
    cdb[0] = op::MODE_SENSE_6;
    let out = t.execute(&cmd(lun_field(0), cdb), &[]);
    assert_eq!(out.status, sense::GOOD);
    assert_eq!(out.data.len(), 4); // bare 4-byte header, no block descriptors
    assert_eq!(out.data[0], 3); // mode data length = len - 1
}

#[test]
fn mode_sense_6_caching_page_sets_wce() {
    let mut t = target(vec![0u8; 4096]);
    let mut cdb = [0u8; 16];
    cdb[0] = op::MODE_SENSE_6;
    cdb[2] = 0x08; // caching mode page
    let out = t.execute(&cmd(lun_field(0), cdb), &[]);
    assert_eq!(out.status, sense::GOOD);
    // 4-byte header + 20-byte caching page.
    assert_eq!(out.data.len(), 24);
    assert_eq!(out.data[4], 0x08); // page code
    assert_eq!(out.data[6] & 0x04, 0x04); // WCE
}

#[test]
fn report_luns_lists_configured_luns() {
    // LUN 0 and LUN 2 present, LUN 1 absent.
    let mut t = ScsiTarget::new(vec![
        Some(lu(vec![0u8; 4096])),
        None,
        Some(lu(vec![0u8; 4096])),
    ]);
    let mut cdb = [0u8; 16];
    cdb[0] = op::REPORT_LUNS;
    let out = t.execute(&cmd(lun_field(0), cdb), &[]);
    assert_eq!(out.status, sense::GOOD);
    // header(8) + 2 LUNs * 8 = 24 bytes.
    assert_eq!(out.data.len(), 24);
    let list_len = u32::from_be_bytes(out.data[0..4].try_into().unwrap());
    assert_eq!(list_len, 16); // 2 LUNs * 8 bytes
    assert_eq!(out.data[9], 0); // first LUN number == 0 (byte 1 of the 8-byte LUN)
    assert_eq!(out.data[17], 2); // second LUN number == 2
}

/// Any CDB is answered, and sense data comes with CHECK CONDITION alone.
#[test]
fn every_opcode_is_answered() {
    for code in 0..=255u8 {
        for fill in [0u8, 0xFF] {
            let mut t = target(vec![0u8; 4096]);
            let mut cdb = [fill; 16];
            cdb[0] = code;
            let out = t.execute(&cmd(lun_field(0), cdb), &[]);
            assert!(out.status == sense::GOOD || out.status == sense::CHECK_CONDITION);
            assert_eq!(out.sense.is_empty(), out.status == sense::GOOD);
        }
    }
}

#[test]
fn device_id_page_names_vendor_product_and_serial() {
    let mut t = ScsiTarget::new(vec![Some(lu(vec![0u8; 4096]).with_serial("S1"))]);
    let mut cdb = [0u8; 16];
    cdb[0] = op::INQUIRY;
    cdb[1] = 0x01;
    cdb[2] = 0x83;
    let out = t.execute(&cmd(lun_field(0), cdb), &[]);
    assert_eq!(&out.data[..8], &[0x00, 0x83, 0, 30, 0x02, 0x01, 0x00, 26]);
    assert_eq!(&out.data[8..], b"XBOOT   VDISK           S1");
}

#[test]
fn larger_blocks_make_fewer() {
    let mut t = ScsiTarget::new(vec![Some(lu(vec![0u8; 10_000]).with_block_size(4096))]);
    let mut cdb = [0u8; 16];
    cdb[0] = op::READ_CAPACITY_10;
    let out = t.execute(&cmd(lun_field(0), cdb), &[]);
    assert_eq!(out.data, vec![0, 0, 0, 1, 0, 0, 16, 0]);
}
