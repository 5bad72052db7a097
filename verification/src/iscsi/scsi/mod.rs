//! SCSI command execution.
//!
//! Pure, synchronous bridge from a decoded `ScsiCommand` (CDB + LUN) to a
//! `ScsiOutcome` (status + data + sense), executed against a per-LUN `Volume`.
//! No wire framing, no sequence numbers, no Data-In chunking.
pub mod cdb;
pub mod laws;
pub mod op;
pub mod sense;

use vstd::prelude::*;
use crate::iscsi::ScsiCommand;
use crate::storage::BackingStore;
use crate::volume;
use crate::volume::{OverlayStore, Volume};
use crate::wire;

verus! {

/// What an outcome says: status, data-in payload, sense data.
#[verifier::ext_equal]
pub struct OutcomeView {
    pub status: u8,
    pub data: Seq<u8>,
    pub sense: Seq<u8>,
}

/// GOOD status carrying `data`.
pub open spec fn good(data: Seq<u8>) -> OutcomeView {
    OutcomeView { status: sense::GOOD, data, sense: Seq::empty() }
}

/// CHECK CONDITION with fixed-format sense.
pub open spec fn check(key: u8, asc: (u8, u8)) -> OutcomeView {
    OutcomeView {
        status: sense::CHECK_CONDITION,
        data: Seq::empty(),
        sense: sense::sense_bytes(key, asc.0, asc.1),
    }
}

/// Result of executing one SCSI command. The session serializes this onto the
/// wire (Data-In PDUs for `data`, SCSI Response carrying `status` and `sense`).
pub struct ScsiOutcome {
    pub status: u8,
    pub data: Vec<u8>,
    pub sense: Vec<u8>,
}

impl View for ScsiOutcome {
    type V = OutcomeView;

    open spec fn view(&self) -> OutcomeView {
        OutcomeView { status: self.status, data: self.data@, sense: self.sense@ }
    }
}

impl ScsiOutcome {
    /// GOOD status, no data.
    pub fn ok() -> (o: Self)
        ensures
            o@ == good(Seq::empty()),
    {
        ScsiOutcome { status: sense::GOOD, data: Vec::new(), sense: Vec::new() }
    }

    /// GOOD status carrying a data-in payload.
    pub fn good(data: Vec<u8>) -> (o: Self)
        ensures
            o@ == good(data@),
    {
        ScsiOutcome { status: sense::GOOD, data, sense: Vec::new() }
    }

    /// CHECK CONDITION with fixed-format sense.
    pub fn check(key: u8, asc: (u8, u8)) -> (o: Self)
        ensures
            o@ == check(key, asc),
    {
        ScsiOutcome {
            status: sense::CHECK_CONDITION,
            data: Vec::new(),
            sense: sense::fixed_sense(key, asc.0, asc.1),
        }
    }
}

/// One LUN: a virtual disk plus the identity it reports to the initiator.
pub struct LogicalUnit<M, O> {
    pub volume: Volume<M, O>,
    pub block_size: u32,
    pub vendor: [u8; 8],
    pub product: [u8; 16],
    pub revision: [u8; 4],
    pub serial: String,
    pub removable: bool,
}

impl<M: BackingStore, O: OverlayStore> LogicalUnit<M, O> {
    /// The disk is well formed, its blocks have a size, and a whole-disk
    /// transfer fits in memory addresses.
    pub open spec fn wf(&self) -> bool {
        &&& self.volume.wf()
        &&& self.block_size > 0
        &&& self.volume.content().len() <= usize::MAX
    }

    /// Number of addressable logical blocks (floor; a short tail is not
    /// addressable).
    pub open spec fn blocks(&self) -> int {
        self.volume.content().len() as int / self.block_size as int
    }

    /// Standard INQUIRY data: direct-access block device, SPC-3, 31 bytes
    /// after byte 4.
    pub open spec fn inquiry_data(&self) -> Seq<u8> {
        seq![0x00, if self.removable { 0x80 } else { 0x00 }, 0x05, 0x02, 31, 0, 0, 0]
            + self.vendor@ + self.product@ + self.revision@
    }

    /// VPD page 0x80: the serial number.
    pub open spec fn serial_page(&self) -> Seq<u8> {
        let sn = vstd::utf8::encode_utf8(self.serial@);
        seq![0x00, 0x80, 0x00, (sn.len() % 0x100) as u8] + sn
    }

    /// VPD page 0x83: one T10 vendor-ID designator, in ASCII.
    pub open spec fn device_id_page(&self) -> Seq<u8> {
        let id = self.vendor@ + self.product@ + vstd::utf8::encode_utf8(self.serial@);
        let desc = seq![0x02, 0x01, 0x00, (id.len() % 0x100) as u8] + id;
        seq![0x00u8, 0x83u8] + wire::be16((desc.len() % 0x1_0000) as u16) + desc
    }

    /// A direct-access block device with XBoot defaults (512-byte blocks).
    pub fn new(volume: Volume<M, O>) -> (lu: Self)
        requires
            volume.wf(),
            volume.content().len() <= usize::MAX,
        ensures
            lu.wf(),
            lu.volume == volume,
            lu.block_size == 512,
            lu.vendor@ == seq![0x58u8, 0x42, 0x4f, 0x4f, 0x54, 0x20, 0x20, 0x20],
            lu.product@ == seq![
                0x56u8, 0x44, 0x49, 0x53, 0x4b, 0x20, 0x20, 0x20,
                0x20, 0x20, 0x20, 0x20, 0x20, 0x20, 0x20, 0x20,
            ],
            lu.revision@ == seq![0x30u8, 0x30, 0x30, 0x31],
            lu.serial@ == "XBOOT0000000001"@,
            !lu.removable,
    {
        LogicalUnit {
            volume,
            block_size: 512,
            vendor: [0x58, 0x42, 0x4f, 0x4f, 0x54, 0x20, 0x20, 0x20],
            product: [
                0x56, 0x44, 0x49, 0x53, 0x4b, 0x20, 0x20, 0x20,
                0x20, 0x20, 0x20, 0x20, 0x20, 0x20, 0x20, 0x20,
            ],
            revision: [0x30, 0x30, 0x30, 0x31],
            serial: String::from_str("XBOOT0000000001"),
            removable: false,
        }
    }

    /// The same unit with blocks of `bs` bytes.
    pub fn with_block_size(self, bs: u32) -> (lu: Self)
        requires
            bs > 0,
        ensures
            lu == (LogicalUnit { block_size: bs, ..self }),
    {
        let mut lu = self;
        lu.block_size = bs;
        lu
    }

    /// The same unit under another serial number.
    pub fn with_serial(self, s: &str) -> (lu: Self)
        ensures
            lu.serial@ == s@,
            lu == (LogicalUnit { serial: lu.serial, ..self }),
    {
        let mut lu = self;
        lu.serial = String::from_str(s);
        lu
    }

    /// Number of addressable logical blocks (floor; a short tail is not addressable).
    pub fn total_blocks(&self) -> (n: u64)
        requires
            self.block_size > 0,
        ensures
            n == self.blocks(),
    {
        self.volume.size_bytes() / self.block_size as u64
    }

    /// Standard INQUIRY data (36 bytes): direct-access block device, SPC-3.
    pub fn standard_inquiry(&self) -> (d: Vec<u8>)
        ensures
            d@ == self.inquiry_data(),
            d@.len() == 36,
    {
        let removable: u8 = if self.removable { 0x80 } else { 0x00 };
        let mut d: Vec<u8> = vec![0x00, removable, 0x05, 0x02, 31, 0, 0, 0];
        wire::push_bytes(&mut d, self.vendor.as_slice());
        wire::push_bytes(&mut d, self.product.as_slice());
        wire::push_bytes(&mut d, self.revision.as_slice());
        assert(d@ =~= self.inquiry_data());
        d
    }

    /// VPD page 0x80 (unit serial number).
    pub fn vpd_unit_serial(&self) -> (d: Vec<u8>)
        ensures
            d@ == self.serial_page(),
    {
        let sn = self.serial.as_str().as_bytes();
        let mut d: Vec<u8> = vec![0x00, 0x80, 0x00, (sn.len() % 0x100) as u8];
        wire::push_bytes(&mut d, sn);
        assert(d@ =~= self.serial_page());
        d
    }

    /// VPD page 0x83 (device identification): one T10 vendor-ID designator.
    pub fn vpd_device_id(&self) -> (d: Vec<u8>)
        ensures
            d@ == self.device_id_page(),
    {
        let mut id: Vec<u8> = Vec::new();
        wire::push_bytes(&mut id, self.vendor.as_slice());
        wire::push_bytes(&mut id, self.product.as_slice());
        wire::push_bytes(&mut id, self.serial.as_str().as_bytes());
        assert(id@ =~= self.vendor@ + self.product@ + vstd::utf8::encode_utf8(self.serial@));
        let mut desc: Vec<u8> = vec![0x02, 0x01, 0x00, (id.len() % 0x100) as u8];
        wire::push_bytes(&mut desc, id.as_slice());
        let mut d: Vec<u8> = vec![0x00, 0x83];
        wire::push_be16(&mut d, (desc.len() % 0x1_0000) as u16);
        wire::push_bytes(&mut d, desc.as_slice());
        assert(d@ =~= self.device_id_page());
        d
    }
}

/// The LUN number in an 8-byte iSCSI LUN field, single-level peripheral device
/// addressing; none for any other address method.
pub open spec fn lun_of(lun: u64) -> Option<int> {
    if lun / 0x100_0000_0000_0000 != 0 {
        None
    } else {
        Some(lun as int / 0x1_0000_0000_0000 % 0x100)
    }
}

/// The 8-byte entries of the LUNs present among the first `k`, in order.
pub open spec fn lun_entries<M, O>(luns: Seq<Option<LogicalUnit<M, O>>>, k: int) -> Seq<u8>
    decreases k,
{
    if k <= 0 {
        Seq::empty()
    } else if luns[k - 1] is Some {
        lun_entries(luns, k - 1) + seq![0u8, ((k - 1) % 0x100) as u8, 0, 0, 0, 0, 0, 0]
    } else {
        lun_entries(luns, k - 1)
    }
}

/// REPORT LUNS data: the list's length in bytes, four reserved bytes, the list.
pub open spec fn lun_report<M, O>(luns: Seq<Option<LogicalUnit<M, O>>>) -> Seq<u8> {
    let list = lun_entries(luns, luns.len() as int);
    wire::be32((list.len() % 0x1_0000_0000) as u32) + wire::zeros(4) + list
}

/// One iSCSI target = one client. Owns its LUNs, indexed by LUN number.
pub struct ScsiTarget<M, O> {
    pub luns: Vec<Option<LogicalUnit<M, O>>>,
}

impl<M: BackingStore, O: OverlayStore> ScsiTarget<M, O> {
    /// Every LUN there is is well formed.
    pub open spec fn wf(&self) -> bool {
        forall|i: int| 0 <= i < self.luns@.len() && self.luns@[i] is Some ==> (
        #[trigger] self.luns@[i])->0.wf()
    }

    /// The LUN number that a LUN field selects, if there is such a LUN.
    pub open spec fn selects(&self, lun: u64) -> Option<int> {
        match lun_of(lun) {
            Some(n) => if n < self.luns@.len() && self.luns@[n] is Some {
                Some(n)
            } else {
                None
            },
            None => None,
        }
    }

    /// `out` is an outcome of sending `cdb` with write data `payload` to the
    /// LUN that `lun` selects of `before`, and this target is `before` after
    /// it.
    pub open spec fn executed(
        &self,
        before: &Self,
        lun: u64,
        cdb: Seq<u8>,
        payload: Seq<u8>,
        out: OutcomeView,
    ) -> bool {
        match before.selects(lun) {
            None => {
                &&& out == check(sense::ILLEGAL_REQUEST, sense::ASC_LUN_NOT_SUPPORTED)
                &&& self.luns@ == before.luns@
            },
            Some(n) => if cdb[0] == op::REPORT_LUNS {
                &&& out == good(lun_report(before.luns@))
                &&& self.luns@ == before.luns@
            } else {
                &&& self.luns@.len() == before.luns@.len()
                &&& self.luns@[n] is Some
                &&& self.luns@ == before.luns@.update(n, self.luns@[n])
                &&& self.luns@[n]->0.executed(&before.luns@[n]->0, cdb, payload, out)
            },
        }
    }

    pub fn new(luns: Vec<Option<LogicalUnit<M, O>>>) -> (t: Self)
        ensures
            t.luns == luns,
    {
        ScsiTarget { luns }
    }

    /// Execute one SCSI command. `write_data` is the fully-assembled write
    /// payload (the session gathers it from immediate data / Data-Out); ignored
    /// for non-write commands.
    pub fn execute(&mut self, cmd: &ScsiCommand, write_data: &[u8]) -> (out: ScsiOutcome)
        requires
            old(self).wf(),
        ensures
            final(self).wf(),
            final(self).executed(old(self), cmd.lun, cmd.cdb@, write_data@, out@),
    {
        let n: usize = match lun_number(cmd.lun) {
            Some(n) => n,
            None => {
                return ScsiOutcome::check(sense::ILLEGAL_REQUEST, sense::ASC_LUN_NOT_SUPPORTED);
            },
        };
        if n >= self.luns.len() || self.luns[n].is_none() {
            return ScsiOutcome::check(sense::ILLEGAL_REQUEST, sense::ASC_LUN_NOT_SUPPORTED);
        }
        if cmd.cdb[0] == op::REPORT_LUNS {
            return self.report_luns();
        }
        match &mut self.luns[n] {
            Some(lu) => cdb::dispatch(lu, &cmd.cdb, write_data),
            None => ScsiOutcome::check(sense::ILLEGAL_REQUEST, sense::ASC_LUN_NOT_SUPPORTED),
        }
    }

    /// REPORT LUNS sees the whole map, so it lives on the target, not a LU.
    fn report_luns(&self) -> (out: ScsiOutcome)
        ensures
            out@ == good(lun_report(self.luns@)),
    {
        let mut list: Vec<u8> = Vec::new();
        let mut i: usize = 0;
        while i < self.luns.len()
            invariant
                i <= self.luns@.len(),
                list@ == lun_entries(self.luns@, i as int),
            decreases self.luns@.len() - i,
        {
            if self.luns[i].is_some() {
                // single-level peripheral device addressing
                let entry: [u8; 8] = [0, (i % 0x100) as u8, 0, 0, 0, 0, 0, 0];
                wire::push_bytes(&mut list, entry.as_slice());
                assert(entry@ =~= seq![0u8, (i % 0x100) as u8, 0, 0, 0, 0, 0, 0]);
            }
            i += 1;
        }
        let mut d: Vec<u8> = Vec::new();
        wire::push_be32(&mut d, (list.len() as u64 % 0x1_0000_0000) as u32);
        wire::push_zeros(&mut d, 4);
        wire::push_bytes(&mut d, list.as_slice());
        assert(d@ =~= lun_report(self.luns@));
        ScsiOutcome::good(d)
    }
}

/// Decode the LUN number from the 8-byte iSCSI LUN field, single-level
/// peripheral device addressing. Returns `None` for any other address method.
pub fn lun_number(lun: u64) -> (n: Option<usize>)
    ensures
        n matches Some(k) ==> lun_of(lun) == Some(k as int),
        n is None ==> lun_of(lun) is None,
{
    if lun / 0x100_0000_0000_0000 != 0 {
        return None;  // address method / bus must be 0 for our flat addressing
    }
    Some((lun / 0x1_0000_0000_0000 % 0x100) as usize)
}

/// Whatever a command was, its outcome is CHECK CONDITION with sense data or
/// GOOD without.
pub proof fn status_matches_sense<M: BackingStore, O: OverlayStore>(
    before: &ScsiTarget<M, O>,
    after: &ScsiTarget<M, O>,
    lun: u64,
    cdb: Seq<u8>,
    payload: Seq<u8>,
    out: OutcomeView,
)
    requires
        after.executed(before, lun, cdb, payload, out),
    ensures
        out.status == sense::CHECK_CONDITION || out.status == sense::GOOD,
        out.status == sense::CHECK_CONDITION <==> out.sense.len() > 0,
{
}

/// A READ(10) within the disk either moves exactly the bytes it asks for or
/// ends in a medium error.
pub proof fn read10_moves_what_it_asks<M: BackingStore, O: OverlayStore>(
    before: &ScsiTarget<M, O>,
    after: &ScsiTarget<M, O>,
    lun: u64,
    cdb: Seq<u8>,
    payload: Seq<u8>,
    out: OutcomeView,
)
    requires
        before.wf(),
        after.executed(before, lun, cdb, payload, out),
        cdb[0] == op::READ_10,
        before.selects(lun) is Some,
        wire::be32_at(cdb, 2) + wire::be16_at(cdb, 7) <= before.luns@[before.selects(
            lun,
        )->0]->0.blocks(),
    ensures
        out.status == sense::GOOD ==> out.data.len() == wire::be16_at(cdb, 7)
            * before.luns@[before.selects(lun)->0]->0.block_size,
        out.status != sense::GOOD ==> out == check(
            sense::MEDIUM_ERROR,
            sense::ASC_UNRECOVERED_READ_ERROR,
        ),
{
    let lu = before.luns@[before.selects(lun)->0]->0;
    cdb::step_is_in_range(&lu, cdb, payload.len() as int);
    if wire::be16_at(cdb, 7) == 0 {
        assert(wire::be16_at(cdb, 7) * lu.block_size == 0) by (nonlinear_arith)
            requires
                wire::be16_at(cdb, 7) == 0,
        ;
    }
}

/// What a read command gives back of a write command: after a GOOD write of
/// `payload` at some blocks, reading the same blocks of the same LUN is GOOD
/// and gives `payload`.
pub proof fn read_command_returns_written<M: BackingStore, O: OverlayStore>(
    t0: &ScsiTarget<M, O>,
    t1: &ScsiTarget<M, O>,
    t2: &ScsiTarget<M, O>,
    lun: u64,
    write_cdb: Seq<u8>,
    payload: Seq<u8>,
    write_out: OutcomeView,
    read_cdb: Seq<u8>,
    read_out: OutcomeView,
)
    requires
        t0.wf(),
        t1.wf(),
        t1.executed(t0, lun, write_cdb, payload, write_out),
        t2.executed(t1, lun, read_cdb, Seq::empty(), read_out),
        t0.selects(lun) is Some,
        ({
            let lu = t0.luns@[t0.selects(lun)->0]->0;
            let w = lu.step(write_cdb, payload.len() as int);
            let r = lu.step(read_cdb, 0);
            &&& w is Write
            &&& r is Read
            &&& w->Write_offset == r->Read_offset
            &&& r->len == payload.len()
        }),
        write_out.status == sense::GOOD,
    ensures
        read_out == good(payload),
{
    let n = t0.selects(lun)->0;
    let lu0 = t0.luns@[n]->0;
    let lu1 = t1.luns@[n]->0;
    let offset = lu0.step(write_cdb, payload.len() as int)->Write_offset;
    assert(lu1.volume.content().len() == lu0.volume.content().len());
    assert(lu1.step(read_cdb, 0) == lu0.step(read_cdb, 0));
    volume::read_after_write(
        lu0.volume.content(),
        offset,
        payload,
        lu1.volume.content(),
        lu1.volume.blocks(),
    );
}

} // verus!
