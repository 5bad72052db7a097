//! SCSI CDB field parsers and per-command handlers.
use vstd::prelude::*;
use super::op;
use super::sense;
use super::{LogicalUnit, OutcomeView, ScsiOutcome};
use crate::storage::{BackingStore, StorageError};
use crate::volume;
use crate::volume::OverlayStore;
use crate::wire;

verus! {

/// Service action (CDB byte 1, low 5 bits) for READ CAPACITY(16) under 0x9e.
pub const SAI_READ_CAPACITY_16: u8 = 0x10;

/// Page code of the caching mode page.
pub const PAGE_CACHING: u8 = 0x08;

/// LBA of a 10-byte command (READ(10)/WRITE(10)).
pub fn lba32(cdb: &[u8; 16]) -> (lba: u64)
    ensures
        lba == wire::be32_at(cdb@, 2),
{
    wire::get_be32(cdb.as_slice(), 2) as u64
}

/// Transfer length (blocks) of a 10-byte command.
pub fn len16(cdb: &[u8; 16]) -> (n: u64)
    ensures
        n == wire::be16_at(cdb@, 7),
{
    wire::get_be16(cdb.as_slice(), 7) as u64
}

/// LBA of a 16-byte command (READ(16)/WRITE(16)).
pub fn lba64(cdb: &[u8; 16]) -> (lba: u64)
    ensures
        lba == wire::be64_at(cdb@, 2),
{
    wire::get_be64(cdb.as_slice(), 2)
}

/// Transfer length (blocks) of a 16-byte command.
pub fn len32_16(cdb: &[u8; 16]) -> (n: u64)
    ensures
        n == wire::be32_at(cdb@, 10),
{
    wire::get_be32(cdb.as_slice(), 10) as u64
}

/// What a command asks of a logical unit: an answer that is known at once, or
/// a transfer of the disk's bytes.
pub enum Step {
    Reply(ScsiOutcome),
    Read { offset: u64, len: usize },
    Write { offset: u64 },
}

/// What a `Step` says.
pub enum StepView {
    Reply(OutcomeView),
    Read { offset: int, len: int },
    Write { offset: int },
}

impl View for Step {
    type V = StepView;

    open spec fn view(&self) -> StepView {
        match self {
            Step::Reply(o) => StepView::Reply(o@),
            Step::Read { offset, len } => StepView::Read { offset: *offset as int, len: *len as int },
            Step::Write { offset } => StepView::Write { offset: *offset as int },
        }
    }
}

/// Reading `blocks` blocks at `lba`: refused past the last block, answered at
/// once when there is nothing to move.
pub open spec fn read_step(total: int, block_size: int, lba: int, blocks: int) -> StepView {
    if lba + blocks > total {
        StepView::Reply(super::check(sense::ILLEGAL_REQUEST, sense::ASC_LBA_OUT_OF_RANGE))
    } else if blocks == 0 {
        StepView::Reply(super::good(Seq::empty()))
    } else {
        StepView::Read { offset: lba * block_size, len: blocks * block_size }
    }
}

/// Writing `blocks` blocks at `lba` from a payload of `payload` bytes: refused
/// past the last block or when the payload has another length.
pub open spec fn write_step(
    total: int,
    block_size: int,
    lba: int,
    blocks: int,
    payload: int,
) -> StepView {
    if lba + blocks > total {
        StepView::Reply(super::check(sense::ILLEGAL_REQUEST, sense::ASC_LBA_OUT_OF_RANGE))
    } else if payload != blocks * block_size {
        StepView::Reply(super::check(sense::ILLEGAL_REQUEST, sense::ASC_INVALID_FIELD_IN_CDB))
    } else if blocks == 0 {
        StepView::Reply(super::good(Seq::empty()))
    } else {
        StepView::Write { offset: lba * block_size }
    }
}

/// The last addressable block, 0 on a disk without any.
pub open spec fn last_block(total: int) -> int {
    if total == 0 {
        0
    } else {
        total - 1
    }
}

/// READ CAPACITY(10) data: last LBA, capped to 32 bits, and block length.
pub open spec fn capacity10(total: int, block_size: u32) -> Seq<u8> {
    let last = last_block(total);
    wire::be32(if last > u32::MAX { u32::MAX } else { last as u32 }) + wire::be32(block_size)
}

/// READ CAPACITY(16) data: last LBA, block length, the rest zero.
pub open spec fn capacity16(total: int, block_size: u32) -> Seq<u8> {
    wire::be64(last_block(total) as u64) + wire::be32(block_size) + wire::zeros(20)
}

/// The mode pages asked for: the caching page with its write cache enabled,
/// or none.
pub open spec fn mode_pages(page: u8) -> Seq<u8> {
    if page & 0x3f == PAGE_CACHING {
        seq![PAGE_CACHING, 18u8, 0x04u8] + wire::zeros(17)
    } else {
        Seq::empty()
    }
}

/// MODE SENSE(6) data: a 4-byte header whose first byte counts what follows it.
pub open spec fn mode_sense6(page: u8) -> Seq<u8> {
    seq![(mode_pages(page).len() + 3) as u8, 0u8, 0u8, 0u8] + mode_pages(page)
}

/// MODE SENSE(10) data: an 8-byte header whose first two bytes count what
/// follows them.
pub open spec fn mode_sense10(page: u8) -> Seq<u8> {
    wire::be16((mode_pages(page).len() + 6) as u16) + wire::zeros(6) + mode_pages(page)
}

/// VPD page 0x00: the three pages there are.
pub open spec fn supported_pages() -> Seq<u8> {
    seq![0x00, 0x00, 0x00, 0x03, 0x00, 0x80, 0x83]
}

impl<M: BackingStore, O: OverlayStore> LogicalUnit<M, O> {
    /// INQUIRY: the standard data, or one of the three vital product data
    /// pages; any other page is an invalid field.
    pub open spec fn inquiry_outcome(&self, cdb: Seq<u8>) -> OutcomeView {
        let evpd = cdb[1] & 0x01 != 0;
        if !evpd && cdb[2] == 0 {
            super::good(self.inquiry_data())
        } else if evpd && cdb[2] == 0x00 {
            super::good(supported_pages())
        } else if evpd && cdb[2] == 0x80 {
            super::good(self.serial_page())
        } else if evpd && cdb[2] == 0x83 {
            super::good(self.device_id_page())
        } else {
            super::check(sense::ILLEGAL_REQUEST, sense::ASC_INVALID_FIELD_IN_CDB)
        }
    }

    /// What `cdb`, sent with `payload` bytes of write data, asks of this unit.
    pub open spec fn step(&self, cdb: Seq<u8>, payload: int) -> StepView {
        let total = self.blocks();
        let bs = self.block_size as int;
        if cdb[0] == op::TEST_UNIT_READY || cdb[0] == op::SYNC_CACHE_10 || cdb[0]
            == op::SYNC_CACHE_16 || cdb[0] == op::PREVENT_ALLOW || cdb[0] == op::START_STOP_UNIT {
            StepView::Reply(super::good(Seq::empty()))
        } else if cdb[0] == op::INQUIRY {
            StepView::Reply(self.inquiry_outcome(cdb))
        } else if cdb[0] == op::REQUEST_SENSE {
            StepView::Reply(super::good(sense::sense_bytes(sense::NO_SENSE, 0, 0)))
        } else if cdb[0] == op::READ_CAPACITY_10 {
            StepView::Reply(super::good(capacity10(total, self.block_size)))
        } else if cdb[0] == op::SERVICE_ACTION_IN_16 && cdb[1] & 0x1f == SAI_READ_CAPACITY_16 {
            StepView::Reply(super::good(capacity16(total, self.block_size)))
        } else if cdb[0] == op::MODE_SENSE_6 {
            StepView::Reply(super::good(mode_sense6(cdb[2])))
        } else if cdb[0] == op::MODE_SENSE_10 {
            StepView::Reply(super::good(mode_sense10(cdb[2])))
        } else if cdb[0] == op::READ_10 {
            read_step(total, bs, wire::be32_at(cdb, 2) as int, wire::be16_at(cdb, 7) as int)
        } else if cdb[0] == op::READ_16 {
            read_step(total, bs, wire::be64_at(cdb, 2) as int, wire::be32_at(cdb, 10) as int)
        } else if cdb[0] == op::WRITE_10 {
            write_step(
                total,
                bs,
                wire::be32_at(cdb, 2) as int,
                wire::be16_at(cdb, 7) as int,
                payload,
            )
        } else if cdb[0] == op::WRITE_16 {
            write_step(
                total,
                bs,
                wire::be64_at(cdb, 2) as int,
                wire::be32_at(cdb, 10) as int,
                payload,
            )
        } else {
            StepView::Reply(super::check(sense::ILLEGAL_REQUEST, sense::ASC_INVALID_OPCODE))
        }
    }

    /// Everything but the overwritten blocks is as in `before`.
    pub open spec fn same_unit(&self, before: &Self) -> bool {
        &&& self.block_size == before.block_size
        &&& self.vendor == before.vendor
        &&& self.product == before.product
        &&& self.revision == before.revision
        &&& self.serial == before.serial
        &&& self.removable == before.removable
        &&& self.volume.master_content() == before.volume.master_content()
        &&& forall|i: int| #[trigger]
            self.volume.master_readable(i) == before.volume.master_readable(i)
    }

    /// `out` is an outcome of `cdb` with write data `payload` on `before`, and
    /// this unit is `before` after it. Only a transfer that needs a byte of the
    /// master that cannot be read ends in a medium error.
    pub open spec fn executed(
        &self,
        before: &Self,
        cdb: Seq<u8>,
        payload: Seq<u8>,
        out: OutcomeView,
    ) -> bool {
        &&& self.same_unit(before)
        &&& match before.step(cdb, payload.len() as int) {
            StepView::Reply(o) => out == o && *self == *before,
            StepView::Read { offset, len } => {
                &&& *self == *before
                &&& 0 <= offset && offset + len <= before.volume.content().len()
                &&& out == read_outcome(
                    before.volume.content().subrange(offset, offset + len),
                    out.status == sense::GOOD,
                )
                &&& before.volume.span_readable(offset, offset + len) ==> out.status == sense::GOOD
            },
            StepView::Write { offset } => {
                &&& 0 <= offset
                &&& out == write_outcome(out.status == sense::GOOD)
                &&& out.status == sense::GOOD ==> volume::written(
                    before.volume.content(),
                    offset,
                    payload,
                    self.volume.content(),
                    self.volume.blocks(),
                )
                &&& out.status != sense::GOOD ==> exists|k: int|
                    0 <= k <= payload.len() && self.volume.content() == #[trigger] wire::splice(
                        before.volume.content(),
                        offset,
                        payload.take(k),
                    )
                &&& before.volume.rest_readable(offset, offset + payload.len()) ==> out.status
                    == sense::GOOD
            },
        }
    }
}

/// The answer to a read that the volume completed or failed.
pub open spec fn read_outcome(data: Seq<u8>, done: bool) -> OutcomeView {
    if done {
        super::good(data)
    } else {
        super::check(sense::MEDIUM_ERROR, sense::ASC_UNRECOVERED_READ_ERROR)
    }
}

/// The answer to a write that the volume completed or failed.
pub open spec fn write_outcome(done: bool) -> OutcomeView {
    if done {
        super::good(Seq::empty())
    } else {
        super::check(sense::MEDIUM_ERROR, sense::ASC_WRITE_ERROR)
    }
}

/// Answer a read: the bytes it gave, or an unrecovered read error.
pub fn finish_read(done: Result<(), StorageError>, data: Vec<u8>) -> (o: ScsiOutcome)
    ensures
        o@ == read_outcome(data@, done is Ok),
{
    match done {
        Ok(_) => ScsiOutcome::good(data),
        Err(_) => ScsiOutcome::check(sense::MEDIUM_ERROR, sense::ASC_UNRECOVERED_READ_ERROR),
    }
}

/// Answer a write: done, or a write error.
pub fn finish_write(done: Result<(), StorageError>) -> (o: ScsiOutcome)
    ensures
        o@ == write_outcome(done is Ok),
{
    match done {
        Ok(_) => ScsiOutcome::ok(),
        Err(_) => ScsiOutcome::check(sense::MEDIUM_ERROR, sense::ASC_WRITE_ERROR),
    }
}

/// A whole number of blocks within the disk is a range of its bytes.
pub(crate) proof fn block_range(size: int, block_size: int, lba: int, blocks: int)
    requires
        0 < block_size,
        0 <= size,
        0 <= lba,
        0 <= blocks,
        lba + blocks <= size / block_size,
    ensures
        0 <= lba * block_size,
        0 <= blocks * block_size,
        lba * block_size + blocks * block_size <= size,
{
    assert(size / block_size * block_size <= size) by (nonlinear_arith)
        requires
            0 < block_size,
            0 <= size,
    ;
    assert((lba + blocks) * block_size <= size / block_size * block_size) by (nonlinear_arith)
        requires
            lba + blocks <= size / block_size,
            0 < block_size,
    ;
    assert((lba + blocks) * block_size == lba * block_size + blocks * block_size)
        by (nonlinear_arith);
    assert(0 <= lba * block_size) by (nonlinear_arith)
        requires
            0 <= lba,
            0 < block_size,
    ;
    assert(0 <= blocks * block_size) by (nonlinear_arith)
        requires
            0 <= blocks,
            0 < block_size,
    ;
}

fn plan_read<M: BackingStore, O: OverlayStore>(
    lu: &LogicalUnit<M, O>,
    lba: u64,
    blocks: u64,
) -> (s: Step)
    requires
        lu.wf(),
    ensures
        s@ == read_step(lu.blocks(), lu.block_size as int, lba as int, blocks as int),
{
    let total: u64 = lu.total_blocks();
    let size: u64 = lu.volume.size_bytes();
    if lba > total || blocks > total - lba {
        return Step::Reply(
            ScsiOutcome::check(sense::ILLEGAL_REQUEST, sense::ASC_LBA_OUT_OF_RANGE),
        );
    }
    if blocks == 0 {
        return Step::Reply(ScsiOutcome::ok());
    }
    proof {
        block_range(size as int, lu.block_size as int, lba as int, blocks as int);
    }
    let bs: u64 = lu.block_size as u64;
    Step::Read { offset: lba * bs, len: (blocks * bs) as usize }
}

fn plan_write<M: BackingStore, O: OverlayStore>(
    lu: &LogicalUnit<M, O>,
    lba: u64,
    blocks: u64,
    payload: usize,
) -> (s: Step)
    requires
        lu.wf(),
    ensures
        s@ == write_step(
            lu.blocks(),
            lu.block_size as int,
            lba as int,
            blocks as int,
            payload as int,
        ),
{
    let total: u64 = lu.total_blocks();
    let size: u64 = lu.volume.size_bytes();
    if lba > total || blocks > total - lba {
        return Step::Reply(
            ScsiOutcome::check(sense::ILLEGAL_REQUEST, sense::ASC_LBA_OUT_OF_RANGE),
        );
    }
    proof {
        block_range(size as int, lu.block_size as int, lba as int, blocks as int);
    }
    let bs: u64 = lu.block_size as u64;
    if payload as u64 != blocks * bs {
        return Step::Reply(
            ScsiOutcome::check(sense::ILLEGAL_REQUEST, sense::ASC_INVALID_FIELD_IN_CDB),
        );
    }
    if blocks == 0 {
        return Step::Reply(ScsiOutcome::ok());
    }
    Step::Write { offset: lba * bs }
}

/// Decide what a command asks of a unit. LUN is already resolved; REPORT LUNS
/// is handled by the target before this is called.
pub fn plan<M: BackingStore, O: OverlayStore>(
    lu: &LogicalUnit<M, O>,
    cdb: &[u8; 16],
    payload: usize,
) -> (s: Step)
    requires
        lu.wf(),
    ensures
        s@ == lu.step(cdb@, payload as int),
{
    match cdb[0] {
        op::TEST_UNIT_READY | op::SYNC_CACHE_10 | op::SYNC_CACHE_16 | op::PREVENT_ALLOW
        | op::START_STOP_UNIT => Step::Reply(ScsiOutcome::ok()),
        op::INQUIRY => Step::Reply(inquiry(lu, cdb)),
        op::REQUEST_SENSE => Step::Reply(
            ScsiOutcome::good(sense::fixed_sense(sense::NO_SENSE, 0, 0)),
        ),
        op::READ_CAPACITY_10 => Step::Reply(ScsiOutcome::good(read_capacity_10(lu))),
        op::SERVICE_ACTION_IN_16 => {
            if cdb[1] & 0x1f == SAI_READ_CAPACITY_16 {
                Step::Reply(ScsiOutcome::good(read_capacity_16(lu)))
            } else {
                Step::Reply(ScsiOutcome::check(sense::ILLEGAL_REQUEST, sense::ASC_INVALID_OPCODE))
            }
        },
        op::MODE_SENSE_6 => Step::Reply(ScsiOutcome::good(mode_sense_6(cdb[2]))),
        op::MODE_SENSE_10 => Step::Reply(ScsiOutcome::good(mode_sense_10(cdb[2]))),
        op::READ_10 => plan_read(lu, lba32(cdb), len16(cdb)),
        op::READ_16 => plan_read(lu, lba64(cdb), len32_16(cdb)),
        op::WRITE_10 => plan_write(lu, lba32(cdb), len16(cdb), payload),
        op::WRITE_16 => plan_write(lu, lba64(cdb), len32_16(cdb), payload),
        _ => Step::Reply(ScsiOutcome::check(sense::ILLEGAL_REQUEST, sense::ASC_INVALID_OPCODE)),
    }
}

/// Route a command to its handler and run it.
pub fn dispatch<M: BackingStore, O: OverlayStore>(
    lu: &mut LogicalUnit<M, O>,
    cdb: &[u8; 16],
    write_data: &[u8],
) -> (out: ScsiOutcome)
    requires
        old(lu).wf(),
    ensures
        final(lu).wf(),
        final(lu).executed(old(lu), cdb@, write_data@, out@),
{
    match plan(lu, cdb, write_data.len()) {
        Step::Reply(o) => o,
        Step::Read { offset, len } => {
            proof {
                step_is_in_range(lu, cdb@, write_data@.len() as int);
            }
            let mut data: Vec<u8> = wire::zeroed(len);
            let done = lu.volume.read_at(offset, data.as_mut_slice());
            finish_read(done, data)
        },
        Step::Write { offset } => {
            proof {
                step_is_in_range(lu, cdb@, write_data@.len() as int);
            }
            let done = lu.volume.write_at(offset, write_data);
            finish_write(done)
        },
    }
}

/// The transfers a unit is asked for lie within its disk.
pub proof fn step_is_in_range<M: BackingStore, O: OverlayStore>(
    lu: &LogicalUnit<M, O>,
    cdb: Seq<u8>,
    payload: int,
)
    requires
        lu.wf(),
    ensures
        match lu.step(cdb, payload) {
            StepView::Reply(_) => true,
            StepView::Read { offset, len } => 0 <= offset && 0 < len && offset + len
                <= lu.volume.content().len(),
            StepView::Write { offset } => 0 <= offset && offset + payload
                <= lu.volume.content().len(),
        },
{
    let size = lu.volume.content().len() as int;
    let bs = lu.block_size as int;
    let (lba, blocks) = if cdb[0] == op::READ_10 || cdb[0] == op::WRITE_10 {
        (wire::be32_at(cdb, 2) as int, wire::be16_at(cdb, 7) as int)
    } else {
        (wire::be64_at(cdb, 2) as int, wire::be32_at(cdb, 10) as int)
    };
    if lba + blocks <= size / bs {
        block_range(size, bs, lba, blocks);
        assert(blocks > 0 ==> blocks * bs > 0) by (nonlinear_arith)
            requires
                bs > 0,
        ;
    }
}

fn inquiry<M: BackingStore, O: OverlayStore>(
    lu: &LogicalUnit<M, O>,
    cdb: &[u8; 16],
) -> (out: ScsiOutcome)
    ensures
        out@ == lu.inquiry_outcome(cdb@),
{
    let evpd = cdb[1] & 0x01 != 0;
    let page: u8 = cdb[2];
    if !evpd {
        // Standard INQUIRY: page code must be 0 when EVPD is clear.
        if page != 0 {
            return ScsiOutcome::check(sense::ILLEGAL_REQUEST, sense::ASC_INVALID_FIELD_IN_CDB);
        }
        return ScsiOutcome::good(lu.standard_inquiry());
    }
    match page {
        0x00 => ScsiOutcome::good(vpd_supported_pages()),
        0x80 => ScsiOutcome::good(lu.vpd_unit_serial()),
        0x83 => ScsiOutcome::good(lu.vpd_device_id()),
        _ => ScsiOutcome::check(sense::ILLEGAL_REQUEST, sense::ASC_INVALID_FIELD_IN_CDB),
    }
}

/// VPD page 0x00: list of supported VPD pages.
fn vpd_supported_pages() -> (d: Vec<u8>)
    ensures
        d@ == supported_pages(),
{
    let d: Vec<u8> = vec![0x00, 0x00, 0x00, 0x03, 0x00, 0x80, 0x83];
    assert(d@ =~= supported_pages());
    d
}

/// The last addressable block, 0 on a disk without any.
fn last_lba<M: BackingStore, O: OverlayStore>(lu: &LogicalUnit<M, O>) -> (n: u64)
    requires
        lu.block_size > 0,
    ensures
        n == last_block(lu.blocks()),
{
    let total: u64 = lu.total_blocks();
    if total == 0 {
        0
    } else {
        total - 1
    }
}

fn read_capacity_10<M: BackingStore, O: OverlayStore>(lu: &LogicalUnit<M, O>) -> (d: Vec<u8>)
    requires
        lu.block_size > 0,
    ensures
        d@ == capacity10(lu.blocks(), lu.block_size),
{
    let last: u64 = last_lba(lu);
    let capped: u32 = if last > u32::MAX as u64 { u32::MAX } else { last as u32 };
    let mut d: Vec<u8> = Vec::new();
    wire::push_be32(&mut d, capped);
    wire::push_be32(&mut d, lu.block_size);
    assert(d@ =~= capacity10(lu.blocks(), lu.block_size));
    d
}

fn read_capacity_16<M: BackingStore, O: OverlayStore>(lu: &LogicalUnit<M, O>) -> (d: Vec<u8>)
    requires
        lu.block_size > 0,
    ensures
        d@ == capacity16(lu.blocks(), lu.block_size),
{
    let mut d: Vec<u8> = Vec::new();
    wire::push_be64(&mut d, last_lba(lu));
    wire::push_be32(&mut d, lu.block_size);
    wire::push_zeros(&mut d, 20);
    assert(d@ =~= capacity16(lu.blocks(), lu.block_size));
    d
}

fn mode_page(page: u8) -> (d: Vec<u8>)
    ensures
        d@ == mode_pages(page),
{
    let mut d: Vec<u8> = Vec::new();
    if page & 0x3f == PAGE_CACHING {
        d.push(PAGE_CACHING);
        d.push(18);
        d.push(0x04); // WCE
        wire::push_zeros(&mut d, 17);
    }
    assert(d@ =~= mode_pages(page));
    d
}

fn mode_sense_6(page: u8) -> (d: Vec<u8>)
    ensures
        d@ == mode_sense6(page),
{
    let pages = mode_page(page);
    let mut d: Vec<u8> = vec![(pages.len() + 3) as u8, 0, 0, 0];
    wire::push_bytes(&mut d, pages.as_slice());
    assert(d@ =~= mode_sense6(page));
    d
}

fn mode_sense_10(page: u8) -> (d: Vec<u8>)
    ensures
        d@ == mode_sense10(page),
{
    let pages = mode_page(page);
    let mut d: Vec<u8> = Vec::new();
    wire::push_be16(&mut d, (pages.len() + 6) as u16);
    wire::push_zeros(&mut d, 6);
    wire::push_bytes(&mut d, pages.as_slice());
    assert(d@ =~= mode_sense10(page));
    d
}

} // verus!
