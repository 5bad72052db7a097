//! What the block commands of a target do, byte by byte.
use vstd::prelude::*;
use super::cdb;
use super::{LogicalUnit, OutcomeView, ScsiTarget};
use crate::storage::BackingStore;
use crate::volume;
use crate::volume::OverlayStore;
use crate::wire;

verus! {

/// `out` is CHECK CONDITION with fixed-format sense data: the sense key `key`,
/// and `asc` with no qualifier.
pub open spec fn is_check(out: OutcomeView, key: u8, asc: u8) -> bool {
    &&& out.status == 0x02
    &&& out.data.len() == 0
    &&& out.sense.len() == 18
    &&& out.sense[0] == 0x70
    &&& out.sense[2] == key
    &&& out.sense[7] == 10
    &&& out.sense[12] == asc
    &&& out.sense[13] == 0
}

/// `out` is GOOD with `data`.
pub open spec fn is_good(out: OutcomeView, data: Seq<u8>) -> bool {
    &&& out.status == 0x00
    &&& out.data == data
    &&& out.sense.len() == 0
}

/// The LUN field `lun` addresses the logical unit number `n` of `t`, which
/// there is: its first byte is zero and its second is `n`.
pub open spec fn addresses<M: BackingStore, O: OverlayStore>(
    t: &ScsiTarget<M, O>,
    lun: u64,
    n: int,
) -> bool {
    &&& 0 <= n < 0x100
    &&& lun as int / 0x1_0000_0000_0000 == n
    &&& n < t.luns@.len()
    &&& t.luns@[n] is Some
}

/// `cdb` is a READ(10) or READ(16) of `blocks` blocks at `lba`.
pub open spec fn is_read(cdb: Seq<u8>, lba: int, blocks: int) -> bool {
    ||| cdb[0] == 0x28 && wire::number(cdb.subrange(2, 6)) == lba && wire::number(
        cdb.subrange(7, 9),
    ) == blocks
    ||| cdb[0] == 0x88 && wire::number(cdb.subrange(2, 10)) == lba && wire::number(
        cdb.subrange(10, 14),
    ) == blocks
}

/// `cdb` is a WRITE(10) or WRITE(16) of `blocks` blocks at `lba`.
pub open spec fn is_write(cdb: Seq<u8>, lba: int, blocks: int) -> bool {
    ||| cdb[0] == 0x2a && wire::number(cdb.subrange(2, 6)) == lba && wire::number(
        cdb.subrange(7, 9),
    ) == blocks
    ||| cdb[0] == 0x8a && wire::number(cdb.subrange(2, 10)) == lba && wire::number(
        cdb.subrange(10, 14),
    ) == blocks
}

proof fn fields_are_numbers(cdb: Seq<u8>)
    requires
        cdb.len() == 16,
    ensures
        wire::be32_at(cdb, 2) == wire::number(cdb.subrange(2, 6)),
        wire::be16_at(cdb, 7) == wire::number(cdb.subrange(7, 9)),
        wire::be64_at(cdb, 2) == wire::number(cdb.subrange(2, 10)),
        wire::be32_at(cdb, 10) == wire::number(cdb.subrange(10, 14)),
{
    wire::be32_at_is_number(cdb, 2);
    wire::be16_at_is_number(cdb, 7);
    wire::be64_at_is_number(cdb, 2);
    wire::be32_at_is_number(cdb, 10);
}

proof fn keys_are_kept()
    ensures
        0u8 & 0x0f == 0,
        3u8 & 0x0f == 3,
        5u8 & 0x0f == 5,
{
    assert(0u8 & 0x0f == 0 && 3u8 & 0x0f == 3 && 5u8 & 0x0f == 5) by (bit_vector);
}

/// `blocks` blocks at `lba` lie within the first `size` bytes just when they
/// lie within the whole blocks there are.
proof fn blocks_within(size: int, bs: int, lba: int, blocks: int)
    requires
        0 < bs,
        0 <= size,
    ensures
        (lba + blocks) * bs <= size <==> lba + blocks <= size / bs,
        (lba + blocks) * bs == lba * bs + blocks * bs,
{
    assert((lba + blocks) * bs <= size <==> lba + blocks <= size / bs) by (nonlinear_arith)
        requires
            0 < bs,
            0 <= size,
    ;
    assert((lba + blocks) * bs == lba * bs + blocks * bs) by (nonlinear_arith);
}

/// A read gives the bytes of the disk: from its address times the block size,
/// as many as the blocks it asks for hold. Past the end of the disk it is
/// refused, and only a byte that cannot be read makes it fail otherwise. No
/// unit changes.
pub proof fn reads_give_the_disk<M: BackingStore, O: OverlayStore>(
    before: &ScsiTarget<M, O>,
    after: &ScsiTarget<M, O>,
    lun: u64,
    n: int,
    cdb: Seq<u8>,
    payload: Seq<u8>,
    out: OutcomeView,
    lba: int,
    blocks: int,
)
    requires
        before.wf(),
        addresses(before, lun, n),
        cdb.len() == 16,
        is_read(cdb, lba, blocks),
        after.executed(before, lun, cdb, payload, out),
    ensures
        after.luns@ == before.luns@,
        ({
            let u = before.luns@[n]->0;
            let bs = u.block_size as int;
            let disk = u.volume.content();
            if (lba + blocks) * bs > disk.len() {
                is_check(out, 5, 0x21)
            } else {
                ||| is_good(out, disk.subrange(lba * bs, (lba + blocks) * bs))
                ||| is_check(out, 3, 0x11) && exists|i: int|
                    lba * bs <= i < (lba + blocks) * bs && !#[trigger] u.volume.readable(i)
            }
        }),
{
    fields_are_numbers(cdb);
    keys_are_kept();
    let u = before.luns@[n]->0;
    let bs = u.block_size as int;
    let disk = u.volume.content();
    assert(before.selects(lun) == Some(n));
    blocks_within(disk.len() as int, bs, lba, blocks);
    if (lba + blocks) * bs <= disk.len() {
        cdb::step_is_in_range(&u, cdb, payload.len() as int);
        if blocks == 0 {
            assert(0 * bs == 0);
            assert(disk.subrange(lba * bs, (lba + blocks) * bs) =~= Seq::<u8>::empty());
        } else if out.status == 0 {
            assert(out.data =~= disk.subrange(lba * bs, (lba + blocks) * bs));
        } else {
            assert(!u.volume.span_readable(lba * bs, lba * bs + blocks * bs));
        }
    }
    assert(after.luns@ =~= before.luns@);
}

/// A write stores its bytes from its address times the block size on, and
/// nothing else of the target changes. Past the end of the disk, or with
/// another number of bytes than its blocks hold, it is refused and changes
/// nothing; otherwise it fails only where the rest of a block that it
/// overwrites in part cannot be read.
pub proof fn writes_change_the_disk<M: BackingStore, O: OverlayStore>(
    before: &ScsiTarget<M, O>,
    after: &ScsiTarget<M, O>,
    lun: u64,
    n: int,
    cdb: Seq<u8>,
    payload: Seq<u8>,
    out: OutcomeView,
    lba: int,
    blocks: int,
)
    requires
        before.wf(),
        addresses(before, lun, n),
        cdb.len() == 16,
        is_write(cdb, lba, blocks),
        after.executed(before, lun, cdb, payload, out),
    ensures
        addresses(after, lun, n),
        forall|k: int| 0 <= k < before.luns@.len() && k != n ==> #[trigger] after.luns@[k]
            == before.luns@[k],
        ({
            let u = before.luns@[n]->0;
            let v = after.luns@[n]->0;
            let bs = u.block_size as int;
            let disk = u.volume.content();
            let at = lba * bs;
            &&& v.block_size == bs
            &&& v.serial == u.serial
            &&& v.volume.master_content() == u.volume.master_content()
            &&& v.volume.content().len() == disk.len()
            &&& if (lba + blocks) * bs > disk.len() {
                is_check(out, 5, 0x21) && v.volume.content() == disk
            } else if payload.len() != blocks * bs {
                is_check(out, 5, 0x24) && v.volume.content() == disk
            } else {
                &&& forall|i: int|
                    0 <= i < disk.len() && !(at <= i < at + payload.len())
                        ==> #[trigger] v.volume.content()[i] == disk[i]
                &&& is_good(out, Seq::empty()) && v.volume.content().subrange(
                    at,
                    at + payload.len(),
                ) == payload || is_check(out, 3, 0x0c) && exists|i: int|
                    0 <= i < disk.len() && !#[trigger] u.volume.readable(i)
            }
        }),
{
    fields_are_numbers(cdb);
    keys_are_kept();
    let u = before.luns@[n]->0;
    let v = after.luns@[n]->0;
    let bs = u.block_size as int;
    let disk = u.volume.content();
    let at = lba * bs;
    assert(before.selects(lun) == Some(n));
    blocks_within(disk.len() as int, bs, lba, blocks);
    if (lba + blocks) * bs <= disk.len() && payload.len() == blocks * bs {
        cdb::step_is_in_range(&u, cdb, payload.len() as int);
        if blocks == 0 {
            assert(0 * bs == 0);
            assert(v.volume.content().subrange(at, at + payload.len()) =~= payload);
        } else if out.status == 0 {
            volume::read_after_write(disk, at, payload, v.volume.content(), v.volume.blocks());
        } else {
            assert(!u.volume.rest_readable(at, at + payload.len()));
        }
    }
}

/// What a read gives back of a write: a read of the blocks that a write
/// stored gives what it stored, be the one or the other a 10-byte or a 16-byte
/// command.
pub proof fn read_returns_what_write_stored<M: BackingStore, O: OverlayStore>(
    t0: &ScsiTarget<M, O>,
    t1: &ScsiTarget<M, O>,
    t2: &ScsiTarget<M, O>,
    lun: u64,
    n: int,
    write: Seq<u8>,
    payload: Seq<u8>,
    write_out: OutcomeView,
    read: Seq<u8>,
    read_out: OutcomeView,
    lba: int,
    blocks: int,
)
    requires
        t0.wf(),
        t1.wf(),
        addresses(t0, lun, n),
        write.len() == 16,
        read.len() == 16,
        is_write(write, lba, blocks),
        is_read(read, lba, blocks),
        t1.executed(t0, lun, write, payload, write_out),
        write_out.status == 0x00,
        t2.executed(t1, lun, read, Seq::empty(), read_out),
    ensures
        is_good(read_out, payload),
{
    writes_change_the_disk(t0, t1, lun, n, write, payload, write_out, lba, blocks);
    reads_give_the_disk(t1, t2, lun, n, read, Seq::empty(), read_out, lba, blocks);
    fields_are_numbers(write);
    let u = t0.luns@[n]->0;
    let v = t1.luns@[n]->0;
    let bs = u.block_size as int;
    blocks_within(u.volume.content().len() as int, bs, lba, blocks);
    assert(t0.selects(lun) == Some(n));
    if blocks == 0 {
        assert(0 * bs == 0);
    } else {
        cdb::step_is_in_range(&u, write, payload.len() as int);
        assert(volume::covered(v.volume.blocks(), lba * bs, lba * bs + blocks * bs));
    }
}

/// READ CAPACITY tells the number of whole blocks: the last block reported can
/// be read, the one behind it cannot. The 10-byte form reports an address that
/// does not fit in 32 bits as the largest that does.
pub proof fn capacity_is_the_last_block<M: BackingStore, O: OverlayStore>(
    before: &ScsiTarget<M, O>,
    after: &ScsiTarget<M, O>,
    lun: u64,
    n: int,
    cdb: Seq<u8>,
    payload: Seq<u8>,
    out: OutcomeView,
)
    requires
        before.wf(),
        addresses(before, lun, n),
        after.executed(before, lun, cdb, payload, out),
        cdb[0] == 0x25 || cdb[0] == 0x9e && cdb[1] & 0x1f == 0x10,
    ensures
        after.luns@ == before.luns@,
        out.status == 0x00,
        out.sense.len() == 0,
        ({
            let u = before.luns@[n]->0;
            let bs = u.block_size as int;
            let size = u.volume.content().len();
            let (width, len): (int, int) = if cdb[0] == 0x25 {
                (4, 8)
            } else {
                (8, 32)
            };
            let last = wire::number(out.data.subrange(0, width));
            &&& out.data.len() == len
            &&& wire::number(out.data.subrange(width, width + 4)) == bs
            &&& forall|i: int| width + 4 <= i < len ==> #[trigger] out.data[i] == 0
            &&& size < bs ==> last == 0
            &&& size >= bs ==> (last + 1) * bs <= size
            &&& size < (last + 2) * bs || cdb[0] == 0x25 && last == 0xffff_ffff
        }),
{
    let u = before.luns@[n]->0;
    let bs = u.block_size as int;
    let size = u.volume.content().len() as int;
    assert(before.selects(lun) == Some(n));
    assert(after.luns@ =~= before.luns@);
    let total = size / bs;
    let last = cdb::last_block(total);
    assert(total * bs <= size < (total + 1) * bs && (size < bs <==> total == 0) && total >= 0
        && total <= size) by (nonlinear_arith)
        requires
            total == size / bs,
            bs > 0,
            size >= 0,
    ;
    if cdb[0] == 0x25 {
        let capped: u32 = if last > u32::MAX {
            u32::MAX
        } else {
            last as u32
        };
        wire::bytes_spell_the_integer(0, 0, capped, 0);
        wire::bytes_spell_the_integer(0, 0, u.block_size, 0);
        assert(out.data =~= wire::be32(capped) + wire::be32(u.block_size));
        assert(out.data.subrange(0, 4) =~= wire::be32(capped));
        assert(out.data.subrange(4, 8) =~= wire::be32(u.block_size));
        if last > u32::MAX {
            assert((capped + 1) * bs <= size) by (nonlinear_arith)
                requires
                    capped + 1 <= total,
                    total * bs <= size,
                    bs > 0,
            ;
        }
    } else {
        wire::bytes_spell_the_integer(0, 0, u.block_size, last as u64);
        assert(out.data =~= wire::be64(last as u64) + wire::be32(u.block_size) + wire::zeros(20));
        assert(out.data.subrange(0, 8) =~= wire::be64(last as u64));
        assert(out.data.subrange(8, 12) =~= wire::be32(u.block_size));
    }
    if total == 0 {
        assert(2 * bs > size);
    }
}

/// INQUIRY gives the identity of the unit: 36 bytes for a direct-access device
/// that count what follows the fifth of them, then vendor, product and
/// revision.
pub proof fn inquiry_tells_the_identity<M: BackingStore, O: OverlayStore>(
    before: &ScsiTarget<M, O>,
    after: &ScsiTarget<M, O>,
    lun: u64,
    n: int,
    cdb: Seq<u8>,
    payload: Seq<u8>,
    out: OutcomeView,
)
    requires
        addresses(before, lun, n),
        after.executed(before, lun, cdb, payload, out),
        cdb[0] == 0x12,
        cdb[1] & 0x01 == 0,
    ensures
        after.luns@ == before.luns@,
        ({
            let u = before.luns@[n]->0;
            if cdb[2] != 0 {
                is_check(out, 5, 0x24)
            } else {
                &&& is_good(out, out.data)
                &&& out.data.len() == 36
                &&& out.data[0] == 0
                &&& out.data[1] == if u.removable { 0x80u8 } else { 0u8 }
                &&& out.data[2] == 5
                &&& out.data[3] == 2
                &&& out.data[4] == 36 - 5
                &&& out.data.subrange(5, 8) == seq![0u8, 0u8, 0u8]
                &&& out.data.subrange(8, 16) == u.vendor@
                &&& out.data.subrange(16, 32) == u.product@
                &&& out.data.subrange(32, 36) == u.revision@
            }
        }),
{
    keys_are_kept();
    let u = before.luns@[n]->0;
    assert(before.selects(lun) == Some(n));
    assert(after.luns@ =~= before.luns@);
    if cdb[2] == 0 {
        assert(u.vendor@.len() == 8 && u.product@.len() == 16 && u.revision@.len() == 4);
        assert(out.data.subrange(5, 8) =~= seq![0u8, 0u8, 0u8]);
        assert(out.data.subrange(8, 16) =~= u.vendor@);
        assert(out.data.subrange(16, 32) =~= u.product@);
        assert(out.data.subrange(32, 36) =~= u.revision@);
    }
}

/// The vital product data pages that INQUIRY gives are those that page 0x00
/// lists, each under its own number and with its length; any other is refused.
/// Page 0x80 is the serial number; page 0x83 is one designator of vendor,
/// product and serial number.
pub proof fn product_pages<M: BackingStore, O: OverlayStore>(
    before: &ScsiTarget<M, O>,
    after: &ScsiTarget<M, O>,
    lun: u64,
    n: int,
    cdb: Seq<u8>,
    payload: Seq<u8>,
    out: OutcomeView,
)
    requires
        addresses(before, lun, n),
        after.executed(before, lun, cdb, payload, out),
        cdb[0] == 0x12,
        cdb[1] & 0x01 != 0,
    ensures
        after.luns@ == before.luns@,
        ({
            let u = before.luns@[n]->0;
            let serial = vstd::utf8::encode_utf8(u.serial@);
            let page = cdb[2];
            if page != 0x00 && page != 0x80 && page != 0x83 {
                is_check(out, 5, 0x24)
            } else {
                &&& is_good(out, out.data)
                &&& out.data.len() >= 4
                &&& out.data[0] == 0
                &&& out.data[1] == page
                &&& page == 0x00 ==> out.data.skip(4) == seq![0x00u8, 0x80u8, 0x83u8]
                    && out.data[2] == 0 && out.data[3] == 3
                &&& page == 0x80 ==> out.data.skip(4) == serial && out.data[2] == 0
                    && out.data[3] == serial.len() % 0x100
                &&& page == 0x83 ==> {
                    &&& out.data.skip(8) == u.vendor@ + u.product@ + serial
                    &&& wire::number(out.data.subrange(2, 4)) == (out.data.len() - 4) % 0x1_0000
                    &&& out.data[4] == 2
                    &&& out.data[5] == 1
                    &&& out.data[6] == 0
                    &&& out.data[7] == (out.data.len() - 8) % 0x100
                }
            }
        }),
{
    keys_are_kept();
    let u = before.luns@[n]->0;
    let serial = vstd::utf8::encode_utf8(u.serial@);
    assert(before.selects(lun) == Some(n));
    assert(after.luns@ =~= before.luns@);
    if cdb[2] == 0x00 {
        assert(out.data.skip(4) =~= seq![0x00u8, 0x80u8, 0x83u8]);
    } else if cdb[2] == 0x80 {
        assert(out.data.skip(4) =~= serial);
    } else if cdb[2] == 0x83 {
        let id = u.vendor@ + u.product@ + serial;
        let desc = seq![0x02u8, 0x01u8, 0x00u8, (id.len() % 0x100) as u8] + id;
        let len = (desc.len() % 0x1_0000) as u16;
        wire::bytes_spell_the_integer(len, 0, 0, 0);
        assert(out.data =~= seq![0x00u8, 0x83u8] + wire::be16(len) + desc);
        assert(out.data.subrange(2, 4) =~= wire::be16(len));
        assert(out.data.skip(8) =~= id);
    }
}

/// The place of the entry of the LUN `k` in a report: behind those of the LUNs
/// present before it.
pub open spec fn present_before<M, O>(luns: Seq<Option<LogicalUnit<M, O>>>, k: int) -> int
    decreases k,
{
    if k <= 0 {
        0
    } else {
        present_before(luns, k - 1) + if luns[k - 1] is Some {
            1int
        } else {
            0int
        }
    }
}

proof fn entries_in_order<M, O>(luns: Seq<Option<LogicalUnit<M, O>>>, k: int)
    requires
        0 <= k <= luns.len(),
    ensures
        super::lun_entries(luns, k).len() == 8 * present_before(luns, k),
        0 <= present_before(luns, k) <= k,
        forall|j: int| 0 <= j < k && luns[j] is Some ==> {
            let at = 8 * #[trigger] present_before(luns, j);
            &&& 0 <= at <= super::lun_entries(luns, k).len() - 8
            &&& super::lun_entries(luns, k).subrange(at, at + 8) == seq![
                0u8, (j % 0x100) as u8, 0u8, 0u8, 0u8, 0u8, 0u8, 0u8,
            ]
        },
    decreases k,
{
    if k > 0 {
        entries_in_order(luns, k - 1);
        let all = super::lun_entries(luns, k);
        let old_all = super::lun_entries(luns, k - 1);
        assert forall|j: int| 0 <= j < k && luns[j] is Some implies {
            let at = 8 * #[trigger] present_before(luns, j);
            &&& 0 <= at <= all.len() - 8
            &&& all.subrange(at, at + 8) == seq![
                0u8, (j % 0x100) as u8, 0u8, 0u8, 0u8, 0u8, 0u8, 0u8,
            ]
        } by {
            let at = 8 * present_before(luns, j);
            if j < k - 1 {
                assert(all.subrange(at, at + 8) =~= old_all.subrange(at, at + 8));
            } else {
                assert(all.subrange(at, at + 8) =~= seq![
                    0u8, (j % 0x100) as u8, 0u8, 0u8, 0u8, 0u8, 0u8, 0u8,
                ]);
            }
        }
    }
}

/// REPORT LUNS lists every LUN there is and no other, in order, eight bytes
/// each with the number in the second, behind the length of the list and four
/// bytes.
pub proof fn report_lists_the_luns<M: BackingStore, O: OverlayStore>(
    before: &ScsiTarget<M, O>,
    after: &ScsiTarget<M, O>,
    lun: u64,
    n: int,
    cdb: Seq<u8>,
    payload: Seq<u8>,
    out: OutcomeView,
)
    requires
        addresses(before, lun, n),
        after.executed(before, lun, cdb, payload, out),
        cdb[0] == 0xa0,
        before.luns@.len() < 0x1000_0000,
    ensures
        after.luns@ == before.luns@,
        is_good(out, out.data),
        out.data.len() == 8 + 8 * present_before(before.luns@, before.luns@.len() as int),
        wire::number(out.data.subrange(0, 4)) == out.data.len() - 8,
        forall|j: int| 0 <= j < before.luns@.len() && before.luns@[j] is Some ==> {
            let at = 8 + 8 * #[trigger] present_before(before.luns@, j);
            &&& 0 <= at <= out.data.len() - 8
            &&& out.data.subrange(at, at + 8) == seq![
                0u8, (j % 0x100) as u8, 0u8, 0u8, 0u8, 0u8, 0u8, 0u8,
            ]
        },
{
    assert(before.selects(lun) == Some(n));
    let luns = before.luns@;
    let list = super::lun_entries(luns, luns.len() as int);
    entries_in_order(luns, luns.len() as int);
    wire::bytes_spell_the_integer(0, 0, list.len() as u32, 0);
    assert(out.data =~= wire::be32(list.len() as u32) + wire::zeros(4) + list);
    assert(out.data.subrange(0, 4) =~= wire::be32(list.len() as u32));
    assert forall|j: int| 0 <= j < luns.len() && luns[j] is Some implies {
        let at = 8 + 8 * #[trigger] present_before(luns, j);
        &&& 0 <= at <= out.data.len() - 8
        &&& out.data.subrange(at, at + 8) == seq![
            0u8, (j % 0x100) as u8, 0u8, 0u8, 0u8, 0u8, 0u8, 0u8,
        ]
    } by {
        let at = 8 * present_before(luns, j);
        assert(out.data.subrange(8 + at, 8 + at + 8) =~= list.subrange(at, at + 8));
    }
}

/// MODE SENSE counts what it gives: the one byte of the 6-byte form's header,
/// or the two of the 10-byte form's, and behind a header of 4 or 8 bytes comes
/// the caching page, its write cache on, where that was asked for.
pub proof fn mode_sense_counts_its_pages<M: BackingStore, O: OverlayStore>(
    before: &ScsiTarget<M, O>,
    after: &ScsiTarget<M, O>,
    lun: u64,
    n: int,
    cdb: Seq<u8>,
    payload: Seq<u8>,
    out: OutcomeView,
)
    requires
        addresses(before, lun, n),
        after.executed(before, lun, cdb, payload, out),
        cdb[0] == 0x1a || cdb[0] == 0x5a,
    ensures
        after.luns@ == before.luns@,
        is_good(out, out.data),
        ({
            let header: int = if cdb[0] == 0x1a {
                4
            } else {
                8
            };
            &&& out.data.len() == header + if cdb[2] & 0x3f == 0x08 { 20int } else { 0int }
            &&& cdb[0] == 0x1a ==> out.data[0] == out.data.len() - 1
            &&& cdb[0] == 0x5a ==> wire::number(out.data.subrange(0, 2)) == out.data.len() - 2
            &&& cdb[2] & 0x3f == 0x08 ==> out.data[header] == 0x08 && out.data[header + 1] == 18
                && out.data[header + 2] == 0x04
            &&& forall|i: int|
                (if cdb[0] == 0x1a { 1int } else { 2int }) <= i < out.data.len() && !(header <= i
                    < header + 3) ==> #[trigger] out.data[i] == 0
        }),
{
    assert(before.selects(lun) == Some(n));
    assert(after.luns@ =~= before.luns@);
    if cdb[0] == 0x5a {
        let len = (cdb::mode_pages(cdb[2]).len() + 6) as u16;
        wire::bytes_spell_the_integer(len, 0, 0, 0);
        assert(out.data.subrange(0, 2) =~= wire::be16(len));
    }
}

/// The opcodes that are answered; any other is refused, and so is every
/// command to a LUN that there is not. What is refused changes nothing.
pub proof fn other_commands_are_refused<M: BackingStore, O: OverlayStore>(
    before: &ScsiTarget<M, O>,
    after: &ScsiTarget<M, O>,
    lun: u64,
    cdb: Seq<u8>,
    payload: Seq<u8>,
    out: OutcomeView,
)
    requires
        after.executed(before, lun, cdb, payload, out),
    ensures
        (forall|n: int| !#[trigger] addresses(before, lun, n)) ==> is_check(out, 5, 0x25)
            && after.luns@ == before.luns@,
        forall|n: int| #[trigger]
            addresses(before, lun, n) ==> {
                let op = cdb[0];
                &&& op == 0x00 || op == 0x35 || op == 0x91 || op == 0x1e || op == 0x1b ==> is_good(
                    out,
                    Seq::empty(),
                ) && after.luns@ == before.luns@
                &&& op == 0x03 ==> out.status == 0 && out.data.len() == 18 && out.data[0] == 0x70
                    && out.data[2] == 0 && after.luns@ == before.luns@
                &&& op != 0x00 && op != 0x03 && op != 0x12 && op != 0x1a && op != 0x1b && op
                    != 0x1e && op != 0x25 && op != 0x28 && op != 0x2a && op != 0x35 && op != 0x5a
                    && op != 0x88 && op != 0x8a && op != 0x91 && op != 0xa0 && !(op == 0x9e
                    && cdb[1] & 0x1f == 0x10) ==> is_check(out, 5, 0x20) && after.luns@
                    == before.luns@
            },
{
    keys_are_kept();
    match before.selects(lun) {
        None => {
            assert forall|n: int| !#[trigger] addresses(before, lun, n) by {
                if addresses(before, lun, n) {
                    assert(super::lun_of(lun) == Some(n));
                }
            }
        },
        Some(m) => {
            assert(lun as int / 0x1_0000_0000_0000 == m);
            assert(addresses(before, lun, m));
            assert(after.luns@ =~= before.luns@ || cdb[0] == 0x2a || cdb[0] == 0x8a || cdb[0]
                == 0xa0 || cdb[0] == 0x28 || cdb[0] == 0x88);
        },
    }
}

/// Whatever a command is, no master changes by it: every unit keeps its master,
/// byte by byte, with its size, its block size and its identity, and there are
/// the same units as before.
pub proof fn masters_are_never_changed<M: BackingStore, O: OverlayStore>(
    before: &ScsiTarget<M, O>,
    after: &ScsiTarget<M, O>,
    lun: u64,
    cdb: Seq<u8>,
    payload: Seq<u8>,
    out: OutcomeView,
    n: int,
)
    requires
        after.executed(before, lun, cdb, payload, out),
        0 <= n < before.luns@.len(),
    ensures
        after.luns@.len() == before.luns@.len(),
        (after.luns@[n] is Some) == (before.luns@[n] is Some),
        before.luns@[n] is Some ==> {
            let u = before.luns@[n]->0;
            let v = after.luns@[n]->0;
            &&& v.volume.master_content() == u.volume.master_content()
            &&& v.volume.content().len() == u.volume.content().len()
            &&& v.block_size == u.block_size
            &&& v.vendor == u.vendor
            &&& v.product == u.product
            &&& v.revision == u.revision
            &&& v.serial == u.serial
        },
{
    if let Some(m) = before.selects(lun) {
        if cdb[0] != 0xa0 {
            assert(after.luns@[n] == before.luns@.update(m, after.luns@[m])[n]);
        }
    }
}

} // verus!
