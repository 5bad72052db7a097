//! What a client that reads a file is sent.
use vstd::prelude::*;
use super::packet;
use super::packet::{PacketView, ParseError};
use super::server;
use super::server::{Event, Job, Lookup, OpeningView, StageView, StepView};
use crate::net::path;
use crate::text;
use crate::wire;

verus! {

/// Option `i` asks for blocks of `v` bytes: its key is `blksize`, and its value
/// is a number from 8 to 65535.
pub open spec fn asks_for(options: Seq<(Seq<char>, Seq<char>)>, i: int, v: int) -> bool {
    &&& options[i].0 == "blksize"@
    &&& text::parse_number(options[i].1, 65535) == Some(v)
    &&& v >= 8
}

/// The block size agreed on is the smaller of what the client asks for first
/// and the server's maximum: never more than either, and one of the two. Where
/// the client asks for none it is 512.
pub proof fn agreed_size_is_the_smaller(options: Seq<(Seq<char>, Seq<char>)>, max: u16)
    ensures
        forall|i: int, v: int|
            0 <= i < options.len() && #[trigger] asks_for(options, i, v) && (forall|j: int, w: int|
                0 <= j < i ==> !#[trigger] asks_for(options, j, w)) ==> {
                let n = server::blksize_of(options, max);
                n <= v && n <= max && (n == v || n == max)
            },
        (forall|j: int, w: int| 0 <= j < options.len() ==> !#[trigger] asks_for(options, j, w))
            ==> server::blksize_of(options, max) == 512,
    decreases options.len(),
{
    if options.len() > 0 {
        let rest = options.drop_first();
        agreed_size_is_the_smaller(rest, max);
        if server::asked_blksize(options[0]) is None {
            assert forall|w: int| !#[trigger] asks_for(options, 0, w) by {}
            assert forall|i: int, v: int|
                0 <= i < options.len() && #[trigger] asks_for(options, i, v) && (forall|
                    j: int,
                    w: int,
                | 0 <= j < i ==> !#[trigger] asks_for(options, j, w)) implies {
                let n = server::blksize_of(options, max);
                n <= v && n <= max && (n == v || n == max)
            } by {
                assert(asks_for(rest, i - 1, v));
                assert forall|j: int, w: int| 0 <= j < i - 1 implies !#[trigger] asks_for(
                    rest,
                    j,
                    w,
                ) by {
                    assert(!asks_for(options, j + 1, w));
                }
            }
            if forall|j: int, w: int|
                0 <= j < options.len() ==> !#[trigger] asks_for(options, j, w) {
                assert forall|j: int, w: int| 0 <= j < rest.len() implies !#[trigger] asks_for(
                    rest,
                    j,
                    w,
                ) by {
                    assert(!asks_for(options, j + 1, w));
                }
            }
        } else {
            let v = server::asked_blksize(options[0])->0;
            assert(asks_for(options, 0, v));
            assert forall|i: int, x: int|
                0 <= i < options.len() && #[trigger] asks_for(options, i, x) && (forall|
                    j: int,
                    w: int,
                | 0 <= j < i ==> !#[trigger] asks_for(options, j, w)) implies {
                let n = server::blksize_of(options, max);
                n <= x && n <= max && (n == x || n == max)
            } by {
                assert(i == 0);
            }
        }
    }
}

/// A client that writes the size it wants in decimal gets the smaller of that
/// and the maximum.
pub proof fn decimal_size_is_agreed_on(rest: Seq<(Seq<char>, Seq<char>)>, v: u16, max: u16)
    requires
        v >= 8,
    ensures
        server::blksize_of(seq![("blksize"@, text::decimal(v as nat))] + rest, max) == if v < max {
            v as int
        } else {
            max as int
        },
{
    let options = seq![("blksize"@, text::decimal(v as nat))] + rest;
    text::decimal_round_trip(v as nat, 65535);
    assert(asks_for(options, 0, v as int));
    agreed_size_is_the_smaller(options, max);
}

/// A DATA packet is the number 3, the block's number, and its bytes.
pub open spec fn is_data(p: Seq<u8>, block: int, data: Seq<u8>) -> bool {
    &&& p.len() == 4 + data.len()
    &&& wire::number(p.subrange(0, 2)) == 3
    &&& wire::number(p.subrange(2, 4)) == block
    &&& p.skip(4) == data
}

/// An ERROR packet is the number 5, the code, and the message with a null.
pub open spec fn is_error(p: Seq<u8>, code: int, message: Seq<char>) -> bool {
    &&& p.len() >= 5
    &&& wire::number(p.subrange(0, 2)) == 5
    &&& wire::number(p.subrange(2, 4)) == code
    &&& p.subrange(4, p.len() - 1) == vstd::utf8::encode_utf8(message)
    &&& p.last() == 0
}

/// The packets that are sent have the form they should.
pub proof fn packets_are_laid_out(
    block: u16,
    data: Seq<u8>,
    code: u16,
    message: Seq<char>,
    options: Seq<(Seq<char>, Seq<char>)>,
    key: Seq<char>,
    value: Seq<char>,
)
    ensures
        is_data(packet::data_bytes(block, data), block as int, data),
        is_error(packet::error_bytes(code, message), code as int, message),
        packet::oack_bytes(Seq::empty()) == seq![0u8, 6u8],
        packet::oack_bytes(options.push((key, value))) == packet::oack_bytes(options)
            + vstd::utf8::encode_utf8(key) + seq![0u8] + vstd::utf8::encode_utf8(value) + seq![
            0u8,
        ],
{
    wire::bytes_spell_the_integer(3, 0, 0, 0);
    wire::bytes_spell_the_integer(5, 0, 0, 0);
    wire::bytes_spell_the_integer(block, 0, 0, 0);
    wire::bytes_spell_the_integer(code, 0, 0, 0);
    let d = packet::data_bytes(block, data);
    assert(d.subrange(0, 2) =~= wire::be16(3));
    assert(d.subrange(2, 4) =~= wire::be16(block));
    assert(d.skip(4) =~= data);
    let e = packet::error_bytes(code, message);
    assert(e.subrange(0, 2) =~= wire::be16(5));
    assert(e.subrange(2, 4) =~= wire::be16(code));
    assert(e.subrange(4, e.len() - 1) =~= vstd::utf8::encode_utf8(message));
    assert(packet::oack_bytes(Seq::empty()) =~= seq![0u8, 6u8]);
    let more = options.push((key, value));
    assert(more.drop_last() =~= options);
    assert(packet::oack_bytes(more) =~= packet::oack_bytes(options) + vstd::utf8::encode_utf8(key)
        + seq![0u8] + vstd::utf8::encode_utf8(value) + seq![0u8]);
}

/// Options are read pair by pair, the key in lower case.
pub proof fn options_are_read_in_pairs(key: Seq<char>, value: Seq<char>, rest: Seq<u8>)
    requires
        key.len() > 0,
        value.len() > 0,
        !key.contains('\0'),
        !value.contains('\0'),
    ensures
        packet::options_in(Seq::empty()) == Ok::<Seq<(Seq<char>, Seq<char>)>, ParseError>(
            Seq::empty(),
        ),
        ({
            let b = vstd::utf8::encode_utf8(key) + seq![0u8] + vstd::utf8::encode_utf8(value)
                + seq![0u8] + rest;
            match packet::options_in(rest) {
                Ok(more) => packet::options_in(b) == Ok::<Seq<(Seq<char>, Seq<char>)>, ParseError>(
                    seq![(text::lowercase(key), value)] + more,
                ),
                Err(e) => packet::options_in(b) == Err::<Seq<(Seq<char>, Seq<char>)>, ParseError>(
                    e,
                ),
            }
        }),
{
    let b = vstd::utf8::encode_utf8(key) + seq![0u8] + vstd::utf8::encode_utf8(value) + seq![0u8]
        + rest;
    let n = packet::field_bytes(key).len() as int;
    let m = packet::field_bytes(value).len() as int;
    packet::field_round_trip(key, packet::field_bytes(value) + rest);
    packet::field_round_trip(value, rest);
    assert(b =~= packet::field_bytes(key) + (packet::field_bytes(value) + rest));
    skips_add(b, n, m, packet::field_bytes(value) + rest, rest);
    pair_comes_first(b, key, n, value, m);
}

proof fn pair_comes_first(b: Seq<u8>, key: Seq<char>, n: int, value: Seq<char>, m: int)
    requires
        0 < n < b.len(),
        packet::field_in(b) == Ok::<(Seq<char>, int), ParseError>((key, n)),
        packet::field_in(b.skip(n)) == Ok::<(Seq<char>, int), ParseError>((value, m)),
    ensures
        packet::options_in(b) == packet::after(
            seq![(text::lowercase(key), value)],
            packet::options_in(b.skip(n + m)),
        ),
{
}

/// A read request, the number 1 and two texts with their nulls and options, is
/// served where its path stays below the root, and refused as an access
/// violation where it does not; a write request, the number 2, always is.
pub proof fn requests_are_served_or_refused(name: Seq<char>, mode: Seq<char>, rest: Seq<u8>)
    requires
        name.len() > 0,
        mode.len() > 0,
        !name.contains('\0'),
        !mode.contains('\0'),
    ensures
        ({
            let tail = vstd::utf8::encode_utf8(name) + seq![0u8] + vstd::utf8::encode_utf8(mode)
                + seq![0u8] + rest;
            &&& packet::options_in(rest) matches Ok(options) ==> {
                let o = server::opening(seq![0u8, 1u8] + tail);
                if path::is_relative(vstd::utf8::encode_utf8(name)) {
                    o == (OpeningView::Read { filename: name, options })
                } else {
                    o matches OpeningView::Refuse(p) && is_error(p, 2, "Invalid path"@)
                }
            }
            &&& packet::options_in(rest) is Err ==> server::opening(seq![0u8, 1u8] + tail)
                == OpeningView::Ignore
            &&& server::opening(seq![0u8, 2u8] + tail) matches OpeningView::Refuse(p) && is_error(
                p,
                2,
                "Write access denied"@,
            )
        }),
{
    let tail = vstd::utf8::encode_utf8(name) + seq![0u8] + vstd::utf8::encode_utf8(mode) + seq![0u8]
        + rest;
    request_splits(name, mode, rest);
    packet_of_tail(true, tail);
    packet_of_tail(false, tail);
    refusal_is_laid_out("Invalid path"@);
    refusal_is_laid_out("Write access denied"@);
}

proof fn refusal_is_laid_out(message: Seq<char>)
    ensures
        is_error(packet::error_bytes(2, message), 2, message),
{
    packets_are_laid_out(
        0,
        Seq::empty(),
        2,
        message,
        Seq::empty(),
        Seq::empty(),
        Seq::empty(),
    );
}

/// The number of a request, then its fields.
proof fn packet_of_tail(read: bool, tail: Seq<u8>)
    ensures
        packet::packet_in(
            (if read {
                seq![0u8, 1u8]
            } else {
                seq![0u8, 2u8]
            }) + tail,
        ) == packet::request_in(read, tail),
{
    let b = (if read {
        seq![0u8, 1u8]
    } else {
        seq![0u8, 2u8]
    }) + tail;
    assert(b.skip(2) =~= tail);
}

/// The two texts of a request and what follows them.
proof fn request_splits(name: Seq<char>, mode: Seq<char>, rest: Seq<u8>)
    requires
        name.len() > 0,
        mode.len() > 0,
        !name.contains('\0'),
        !mode.contains('\0'),
    ensures
        ({
            let tail = vstd::utf8::encode_utf8(name) + seq![0u8] + vstd::utf8::encode_utf8(mode)
                + seq![0u8] + rest;
            &&& packet::request_in(true, tail) == match packet::options_in(rest) {
                Ok(options) => Ok::<PacketView, ParseError>(
                    PacketView::Rrq { filename: name, mode, options },
                ),
                Err(e) => Err(e),
            }
            &&& packet::request_in(false, tail) == Ok::<PacketView, ParseError>(
                PacketView::Wrq { filename: name, mode },
            )
        }),
{
    let tail = vstd::utf8::encode_utf8(name) + seq![0u8] + vstd::utf8::encode_utf8(mode) + seq![0u8]
        + rest;
    let n = packet::field_bytes(name).len() as int;
    let m = packet::field_bytes(mode).len() as int;
    packet::field_round_trip(name, packet::field_bytes(mode) + rest);
    packet::field_round_trip(mode, rest);
    assert(tail =~= packet::field_bytes(name) + (packet::field_bytes(mode) + rest));
    skips_add(tail, n, m, packet::field_bytes(mode) + rest, rest);
    request_parts(tail, name, n, mode, m);
}

proof fn skips_add(b: Seq<u8>, n: int, m: int, after: Seq<u8>, rest: Seq<u8>)
    requires
        0 <= n,
        0 <= m,
        n + m <= b.len(),
        b.skip(n) == after,
        after.skip(m) == rest,
    ensures
        b.skip(n + m) == rest,
{
    assert(b.skip(n + m) =~= b.skip(n).skip(m));
}

proof fn request_parts(tail: Seq<u8>, name: Seq<char>, n: int, mode: Seq<char>, m: int)
    requires
        packet::field_in(tail) == Ok::<(Seq<char>, int), ParseError>((name, n)),
        packet::field_in(tail.skip(n)) == Ok::<(Seq<char>, int), ParseError>((mode, m)),
    ensures
        packet::request_in(true, tail) == match packet::options_in(tail.skip(n + m)) {
            Ok(options) => Ok::<PacketView, ParseError>(
                PacketView::Rrq { filename: name, mode, options },
            ),
            Err(e) => Err(e),
        },
        packet::request_in(false, tail) == Ok::<PacketView, ParseError>(
            PacketView::Wrq { filename: name, mode },
        ),
{
}

/// Anything but a request opens nothing.
pub proof fn other_datagrams_are_ignored(datagram: Seq<u8>)
    ensures
        datagram.len() < 2 || wire::number(datagram.subrange(0, 2)) != 1 && wire::number(
            datagram.subrange(0, 2),
        ) != 2 ==> server::opening(datagram) == OpeningView::Ignore,
{
    if datagram.len() >= 2 {
        wire::be16_at_is_number(datagram, 0);
    }
}

/// `b` has a component that is one or two dots: between separators or the ends
/// of `b`.
pub open spec fn has_dots(b: Seq<u8>) -> bool {
    exists|i: int, n: int|
        #![trigger b.subrange(i, i + n)]
        0 <= i && 1 <= n <= 2 && i + n <= b.len() && (i == 0 || b[i - 1] == 0x2f || b[i - 1]
            == 0x5c) && (i + n == b.len() || b[i + n] == 0x2f || b[i + n] == 0x5c) && b.subrange(
            i,
            i + n,
        ) == (if n == 1 {
            seq![0x2eu8]
        } else {
            seq![0x2eu8, 0x2eu8]
        })
}

/// The names that stay below the root: not empty, starting with no separator,
/// with no colon in the second place, and with no component of dots.
pub proof fn names_that_stay_below(b: Seq<u8>)
    ensures
        path::is_relative(b) == (b.len() > 0 && b[0] != 0x2f && b[0] != 0x5c && !(b.len() >= 2
            && b[1] == 0x3a) && !has_dots(b)),
{
    if path::is_relative(b) && has_dots(b) {
        let (i, n) = choose|i: int, n: int|
            #![trigger b.subrange(i, i + n)]
            0 <= i && 1 <= n <= 2 && i + n <= b.len() && (i == 0 || b[i - 1] == 0x2f || b[i - 1]
                == 0x5c) && (i + n == b.len() || b[i + n] == 0x2f || b[i + n] == 0x5c)
                && b.subrange(i, i + n) == (if n == 1 {
                seq![0x2eu8]
            } else {
                seq![0x2eu8, 0x2eu8]
            });
        let part = b.subrange(i, i + n);
        assert forall|k: int| i <= k < i + n implies #[trigger] b[k] == 0x2e by {
            assert(part[k - i] == b[k]);
        }
        assert(path::is_component(b, i, i + n));
        assert(path::is_dots(b, i, i + n));
    }
    if b.len() > 0 && b[0] != 0x2f && b[0] != 0x5c && !(b.len() >= 2 && b[1] == 0x3a) && !has_dots(
        b,
    ) {
        assert forall|i: int, j: int| #[trigger] path::is_component(b, i, j) implies !path::is_dots(
            b,
            i,
            j,
        ) by {
            if path::is_dots(b, i, j) {
                let n = j - i;
                let part = b.subrange(i, i + n);
                assert(part =~= (if n == 1 {
                    seq![0x2eu8]
                } else {
                    seq![0x2eu8, 0x2eu8]
                }));
                assert(has_dots(b));
            }
        }
    }
}

/// A datagram acknowledges block `b` just when it is four bytes: the number 4
/// and `b`.
pub proof fn what_acknowledges(e: Event)
    ensures
        server::acked(e) == match e {
            Event::Datagram(d) => if d@.len() == 4 && wire::number(d@.subrange(0, 2)) == 4 {
                Some(wire::number(d@.subrange(2, 4)))
            } else {
                None
            },
            _ => None,
        },
{
    if let Event::Datagram(d) = e {
        if d@.len() >= 2 {
            wire::be16_at_is_number(d@, 0);
        }
        if d@.len() == 4 {
            wire::be16_at_is_number(d@, 2);
        }
    }
}

/// The bytes of block `block`: full, or what is left of the file.
pub open spec fn block_data(job: Job, block: int) -> Seq<u8> {
    let from = (block - 1) * job.block_size;
    let left = job.data.len() - from;
    job.data.subrange(
        from,
        if left < job.block_size {
            job.data.len() as int
        } else {
            from + job.block_size
        },
    )
}

/// A block is sent whole, under its number.
pub proof fn sends_the_block(job: Job, block: int, retries: int)
    requires
        job.wf(),
        1 <= block <= 65535,
        (block - 1) * job.block_size <= job.data.len(),
    ensures
        job.send(block, retries).0 == (StageView::Sending { block, retries }),
        job.send(block, retries).1 matches StepView::Send { packet, wait } && is_data(
            packet,
            block,
            block_data(job, block),
        ) && wait == job.timeout(retries),
{
    assert((block - 1) * job.block_size + job.block_size == block * job.block_size)
        by (nonlinear_arith);
    assert((block - 1) * job.block_size >= 0) by (nonlinear_arith)
        requires
            block >= 1,
            job.block_size >= 1,
    ;
    assert(job.chunk(block) =~= block_data(job, block));
    packets_are_laid_out(
        block as u16,
        job.chunk(block),
        0,
        Seq::empty(),
        Seq::empty(),
        Seq::empty(),
        Seq::empty(),
    );
}

/// The acknowledgement of a block has the next one sent, with the first
/// timeout; that of a block that was not full ends the transfer.
pub proof fn acknowledged_block_is_followed(job: Job, block: int, retries: int, timed_out: bool)
    requires
        job.wf(),
        job.reachable(StageView::Sending { block, retries }),
    ensures
        ({
            let (stage, step) = job.reaction(
                StageView::Sending { block, retries },
                Some(block),
                timed_out,
            );
            if block_data(job, block).len() < job.block_size {
                stage is Over && step is Stop
            } else {
                &&& stage == (StageView::Sending { block: block + 1, retries: 0 })
                &&& step matches StepView::Send { packet, wait }
                &&& is_data(packet, block + 1, block_data(job, block + 1))
                &&& wait == job.first_timeout
            }
        }),
{
    let bs = job.block_size;
    assert((block - 1) * bs + bs == block * bs) by (nonlinear_arith);
    assert((block - 1) * bs >= 0) by (nonlinear_arith)
        requires
            block >= 1,
            bs >= 1,
    ;
    if block_data(job, block).len() >= bs {
        job.next_block(block);
        sends_the_block(job, block + 1, 0);
        job.first_timeout_is_first();
    }
}

/// Anything else has the same block sent again, with twice the wait, as often
/// as the retries go; then the transfer ends, with an error where a timeout
/// ended it before its last block.
pub proof fn unacknowledged_block_is_repeated(
    job: Job,
    block: int,
    retries: int,
    ack: Option<int>,
    timed_out: bool,
)
    requires
        job.wf(),
        job.reachable(StageView::Sending { block, retries }),
        ack != Some(block),
    ensures
        ({
            let (stage, step) = job.reaction(
                StageView::Sending { block, retries },
                ack,
                timed_out,
            );
            if retries < job.max_retries {
                &&& stage == (StageView::Sending { block, retries: retries + 1 })
                &&& step matches StepView::Send { packet, wait }
                &&& is_data(packet, block, block_data(job, block))
                &&& job.send(block, retries).1 matches StepView::Send { packet: same, wait: first }
                &&& wait == 2 * first
            } else {
                &&& stage is Over
                &&& timed_out && block_data(job, block).len() == job.block_size ==> (
                step matches StepView::Abort(p) && is_error(p, 0, "Transfer timed out"@))
                &&& !timed_out || block_data(job, block).len() < job.block_size ==> step is Stop
            }
        }),
{
    let bs = job.block_size;
    assert((block - 1) * bs + bs == block * bs) by (nonlinear_arith);
    assert((block - 1) * bs >= 0) by (nonlinear_arith)
        requires
            block >= 1,
            bs >= 1,
    ;
    sends_the_block(job, block, retries);
    if retries < job.max_retries {
        sends_the_block(job, block, retries + 1);
        job.timeout_counts(retries);
    }
    packets_are_laid_out(
        0,
        Seq::empty(),
        0,
        "Transfer timed out"@,
        Seq::empty(),
        Seq::empty(),
        Seq::empty(),
    );
}

/// Options that were offered have to be acknowledged, as block 0, before the
/// first block is sent; anything else ends the transfer.
pub proof fn offer_has_to_be_acknowledged(job: Job, ack: Option<int>, timed_out: bool)
    requires
        job.wf(),
    ensures
        ({
            let (stage, step) = job.reaction(StageView::Offered, ack, timed_out);
            if ack == Some(0int) {
                &&& stage == (StageView::Sending { block: 1, retries: 0 })
                &&& step matches StepView::Send { packet, wait }
                &&& is_data(packet, 1, block_data(job, 1))
                &&& wait == job.first_timeout
            } else {
                stage is Over && step is Stop
            }
        }),
{
    assert((1 - 1) * job.block_size == 0) by (nonlinear_arith);
    sends_the_block(job, 1, 0);
    job.first_timeout_is_first();
}

/// What is agreed on: the block size, always, and the size of the file where
/// the client asked for it with `tsize` 0; nothing else.
pub proof fn what_is_agreed_on(options: Seq<(Seq<char>, Seq<char>)>, blksize: int, size: nat)
    requires
        0 <= blksize,
    ensures
        ({
            let a = server::agreed(options, blksize, size);
            &&& a.len() == 1 || a.len() == 2
            &&& a[0] == ("blksize"@, text::decimal(blksize as nat))
            &&& a.len() == 2 ==> a[1] == ("tsize"@, text::decimal(size))
            &&& a.len() == 2 <==> exists|i: int|
                0 <= i < options.len() && (#[trigger] options[i]).0 == "tsize"@ && options[i].1
                    == "0"@
        }),
{
    if server::asks_size(options) {
        let i = choose|i: int| 0 <= i < options.len() && #[trigger] options[i] == ("tsize"@, "0"@);
        assert(options[i].0 == "tsize"@);
    }
    if exists|i: int|
        0 <= i < options.len() && (#[trigger] options[i]).0 == "tsize"@ && options[i].1 == "0"@ {
        let i = choose|i: int|
            0 <= i < options.len() && (#[trigger] options[i]).0 == "tsize"@ && options[i].1
                == "0"@;
        assert(options[i] == ("tsize"@, "0"@));
    }
}

/// A file that is not there, or cannot be read, is not found; one outside the
/// root is denied; without a root the server fails.
pub proof fn lookups_fail_for_a_reason(l: Lookup)
    ensures
        ({
            let (code, message) = server::lookup_answer(l);
            &&& l is Missing || l is Unreadable ==> code == 1 && message == "File not found"@
            &&& l is Outside ==> code == 2 && message == "Path traversal denied"@
            &&& l is NoRoot ==> code == 0 && message == "Server error"@
        }),
{
}

/// A server with default parameters waits a second for an acknowledgement,
/// repeats a block five times, and sends blocks of at most 1468 bytes.
pub proof fn defaults_are_moderate(cfg: server::TftpServer)
    requires
        cfg.transfer_timeout == server::DEFAULT_TIMEOUT,
        cfg.max_retries == server::DEFAULT_MAX_RETRIES,
        cfg.max_blksize == server::DEFAULT_MAX_BLKSIZE,
    ensures
        cfg.transfer_timeout == 1000,
        cfg.max_retries == 5,
        cfg.max_blksize == 1468,
{
}

/// A transfer begins with the first block, for which the server waits its
/// timeout; where the client asked for options, with the block size that is
/// agreed on, for which it waits twice as long. It sends the whole file, and
/// tries as often as the server is set to.
pub proof fn transfers_begin(
    cfg: server::TftpServer,
    data: Seq<u8>,
    options: Seq<(Seq<char>, Seq<char>)>,
    job: Job,
    stage: StageView,
    step: StepView,
)
    requires
        server::begins(cfg, data, options, job, stage, step),
        job.wf(),
    ensures
        job.data == data,
        job.max_retries == cfg.max_retries,
        job.first_timeout == cfg.transfer_timeout,
        options.len() == 0 ==> {
            &&& stage == (StageView::Sending { block: 1, retries: 0 })
            &&& step matches StepView::Send { packet, wait }
            &&& is_data(packet, 1, block_data(job, 1))
            &&& wait == cfg.transfer_timeout
        },
        options.len() > 0 ==> {
            &&& stage is Offered
            &&& step matches StepView::Send { packet, wait }
            &&& wait == 2 * cfg.transfer_timeout
            &&& packet == packet::oack_bytes(server::agreed(options, job.block_size, data.len()))
        },
{
    if options.len() == 0 {
        assert((1 - 1) * job.block_size == 0) by (nonlinear_arith);
        sends_the_block(job, 1, 0);
        job.first_timeout_is_first();
    }
}

/// A client that asks for no size is sent blocks of 512 bytes; one that does, of
/// the size of its first usable option, or of the server's maximum where that is
/// less.
pub proof fn transfers_use_the_agreed_size(
    cfg: server::TftpServer,
    data: Seq<u8>,
    options: Seq<(Seq<char>, Seq<char>)>,
    job: Job,
    stage: StageView,
    step: StepView,
    i: int,
    v: int,
)
    requires
        server::begins(cfg, data, options, job, stage, step),
    ensures
        (forall|k: int, w: int| 0 <= k < options.len() ==> !#[trigger] asks_for(options, k, w))
            ==> job.block_size == 512,
        0 <= i < options.len() && asks_for(options, i, v) && (forall|k: int, w: int|
            0 <= k < i ==> !#[trigger] asks_for(options, k, w)) ==> job.block_size <= v
            && job.block_size <= cfg.max_blksize && (job.block_size == v || job.block_size
            == cfg.max_blksize),
{
    agreed_size_is_the_smaller(options, cfg.max_blksize);
}

} // verus!
