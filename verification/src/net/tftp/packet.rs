//! TFTP packets (RFC 1350, with the options of RFC 2347).
use vstd::prelude::*;
use crate::net::path;
use crate::text;
use crate::wire;

verus! {

/// TFTP opcodes (RFC 1350).
pub const OP_RRQ: u16 = 1;
pub const OP_WRQ: u16 = 2;
pub const OP_DATA: u16 = 3;
pub const OP_ACK: u16 = 4;
pub const OP_ERROR: u16 = 5;
pub const OP_OACK: u16 = 6;

/// TFTP error codes (RFC 1350 section 5, RFC 2347 section 3).
pub const ERR_UNDEFINED: u16 = 0;
pub const ERR_FILE_NOT_FOUND: u16 = 1;
pub const ERR_ACCESS_VIOLATION: u16 = 2;

/// A parsed inbound TFTP packet (what the server receives).
#[derive(Debug, PartialEq, Eq)]
pub enum Packet {
    /// Read request: opcode 1.
    Rrq {
        filename: String,
        mode: String,
        /// Any trailing options as (key, value) pairs.
        options: Vec<(String, String)>,
    },
    /// Write request: opcode 2. Parsed, to be refused.
    Wrq { filename: String, mode: String },
    /// Acknowledgement: opcode 4, block number.
    Ack { block: u16 },
    /// Error: opcode 5.
    Error { code: u16, message: String },
}

/// What a `Packet` holds.
pub enum PacketView {
    Rrq { filename: Seq<char>, mode: Seq<char>, options: Seq<(Seq<char>, Seq<char>)> },
    Wrq { filename: Seq<char>, mode: Seq<char> },
    Ack { block: u16 },
    Error { code: u16, message: Seq<char> },
}

/// What a list of options holds.
pub open spec fn options_view(options: Seq<(String, String)>) -> Seq<(Seq<char>, Seq<char>)> {
    Seq::new(options.len(), |i: int| (options[i].0@, options[i].1@))
}

impl View for Packet {
    type V = PacketView;

    open spec fn view(&self) -> PacketView {
        match self {
            Packet::Rrq { filename, mode, options } => PacketView::Rrq {
                filename: filename@,
                mode: mode@,
                options: options_view(options@),
            },
            Packet::Wrq { filename, mode } => PacketView::Wrq { filename: filename@, mode: mode@ },
            Packet::Ack { block } => PacketView::Ack { block: *block },
            Packet::Error { code, message } => PacketView::Error {
                code: *code,
                message: message@,
            },
        }
    }
}

#[derive(Debug, PartialEq, Eq)]
pub enum ParseError {
    /// Packet too short to contain even the opcode.
    TooShort,
    /// Opcode is none that a server receives.
    UnknownOpcode(u16),
    /// A null-terminated field is missing its terminator.
    MissingNull,
    /// Filename or mode is empty.
    EmptyField,
    /// ACK packet has wrong length (must be exactly 4 bytes: opcode + block).
    BadAckLength(usize),
    /// Could not parse an option value as a number.
    BadOptionValue,
}

/// The field at the start of `b` and the bytes it takes with its null.
pub open spec fn field_in(b: Seq<u8>) -> Result<(Seq<char>, int), ParseError> {
    let end = text::find(b, 0);
    if !(0 <= end < b.len()) {
        Err(ParseError::MissingNull)
    } else if text::lossy(b.take(end)).len() == 0 {
        Err(ParseError::EmptyField)
    } else {
        Ok((text::lossy(b.take(end)), end + 1))
    }
}

/// The options in `b`, pair by pair; a last key without a value is ignored.
pub open spec fn options_in(b: Seq<u8>) -> Result<Seq<(Seq<char>, Seq<char>)>, ParseError>
    decreases b.len(),
{
    if b.len() == 0 {
        Ok(Seq::empty())
    } else {
        match field_in(b) {
            Err(e) => Err(e),
            Ok((key, n)) => if n >= b.len() {
                Ok(Seq::empty())
            } else {
                match field_in(b.skip(n)) {
                    Err(e) => Err(e),
                    Ok((value, m)) => after(
                        seq![(text::lowercase(key), value)],
                        options_in(b.skip(n + m)),
                    ),
                }
            },
        }
    }
}

/// `first`, then what `rest` holds.
pub open spec fn after(
    first: Seq<(Seq<char>, Seq<char>)>,
    rest: Result<Seq<(Seq<char>, Seq<char>)>, ParseError>,
) -> Result<Seq<(Seq<char>, Seq<char>)>, ParseError> {
    match rest {
        Ok(options) => Ok(first + options),
        Err(e) => Err(e),
    }
}

/// The request that follows an opcode: file name, mode, and for a read request
/// options.
pub open spec fn request_in(read: bool, tail: Seq<u8>) -> Result<PacketView, ParseError> {
    match field_in(tail) {
        Err(e) => Err(e),
        Ok((filename, n)) => match field_in(tail.skip(n)) {
            Err(e) => Err(e),
            Ok((mode, m)) => if read {
                match options_in(tail.skip(n + m)) {
                    Err(e) => Err(e),
                    Ok(options) => Ok(PacketView::Rrq { filename, mode, options }),
                }
            } else {
                Ok(PacketView::Wrq { filename, mode })
            },
        },
    }
}

/// The packet that a datagram holds.
pub open spec fn packet_in(b: Seq<u8>) -> Result<PacketView, ParseError> {
    if b.len() < 2 {
        Err(ParseError::TooShort)
    } else {
        let opcode = wire::be16_at(b, 0);
        if opcode == OP_RRQ || opcode == OP_WRQ {
            request_in(opcode == OP_RRQ, b.skip(2))
        } else if opcode == OP_ACK {
            if b.len() != 4 {
                Err(ParseError::BadAckLength(b.len() as usize))
            } else {
                Ok(PacketView::Ack { block: wire::be16_at(b, 2) })
            }
        } else if opcode == OP_ERROR {
            if b.len() < 5 {
                Err(ParseError::TooShort)
            } else {
                Ok(
                    PacketView::Error {
                        code: wire::be16_at(b, 2),
                        message: text::lossy(b.subrange(4, b.len() - 1)),
                    },
                )
            }
        } else {
            Err(ParseError::UnknownOpcode(opcode))
        }
    }
}

/// Parse an inbound TFTP datagram. Never panics.
pub fn parse(buf: &[u8]) -> (r: Result<Packet, ParseError>)
    ensures
        r matches Ok(p) ==> packet_in(buf@) == Ok::<PacketView, ParseError>(p@),
        r matches Err(e) ==> packet_in(buf@) == Err::<PacketView, ParseError>(e),
{
    if buf.len() < 2 {
        return Err(ParseError::TooShort);
    }
    let opcode: u16 = wire::get_be16(buf, 0);
    if opcode == OP_RRQ || opcode == OP_WRQ {
        parse_rq(opcode == OP_RRQ, buf)
    } else if opcode == OP_ACK {
        parse_ack(buf)
    } else if opcode == OP_ERROR {
        parse_error(buf)
    } else {
        Err(ParseError::UnknownOpcode(opcode))
    }
}

/// Read the null-terminated string of `buf` at `pos`; also gives the position
/// after it.
fn read_cstr(buf: &[u8], pos: usize) -> (r: Result<(String, usize), ParseError>)
    requires
        pos <= buf@.len(),
    ensures
        r matches Ok(f) ==> pos < f.1 <= buf@.len() && field_in(buf@.skip(pos as int)) == Ok::<
            (Seq<char>, int),
            ParseError,
        >((f.0@, f.1 - pos)),
        r matches Err(e) ==> field_in(buf@.skip(pos as int)) == Err::<
            (Seq<char>, int),
            ParseError,
        >(e),
{
    let end: usize = text::find_byte(buf, pos, 0);
    if end == buf.len() {
        return Err(ParseError::MissingNull);
    }
    let s = text::from_utf8_lossy(vstd::slice::slice_subrange(buf, pos, end));
    assert(buf@.subrange(pos as int, end as int) =~= buf@.skip(pos as int).take(end - pos));
    if s.as_str().unicode_len() == 0 {
        return Err(ParseError::EmptyField);
    }
    Ok((s, end + 1))
}

fn parse_rq(read: bool, buf: &[u8]) -> (r: Result<Packet, ParseError>)
    requires
        buf@.len() >= 2,
    ensures
        r matches Ok(p) ==> request_in(read, buf@.skip(2)) == Ok::<PacketView, ParseError>(p@),
        r matches Err(e) ==> request_in(read, buf@.skip(2)) == Err::<PacketView, ParseError>(e),
{
    let ghost tail = buf@.skip(2);
    let (filename, at) = match read_cstr(buf, 2) {
        Ok(f) => f,
        Err(e) => return Err(e),
    };
    assert(tail.skip(at - 2) =~= buf@.skip(at as int));
    let (mode, end) = match read_cstr(buf, at) {
        Ok(f) => f,
        Err(e) => return Err(e),
    };
    assert(tail.skip(end - 2) =~= buf@.skip(end as int));
    // Only a read request has options.
    if !read {
        return Ok(Packet::Wrq { filename, mode });
    }
    match parse_options(buf, end) {
        Ok(options) => Ok(Packet::Rrq { filename, mode, options }),
        Err(e) => Err(e),
    }
}

/// Read the key-value pairs of `buf` from `from` on.
fn parse_options(buf: &[u8], from: usize) -> (r: Result<Vec<(String, String)>, ParseError>)
    requires
        from <= buf@.len(),
    ensures
        r matches Ok(o) ==> options_in(buf@.skip(from as int)) == Ok::<
            Seq<(Seq<char>, Seq<char>)>,
            ParseError,
        >(options_view(o@)),
        r matches Err(e) ==> options_in(buf@.skip(from as int)) == Err::<
            Seq<(Seq<char>, Seq<char>)>,
            ParseError,
        >(e),
{
    let ghost area = buf@.skip(from as int);
    let mut options: Vec<(String, String)> = Vec::new();
    let mut pos: usize = from;
    proof {
        assert(options_view(options@) =~= Seq::empty());
        same_after_nothing(options_in(area));
    }
    while pos < buf.len()
        invariant
            from <= pos <= buf@.len(),
            area == buf@.skip(from as int),
            options_in(area) == after(options_view(options@), options_in(buf@.skip(pos as int))),
        ensures
            options_in(area) == after(options_view(options@), Ok(Seq::empty())),
        decreases buf@.len() - pos,
    {
        let ghost rest = buf@.skip(pos as int);
        let (key, at) = match read_cstr(buf, pos) {
            Ok(f) => f,
            Err(e) => return Err(e),
        };
        if at >= buf.len() {
            // Key without a value: ignore (truncated option pair).
            break ;
        }
        assert(rest.skip(at - pos) =~= buf@.skip(at as int));
        let (value, end) = match read_cstr(buf, at) {
            Ok(f) => f,
            Err(e) => return Err(e),
        };
        let key = text::to_lowercase(key.as_str());
        let ghost before = options@;
        proof {
            assert(rest.skip(end - pos) =~= buf@.skip(end as int));
            after_twice(
                options_view(before),
                seq![(key@, value@)],
                options_in(buf@.skip(end as int)),
            );
        }
        options.push((key, value));
        assert(options_view(options@) =~= options_view(before) + seq![(key@, value@)]);
        pos = end;
    }
    assert(options_view(options@) + Seq::<(Seq<char>, Seq<char>)>::empty() =~= options_view(
        options@,
    ));
    Ok(options)
}

proof fn same_after_nothing(rest: Result<Seq<(Seq<char>, Seq<char>)>, ParseError>)
    ensures
        after(Seq::empty(), rest) == rest,
{
    if let Ok(o) = rest {
        assert(Seq::<(Seq<char>, Seq<char>)>::empty() + o =~= o);
    }
}

proof fn after_twice(
    a: Seq<(Seq<char>, Seq<char>)>,
    b: Seq<(Seq<char>, Seq<char>)>,
    rest: Result<Seq<(Seq<char>, Seq<char>)>, ParseError>,
)
    ensures
        after(a, after(b, rest)) == after(a + b, rest),
{
    if let Ok(o) = rest {
        assert(a + (b + o) =~= (a + b) + o);
    }
}

fn parse_ack(buf: &[u8]) -> (r: Result<Packet, ParseError>)
    requires
        buf@.len() >= 2,
        wire::be16_at(buf@, 0) == OP_ACK,
    ensures
        r matches Ok(p) ==> packet_in(buf@) == Ok::<PacketView, ParseError>(p@),
        r matches Err(e) ==> packet_in(buf@) == Err::<PacketView, ParseError>(e),
{
    if buf.len() != 4 {
        return Err(ParseError::BadAckLength(buf.len()));
    }
    Ok(Packet::Ack { block: wire::get_be16(buf, 2) })
}

fn parse_error(buf: &[u8]) -> (r: Result<Packet, ParseError>)
    requires
        buf@.len() >= 2,
        wire::be16_at(buf@, 0) == OP_ERROR,
    ensures
        r matches Ok(p) ==> packet_in(buf@) == Ok::<PacketView, ParseError>(p@),
        r matches Err(e) ==> packet_in(buf@) == Err::<PacketView, ParseError>(e),
{
    if buf.len() < 5 {
        // minimum: opcode, error code, null
        return Err(ParseError::TooShort);
    }
    let code: u16 = wire::get_be16(buf, 2);
    // Drop the trailing null.
    let message = text::from_utf8_lossy(vstd::slice::slice_subrange(buf, 4, buf.len() - 1));
    Ok(Packet::Error { code, message })
}

/// Returns `true` if `name` is a safe relative path that does not escape its
/// intended directory. Rejects absolute paths, `..` components, and empty names.
pub fn is_safe_path(name: &str) -> (r: bool)
    ensures
        r == path::is_relative(vstd::utf8::encode_utf8(name@)),
{
    path::stays_below(name)
}

/// The wire form of a DATA packet.
pub open spec fn data_bytes(block: u16, data: Seq<u8>) -> Seq<u8> {
    wire::be16(OP_DATA) + wire::be16(block) + data
}

/// A text and its null.
pub open spec fn field_bytes(s: Seq<char>) -> Seq<u8> {
    vstd::utf8::encode_utf8(s) + seq![0u8]
}

/// Options on the wire: keys and values, each with its null.
pub open spec fn options_bytes(options: Seq<(Seq<char>, Seq<char>)>) -> Seq<u8>
    decreases options.len(),
{
    if options.len() == 0 {
        Seq::empty()
    } else {
        options_bytes(options.drop_last()) + field_bytes(options.last().0) + field_bytes(
            options.last().1,
        )
    }
}

/// The wire form of an OACK packet.
pub open spec fn oack_bytes(options: Seq<(Seq<char>, Seq<char>)>) -> Seq<u8> {
    wire::be16(OP_OACK) + options_bytes(options)
}

/// The wire form of an ERROR packet.
pub open spec fn error_bytes(code: u16, message: Seq<char>) -> Seq<u8> {
    wire::be16(OP_ERROR) + wire::be16(code) + field_bytes(message)
}

/// Encode a DATA packet (opcode 3): opcode + block number + payload.
pub fn encode_data(block: u16, data: &[u8]) -> (buf: Vec<u8>)
    ensures
        buf@ == data_bytes(block, data@),
{
    let mut buf: Vec<u8> = Vec::new();
    wire::push_be16(&mut buf, OP_DATA);
    wire::push_be16(&mut buf, block);
    wire::push_bytes(&mut buf, data);
    assert(buf@ =~= data_bytes(block, data@));
    buf
}

/// Encode an OACK packet (opcode 6): opcode + null-terminated key-value pairs.
pub fn encode_oack(options: &[(String, String)]) -> (buf: Vec<u8>)
    ensures
        buf@ == oack_bytes(options_view(options@)),
{
    let ghost view = options_view(options@);
    let mut buf: Vec<u8> = Vec::new();
    wire::push_be16(&mut buf, OP_OACK);
    assert(view.take(0) =~= Seq::empty());
    assert(buf@ =~= oack_bytes(view.take(0)));
    let mut i: usize = 0;
    while i < options.len()
        invariant
            i <= options@.len(),
            view == options_view(options@),
            buf@ == oack_bytes(view.take(i as int)),
        decreases options@.len() - i,
    {
        wire::push_bytes(&mut buf, options[i].0.as_str().as_bytes());
        buf.push(0);
        wire::push_bytes(&mut buf, options[i].1.as_str().as_bytes());
        buf.push(0);
        assert(view.take(i + 1).drop_last() =~= view.take(i as int));
        assert(view.take(i + 1).last() == view[i as int]);
        i += 1;
        assert(buf@ =~= oack_bytes(view.take(i as int)));
    }
    assert(view.take(i as int) =~= view);
    buf
}

/// Encode an ERROR packet (opcode 5): opcode + error code + null-terminated message.
pub fn encode_error(code: u16, message: &str) -> (buf: Vec<u8>)
    ensures
        buf@ == error_bytes(code, message@),
{
    let mut buf: Vec<u8> = Vec::new();
    wire::push_be16(&mut buf, OP_ERROR);
    wire::push_be16(&mut buf, code);
    wire::push_bytes(&mut buf, message.as_bytes());
    buf.push(0);
    assert(buf@ =~= error_bytes(code, message@));
    buf
}

/// An ERROR packet parses to the error it carries.
pub proof fn error_round_trip(code: u16, message: Seq<char>)
    ensures
        packet_in(error_bytes(code, message)) == Ok::<PacketView, ParseError>(
            PacketView::Error { code, message },
        ),
{
    let b = error_bytes(code, message);
    assert(b.subrange(4, b.len() - 1) =~= vstd::utf8::encode_utf8(message));
    text::lossy_of_utf8(message);
}

/// A text that a field can carry: not empty, without a null.
pub open spec fn is_field(s: Seq<char>) -> bool {
    s.len() > 0 && !s.contains('\0')
}

/// A field reads back as it was written, whatever follows it.
pub proof fn field_round_trip(s: Seq<char>, trailing: Seq<u8>)
    requires
        is_field(s),
    ensures
        field_in(field_bytes(s) + trailing) == Ok::<(Seq<char>, int), ParseError>(
            (s, field_bytes(s).len() as int),
        ),
        (field_bytes(s) + trailing).skip(field_bytes(s).len() as int) == trailing,
{
    let b = field_bytes(s) + trailing;
    let e = vstd::utf8::encode_utf8(s);
    text::utf8_has_no(s, '\0');
    assert forall|j: int| 0 <= j < e.len() implies b[j] != 0 by {
        assert(b[j] == e[j]);
    }
    text::find_is(b, 0u8, e.len() as int);
    assert(b.take(e.len() as int) =~= e);
    text::lossy_of_utf8(s);
    assert(b.skip(field_bytes(s).len() as int) =~= trailing);
}

/// Every key and value can be carried by a field.
pub open spec fn are_fields(options: Seq<(Seq<char>, Seq<char>)>) -> bool {
    forall|i: int| 0 <= i < options.len() ==> is_field((#[trigger] options[i]).0) && is_field(
        options[i].1,
    )
}

/// The options with their keys in lower case.
pub open spec fn lowered(options: Seq<(Seq<char>, Seq<char>)>) -> Seq<(Seq<char>, Seq<char>)> {
    Seq::new(options.len(), |i: int| (text::lowercase(options[i].0), options[i].1))
}

proof fn options_bytes_split(options: Seq<(Seq<char>, Seq<char>)>)
    requires
        options.len() > 0,
    ensures
        options_bytes(options) == field_bytes(options[0].0) + field_bytes(options[0].1)
            + options_bytes(options.drop_first()),
    decreases options.len(),
{
    let first = field_bytes(options[0].0) + field_bytes(options[0].1);
    if options.len() == 1 {
        assert(options.drop_last() =~= Seq::empty());
        assert(options.drop_first() =~= Seq::empty());
        assert(options_bytes(options.drop_last()) =~= Seq::empty());
        assert(options_bytes(options) =~= first + options_bytes(options.drop_first()));
    } else {
        options_bytes_split(options.drop_last());
        assert(options.drop_last().drop_first() =~= options.drop_first().drop_last());
        assert(options.drop_first().last() == options.last());
        assert(options_bytes(options) =~= first + options_bytes(options.drop_first()));
    }
}

/// Options read back as they were written, with their keys in lower case.
pub proof fn options_round_trip(options: Seq<(Seq<char>, Seq<char>)>)
    requires
        are_fields(options),
    ensures
        options_in(options_bytes(options)) == Ok::<Seq<(Seq<char>, Seq<char>)>, ParseError>(
            lowered(options),
        ),
    decreases options.len(),
{
    let b = options_bytes(options);
    if options.len() == 0 {
        assert(lowered(options) =~= Seq::empty());
    } else {
        let (k, v) = options[0];
        let rest = options.drop_first();
        let more = options_bytes(rest);
        options_bytes_split(options);
        assert(b =~= field_bytes(k) + (field_bytes(v) + more));
        field_round_trip(k, field_bytes(v) + more);
        field_round_trip(v, more);
        assert forall|i: int| 0 <= i < rest.len() implies is_field((#[trigger] rest[i]).0)
            && is_field(rest[i].1) by {
            assert(options[i + 1] == rest[i]);
        }
        options_round_trip(rest);
        let n = field_bytes(k).len() as int;
        let m = field_bytes(v).len() as int;
        assert(b.skip(n + m) =~= more);
        assert(lowered(options) =~= seq![(text::lowercase(k), v)] + lowered(rest));
    }
}

/// A read request with options reads back as it was written, with the keys of
/// its options in lower case.
pub proof fn read_request_round_trip(
    filename: Seq<char>,
    mode: Seq<char>,
    options: Seq<(Seq<char>, Seq<char>)>,
)
    requires
        is_field(filename),
        is_field(mode),
        are_fields(options),
    ensures
        packet_in(
            wire::be16(OP_RRQ) + field_bytes(filename) + field_bytes(mode) + options_bytes(options),
        ) == Ok::<PacketView, ParseError>(
            PacketView::Rrq { filename, mode, options: lowered(options) },
        ),
{
    let o = options_bytes(options);
    let b = wire::be16(OP_RRQ) + field_bytes(filename) + field_bytes(mode) + o;
    let tail = b.skip(2);
    assert(tail =~= field_bytes(filename) + (field_bytes(mode) + o));
    field_round_trip(filename, field_bytes(mode) + o);
    field_round_trip(mode, o);
    let n = field_bytes(filename).len() as int;
    let m = field_bytes(mode).len() as int;
    assert(tail.skip(n + m) =~= o);
    options_round_trip(options);
}

} // verus!
