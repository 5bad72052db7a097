//! What the command-line tools compute.
use vstd::prelude::*;
use crate::storage;
use crate::storage::{BackingStore, StorageError};
use crate::text;
use crate::wire;

verus! {

/// How much of `total` is done, in hundredths; 100 where `total` is too small
/// to be divided.
pub open spec fn percent_of(done: int, total: int) -> int {
    if total / 100 > 0 {
        (done / (total / 100)) % 0x100
    } else {
        100
    }
}

/// Of a total that can be divided, as many whole hundredths are done as the
/// percentage says; of a smaller one, all.
pub proof fn percent_counts_hundredths(done: int, total: int)
    requires
        0 <= done <= total,
    ensures
        total >= 100 ==> percent_of(done, total) * (total / 100) <= done < percent_of(done, total)
            * (total / 100) + total / 100,
        total < 100 ==> percent_of(done, total) == 100,
        total >= 100 && done == total ==> percent_of(done, total) >= 100,
        percent_of(0, total) == if total < 100 {
            100int
        } else {
            0
        },
{
    if total >= 100 {
        let q = total / 100;
        let p = done / q;
        vstd::arithmetic::div_mod::lemma_fundamental_div_mod(done, q);
        vstd::arithmetic::div_mod::lemma_mod_bound(done, q);
        assert(p < 0x100) by (nonlinear_arith)
            requires
                q * p <= done,
                done <= total,
                total < 100 * q + 100,
                q >= 1,
        ;
        assert(p >= 0) by (nonlinear_arith)
            requires
                done < q * p + q,
                done >= 0,
                q >= 1,
        ;
        assert(q * p == p * q) by (nonlinear_arith);
        if done == total {
            assert(p >= 100) by (nonlinear_arith)
                requires
                    done < q * p + q,
                    done >= 100 * q,
                    q >= 1,
            ;
        }
        vstd::arithmetic::div_mod::lemma_div_basics(q);
    }
}

/// How much of `total` is done, in hundredths; 100 where `total` is too small
/// to be divided.
pub fn percent(done: u64, total: u64) -> (p: u8)
    ensures
        p == percent_of(done as int, total as int),
{
    let q: u64 = total / 100;
    if q > 0 {
        ((done / q) % 0x100) as u8
    } else {
        100
    }
}

/// A range of bytes.
#[derive(Debug, Clone, Copy, PartialEq, Eq, Structural)]
pub struct ByteRange {
    pub offset: u64,
    pub length: u64,
}

/// What is wrong with a line of a list of ranges. Lines are counted from one.
#[derive(Debug, Clone, Copy, PartialEq, Eq, Structural)]
pub enum RangeError {
    /// There are no two words on it.
    Expected { line: usize },
    /// One of its first two words is no number.
    BadNumbers { line: usize },
}

impl RangeError {
    /// The error in words.
    pub open spec fn text(&self) -> Seq<char> {
        match self {
            RangeError::Expected { line } => "line "@ + text::decimal(*line as nat)
                + ": expected '<offset> <length>'"@,
            RangeError::BadNumbers { line } => "line "@ + text::decimal(*line as nat)
                + ": bad numbers"@,
        }
    }

    /// The error in words.
    pub fn message(&self) -> (m: String)
        ensures
            m@ == self.text(),
    {
        let mut m: String = String::from_str("line ");
        match self {
            RangeError::Expected { line } => {
                text::push_decimal(&mut m, *line as u64);
                m.append(": expected '<offset> <length>'");
            },
            RangeError::BadNumbers { line } => {
                text::push_decimal(&mut m, *line as u64);
                m.append(": bad numbers");
            },
        }
        m
    }
}

/// Where the first word of `s` ends.
pub open spec fn word_end(s: Seq<char>) -> int
    decreases s.len(),
{
    if s.len() == 0 || text::is_white(s[0]) {
        0
    } else {
        1 + word_end(s.drop_first())
    }
}

/// What a line says.
pub enum LineView {
    Blank,
    Range(ByteRange),
    Expected,
    BadNumbers,
}

/// What a line says: white space and nothing else, or two numbers, whatever
/// follows them.
pub open spec fn line_of(line: Seq<char>) -> LineView {
    let s = text::trim_front(line);
    let first = s.take(word_end(s));
    let rest = text::trim_front(s.skip(word_end(s)));
    let second = rest.take(word_end(rest));
    if s.len() == 0 {
        LineView::Blank
    } else if rest.len() == 0 {
        LineView::Expected
    } else {
        match (
            text::parse_number(first, u64::MAX as int),
            text::parse_number(second, u64::MAX as int),
        ) {
            (Some(offset), Some(length)) => LineView::Range(
                ByteRange { offset: offset as u64, length: length as u64 },
            ),
            _ => LineView::BadNumbers,
        }
    }
}

/// The ranges in `s`, line by line, up to the first line that is wrong. The
/// first line of `s` is line number `line`.
pub open spec fn ranges_in(s: Seq<char>, line: int) -> (Seq<ByteRange>, Option<RangeError>)
    decreases s.len(),
{
    let end = text::find(s, '\n');
    let more = if 0 <= end < s.len() {
        ranges_in(s.skip(end + 1), line + 1)
    } else {
        (Seq::empty(), None)
    };
    match line_of(if 0 <= end < s.len() {
        s.take(end)
    } else {
        s
    }) {
        LineView::Blank => more,
        LineView::Range(r) => (seq![r] + more.0, more.1),
        LineView::Expected => (Seq::empty(), Some(RangeError::Expected { line: line as usize })),
        LineView::BadNumbers => (
            Seq::empty(),
            Some(RangeError::BadNumbers { line: line as usize }),
        ),
    }
}

proof fn word_end_is(s: Seq<char>, i: int)
    requires
        0 <= i <= s.len(),
        forall|j: int| 0 <= j < i ==> !text::is_white(#[trigger] s[j]),
        i < s.len() ==> text::is_white(s[i]),
    ensures
        word_end(s) == i,
    decreases s.len(),
{
    if i > 0 {
        assert(!text::is_white(s[0]));
        let t = s.drop_first();
        assert forall|j: int| 0 <= j < i - 1 implies !text::is_white(#[trigger] t[j]) by {
            assert(t[j] == s[j + 1]);
        }
        word_end_is(t, i - 1);
    }
}

/// First place of `chars[from..to]` that is not white space.
fn skip_white(chars: &[char], from: usize, to: usize) -> (i: usize)
    requires
        from <= to <= chars@.len(),
    ensures
        from <= i <= to,
        chars@.subrange(i as int, to as int) == text::trim_front(
            chars@.subrange(from as int, to as int),
        ),
{
    let mut i: usize = from;
    while i < to && text::is_whitespace(chars[i])
        invariant
            from <= i <= to <= chars@.len(),
            text::trim_front(chars@.subrange(from as int, to as int)) == text::trim_front(
                chars@.subrange(i as int, to as int),
            ),
        decreases to - i,
    {
        assert(chars@.subrange(i as int, to as int).drop_first() =~= chars@.subrange(
            i + 1,
            to as int,
        ));
        i += 1;
    }
    i
}

/// Where the word of `chars[from..to]` that starts at `from` ends.
fn skip_word(chars: &[char], from: usize, to: usize) -> (i: usize)
    requires
        from <= to <= chars@.len(),
    ensures
        from <= i <= to,
        i - from == word_end(chars@.subrange(from as int, to as int)),
{
    let ghost part = chars@.subrange(from as int, to as int);
    let mut i: usize = from;
    while i < to && !text::is_whitespace(chars[i])
        invariant
            from <= i <= to <= chars@.len(),
            part == chars@.subrange(from as int, to as int),
            forall|j: int| 0 <= j < i - from ==> !text::is_white(#[trigger] part[j]),
        decreases to - i,
    {
        assert(part[i - from] == chars@[i as int]);
        i += 1;
    }
    proof {
        word_end_is(part, i - from);
    }
    i
}

/// What a line says.
pub enum Line {
    Blank,
    Range(ByteRange),
    Expected,
    BadNumbers,
}

impl View for Line {
    type V = LineView;

    open spec fn view(&self) -> LineView {
        match self {
            Line::Blank => LineView::Blank,
            Line::Range(r) => LineView::Range(*r),
            Line::Expected => LineView::Expected,
            Line::BadNumbers => LineView::BadNumbers,
        }
    }
}

/// Parse the line `chars[from..to]`.
fn parse_line(chars: &[char], from: usize, to: usize) -> (l: Line)
    requires
        from <= to <= chars@.len(),
    ensures
        l@ == line_of(chars@.subrange(from as int, to as int)),
{
    let a: usize = skip_white(chars, from, to);
    let ghost s = chars@.subrange(a as int, to as int);
    if a == to {
        return Line::Blank;
    }
    let b: usize = skip_word(chars, a, to);
    assert(s.take(b - a) =~= chars@.subrange(a as int, b as int));
    assert(s.skip(b - a) =~= chars@.subrange(b as int, to as int));
    let c: usize = skip_white(chars, b, to);
    let ghost rest = chars@.subrange(c as int, to as int);
    if c == to {
        return Line::Expected;
    }
    let d: usize = skip_word(chars, c, to);
    assert(rest.take(d - c) =~= chars@.subrange(c as int, d as int));
    let first = text::string_of(chars, a, b);
    let second = text::string_of(chars, c, d);
    match (text::parse_u64(first.as_str()), text::parse_u64(second.as_str())) {
        (Some(offset), Some(length)) => Line::Range(ByteRange { offset, length }),
        _ => Line::BadNumbers,
    }
}

/// Index of the end of the line that starts at `from`.
fn line_end(chars: &[char], from: usize) -> (i: usize)
    requires
        from <= chars@.len(),
    ensures
        from <= i <= chars@.len(),
        i - from == text::find(chars@.skip(from as int), '\n'),
{
    let mut i: usize = from;
    while i < chars.len() && chars[i] != '\n'
        invariant
            from <= i <= chars@.len(),
            forall|j: int| from <= j < i ==> chars@[j] != '\n',
        decreases chars@.len() - i,
    {
        i += 1;
    }
    proof {
        text::find_is(chars@.skip(from as int), '\n', i - from);
    }
    i
}

/// Parse a list of ranges: on each line an offset and a length, in decimal,
/// with blank lines between them as one likes. Gives the ranges up to the first
/// line that is wrong, and what is wrong with that line.
pub fn parse_ranges(list: &str) -> (r: (Vec<ByteRange>, Option<RangeError>))
    requires
        list@.len() < usize::MAX,
    ensures
        (r.0@, r.1) == ranges_in(list@, 1),
{
    let chars = text::chars_of(list);
    let n: usize = chars.len();
    let mut out: Vec<ByteRange> = Vec::new();
    let mut start: usize = 0;
    let mut line: usize = 1;
    proof {
        assert(chars@.skip(0) =~= list@);
        let all = ranges_in(list@, 1);
        assert(out@ + all.0 =~= all.0);
    }
    loop
        invariant
            start <= n,
            n == chars@.len(),
            n < usize::MAX,
            chars@ == list@,
            1 <= line <= start + 1,
            ranges_in(list@, 1) == (
                out@ + ranges_in(chars@.skip(start as int), line as int).0,
                ranges_in(chars@.skip(start as int), line as int).1,
            ),
        decreases n - start,
    {
        let ghost rest = chars@.skip(start as int);
        let end: usize = line_end(chars.as_slice(), start);
        let ghost part = chars@.subrange(start as int, end as int);
        proof {
            if end < n {
                assert(part =~= rest.take(end - start));
                assert(rest.skip(end - start + 1) =~= chars@.skip(end + 1));
            } else {
                assert(part =~= rest);
            }
        }
        let ghost before = out@;
        match parse_line(chars.as_slice(), start, end) {
            Line::Blank => {},
            Line::Range(r) => {
                out.push(r);
                proof {
                    let more = if end < n {
                        ranges_in(chars@.skip(end + 1), line + 1).0
                    } else {
                        Seq::empty()
                    };
                    assert(before + (seq![r] + more) =~= out@ + more);
                }
            },
            Line::Expected => {
                assert(out@ + Seq::<ByteRange>::empty() =~= out@);
                return (out, Some(RangeError::Expected { line }));
            },
            Line::BadNumbers => {
                assert(out@ + Seq::<ByteRange>::empty() =~= out@);
                return (out, Some(RangeError::BadNumbers { line }));
            },
        }
        if end >= n {
            assert(out@ + Seq::<ByteRange>::empty() =~= out@);
            return (out, None);
        }
        start = end + 1;
        line += 1;
    }
}

/// Read a range of a disk. A read that succeeds gives the bytes of the range, and
/// a read within the disk succeeds if every byte of it can be read.
pub fn read_range<S: BackingStore + ?Sized>(source: &S, range: ByteRange) -> (r: Result<
    Vec<u8>,
    StorageError,
>)
    requires
        range.length <= usize::MAX,
    ensures
        r matches Ok(bytes) ==> bytes@.len() == range.length && (range.length > 0 ==> range.offset
            + range.length <= source.content().len() && bytes@ == source.content().subrange(
            range.offset as int,
            range.offset + range.length,
        )),
        storage::span_readable(source, range.offset as int, range.offset + range.length)
            ==> r is Ok,
{
    let mut buf: Vec<u8> = wire::zeroed(range.length as usize);
    match source.read_at(range.offset, buf.as_mut_slice()) {
        Ok(_) => Ok(buf),
        Err(e) => Err(e),
    }
}

/// Every character of `s` is a blank.
pub open spec fn is_gap(s: Seq<char>) -> bool {
    forall|i: int| 0 <= i < s.len() ==> text::is_blank(#[trigger] s[i])
}

/// `s` is a word of visible ASCII characters.
pub open spec fn is_word(s: Seq<char>) -> bool {
    s.len() > 0 && forall|i: int| 0 <= i < s.len() ==> 33 <= (#[trigger] s[i]) as int <= 126
}

proof fn word_ends(w: Seq<char>, rest: Seq<char>)
    requires
        forall|i: int| 0 <= i < w.len() ==> 33 <= (#[trigger] w[i]) as int <= 126,
        rest.len() == 0 || text::is_blank(rest[0]),
    ensures
        word_end(w + rest) == w.len(),
    decreases w.len(),
{
    let s = w + rest;
    if w.len() > 0 {
        assert(s[0] == w[0]);
        assert(s.drop_first() =~= w.drop_first() + rest);
        assert forall|i: int| 0 <= i < w.drop_first().len() implies 33 <= (
        #[trigger] w.drop_first()[i]) as int <= 126 by {
            assert(w.drop_first()[i] == w[i + 1]);
        }
        word_ends(w.drop_first(), rest);
    } else {
        assert(s =~= rest);
    }
}

/// A line is blank, or its first two words are an offset and a length: it is
/// refused where there is one word, or where one of the two is no number, and
/// what follows the two does not matter.
pub proof fn lines_are_two_numbers(
    a: Seq<char>,
    first: Seq<char>,
    b: Seq<char>,
    second: Seq<char>,
    tail: Seq<char>,
)
    requires
        is_gap(a),
        is_word(first),
        is_gap(b),
        b.len() > 0,
        is_word(second),
        tail.len() == 0 || text::is_blank(tail[0]),
    ensures
        line_of(a) is Blank,
        line_of(a + first) is Expected,
        line_of(a + first + b) is Expected,
        match (
            text::parse_number(first, 0xffff_ffff_ffff_ffff),
            text::parse_number(second, 0xffff_ffff_ffff_ffff),
        ) {
            (Some(x), Some(y)) => line_of(a + first + b + second + tail) matches LineView::Range(r)
                && r.offset == x && r.length == y,
            _ => line_of(a + first + b + second + tail) is BadNumbers,
        },
{
    let none = Seq::<char>::empty();
    text::trimming_keeps_what_is_between(a, first, b);
    text::trim_of_gap(a);
    text::trim_of_gap(b);
    text::trim_of_gap(none);
    word_ends(first, none);
    assert(first + none =~= first);
    assert(first.skip(first.len() as int) =~= none);
    word_ends(first, b);
    assert((first + b).skip(first.len() as int) =~= b);
    let rest = second + tail;
    let s = first + b + rest;
    assert(a + first + b + second + tail =~= a + s);
    text::trim_of_front(a, s);
    assert(s =~= first + (b + rest));
    word_ends(first, b + rest);
    assert(s.take(first.len() as int) =~= first);
    assert(s.skip(first.len() as int) =~= b + rest);
    text::trim_of_front(b, rest);
    word_ends(second, tail);
    assert(rest.take(second.len() as int) =~= second);
    text::parse_number_range(first, 0xffff_ffff_ffff_ffff);
    text::parse_number_range(second, 0xffff_ffff_ffff_ffff);
}

/// A list is read line by line. Ranges come in the order of their lines, blank
/// lines are passed over, and the first line that is wrong ends the reading,
/// with its number.
pub proof fn lists_are_read_line_by_line(line: Seq<char>, rest: Seq<char>, n: int)
    requires
        !line.contains('\n'),
        1 <= n <= usize::MAX,
    ensures
        ({
            let all = ranges_in(line + seq!['\n'] + rest, n);
            let more = ranges_in(rest, n + 1);
            match line_of(line) {
                LineView::Blank => all == more,
                LineView::Range(r) => all.0 == seq![r] + more.0 && all.1 == more.1,
                LineView::Expected => all.0.len() == 0 && all.1 == Some(
                    RangeError::Expected { line: n as usize },
                ),
                LineView::BadNumbers => all.0.len() == 0 && all.1 == Some(
                    RangeError::BadNumbers { line: n as usize },
                ),
            }
        }),
        line_of(line) matches LineView::Range(r) ==> ranges_in(line, n).0 == seq![r] && ranges_in(
            line,
            n,
        ).1 is None,
{
    let s = line + seq!['\n'] + rest;
    let end = line.len() as int;
    assert forall|j: int| 0 <= j < end implies #[trigger] line[j] != '\n' by {
        assert(line.contains(line[j]));
    }
    assert forall|j: int| 0 <= j < end implies s[j] != '\n' by {
        assert(s[j] == line[j]);
    }
    text::find_is(s, '\n', end);
    text::find_is(line, '\n', end);
    assert(s.take(end) =~= line);
    assert(s.skip(end + 1) =~= rest);
    if line_of(line) is Range {
        let r = line_of(line)->Range_0;
        assert(seq![r] + Seq::<ByteRange>::empty() =~= seq![r]);
    }
}

} // verus!
