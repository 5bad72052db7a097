//! Text: decimal numbers, ASCII case, and lossy UTF-8.
use vstd::prelude::*;
use crate::wire;

verus! {

/// Index of the first `x` in `s`, or `s.len()` where there is none.
pub open spec fn find<T>(s: Seq<T>, x: T) -> int
    decreases s.len(),
{
    if s.len() == 0 || s[0] == x {
        0
    } else {
        1 + find(s.drop_first(), x)
    }
}

/// `find` is the only place with no `x` before it that holds one or ends `s`.
pub proof fn find_is<T>(s: Seq<T>, x: T, i: int)
    requires
        0 <= i <= s.len(),
        forall|j: int| 0 <= j < i ==> s[j] != x,
        i < s.len() ==> s[i] == x,
    ensures
        find(s, x) == i,
    decreases s.len(),
{
    if i > 0 {
        assert forall|j: int| 0 <= j < i - 1 implies s.drop_first()[j] != x by {
            assert(s[j + 1] != x);
        }
        find_is(s.drop_first(), x, i - 1);
    }
}

/// What `find` finds.
pub proof fn find_bounds<T>(s: Seq<T>, x: T)
    ensures
        0 <= find(s, x) <= s.len(),
        find(s, x) < s.len() ==> s[find(s, x)] == x,
        forall|j: int| 0 <= j < find(s, x) ==> s[j] != x,
    decreases s.len(),
{
    if s.len() > 0 && s[0] != x {
        find_bounds(s.drop_first(), x);
        assert forall|j: int| 0 <= j < find(s, x) implies s[j] != x by {
            if j > 0 {
                assert(s.drop_first()[j - 1] != x);
            }
        }
    }
}

/// Index of the first `b` in `s` at or after `from`, or the length of `s`.
pub fn find_byte(s: &[u8], from: usize, b: u8) -> (i: usize)
    requires
        from <= s@.len(),
    ensures
        from <= i <= s@.len(),
        i == from + find(s@.skip(from as int), b),
        i < s@.len() ==> s@[i as int] == b,
        forall|j: int| from <= j < i ==> s@[j] != b,
{
    let mut i: usize = from;
    while i < s.len()
        invariant
            from <= i <= s@.len(),
            forall|j: int| from <= j < i ==> s@[j] != b,
        ensures
            from <= i <= s@.len(),
            forall|j: int| from <= j < i ==> s@[j] != b,
            i < s@.len() ==> s@[i as int] == b,
        decreases s@.len() - i,
    {
        if s[i] == b {
            break;
        }
        i += 1;
    }
    proof {
        find_is(s@.skip(from as int), b, i - from);
    }
    i
}

/// The text of `bytes`: itself where it is valid UTF-8, and otherwise what
/// replacing the invalid sequences gives.
pub open spec fn lossy(bytes: Seq<u8>) -> Seq<char> {
    if vstd::utf8::valid_utf8(bytes) {
        vstd::utf8::decode_utf8(bytes)
    } else {
        repaired(bytes)
    }
}

/// The text that `String::from_utf8_lossy` gives for bytes that are not valid
/// UTF-8.
pub uninterp spec fn repaired(bytes: Seq<u8>) -> Seq<char>;

/// `String::from_utf8_lossy`, as an owned string: the text whose UTF-8 form
/// `bytes` is, where it is one; otherwise a text that the bytes determine,
/// with replacement characters, of which nothing more is said.
#[verifier::external_body]
pub(crate) fn from_utf8_lossy(bytes: &[u8]) -> (s: String)
    ensures
        s@ == (if vstd::utf8::valid_utf8(bytes@) {
            vstd::utf8::decode_utf8(bytes@)
        } else {
            repaired(bytes@)
        }),
{
    String::from_utf8_lossy(bytes).into_owned()
}

/// The text of the UTF-8 form of `s` is `s`.
pub proof fn lossy_of_utf8(s: Seq<char>)
    ensures
        lossy(vstd::utf8::encode_utf8(s)) == s,
{
    broadcast use vstd::utf8::encode_utf8_valid_utf8, vstd::utf8::encode_utf8_decode_utf8;
}

/// An ASCII byte occurs in the UTF-8 form of a text only where its character
/// occurs in the text.
pub proof fn utf8_has_no(s: Seq<char>, c: char)
    requires
        (c as u32) < 0x80,
        !s.contains(c),
    ensures
        !vstd::utf8::encode_utf8(s).contains(c as u8),
    decreases s.len(),
{
    let bytes = vstd::utf8::encode_utf8(s);
    if s.len() > 0 {
        assert(s[0] != c);
        let rest = s.drop_first();
        assert forall|i: int| 0 <= i < rest.len() implies rest[i] != c by {
            assert(s[i + 1] != c);
        }
        utf8_has_no(rest, c);
        let head = vstd::utf8::encode_scalar(s[0] as u32);
        assert(bytes =~= head + vstd::utf8::encode_utf8(rest));
        scalar_has_no(s[0], c);
        assert forall|i: int| 0 <= i < bytes.len() implies bytes[i] != c as u8 by {
            if i < head.len() {
                assert(bytes[i] == head[i]);
            } else {
                assert(bytes[i] == vstd::utf8::encode_utf8(rest)[i - head.len()]);
            }
        }
    }
}

proof fn scalar_has_no(a: char, c: char)
    requires
        (c as u32) < 0x80,
        a != c,
    ensures
        !vstd::utf8::encode_scalar(a as u32).contains(c as u8),
{
    let v = a as u32;
    vstd::utf8::char_is_scalar(a);
    assert(v & 0x7f == v || v >= 0x80) by (bit_vector);
    assert(0xC0u8 | ((v >> 6) & 0x1F) as u8 >= 0x80u8) by (bit_vector);
    assert(0xE0u8 | ((v >> 12) & 0x0F) as u8 >= 0x80u8) by (bit_vector);
    assert(0xF0u8 | ((v >> 18) & 0x07) as u8 >= 0x80u8) by (bit_vector);
    assert(0x80u8 | (v & 0x3F) as u8 >= 0x80u8) by (bit_vector);
    assert(0x80u8 | ((v >> 6) & 0x3F) as u8 >= 0x80u8) by (bit_vector);
    assert(0x80u8 | ((v >> 12) & 0x3F) as u8 >= 0x80u8) by (bit_vector);
}

/// Text that is not empty has a UTF-8 form that is not empty.
pub proof fn utf8_not_empty(s: Seq<char>)
    requires
        s.len() > 0,
    ensures
        vstd::utf8::encode_utf8(s).len() > 0,
{
    vstd::utf8::encode_utf8_decode_utf8(s);
    if vstd::utf8::encode_utf8(s).len() == 0 {
        assert(vstd::utf8::encode_utf8(s) =~= vstd::utf8::encode_utf8(Seq::<char>::empty()));
        vstd::utf8::encode_utf8_decode_utf8(Seq::<char>::empty());
    }
}

/// `c` in lower case where it is an ASCII letter, else `c`.
pub open spec fn lower_char(c: char) -> char {
    if 'A' <= c <= 'Z' {
        ((c as u32) + 32) as char
    } else {
        c
    }
}

/// `s` with its ASCII letters in lower case.
pub open spec fn ascii_lower(s: Seq<char>) -> Seq<char> {
    Seq::new(s.len(), |i: int| lower_char(s[i]))
}

/// `s` in lower case: letter by letter where it is ASCII, and otherwise by
/// Unicode's mapping.
pub open spec fn lowercase(s: Seq<char>) -> Seq<char> {
    if vstd::utf8::is_ascii_chars(s) {
        ascii_lower(s)
    } else {
        unicode_lowercase(s)
    }
}

/// What `str::to_lowercase` gives for text that is not all ASCII.
pub uninterp spec fn unicode_lowercase(s: Seq<char>) -> Seq<char>;

/// `str::to_lowercase`: ASCII text has its letters `A` to `Z` lowered; other
/// text becomes what the text determines, by Unicode's mapping.
#[verifier::external_body]
pub(crate) fn to_lowercase(s: &str) -> (t: String)
    ensures
        t@ == (if vstd::utf8::is_ascii_chars(s@) {
            ascii_lower(s@)
        } else {
            unicode_lowercase(s@)
        }),
{
    s.to_lowercase()
}

/// `String::push` appends one character.
pub assume_specification[ String::push ](s: &mut String, c: char)
    ensures
        final(s)@ == old(s)@.push(c),
;

/// The characters of `s`.
pub fn chars_of(s: &str) -> (out: Vec<char>)
    ensures
        out@ == s@,
{
    broadcast use vstd::string::group_string_axioms;

    let mut out: Vec<char> = Vec::new();
    let n: usize = s.unicode_len();
    let mut it = s.chars();
    let mut i: usize = 0;
    while i < n
        invariant
            i <= n,
            n == s@.len(),
            vstd::std_specs::iter::IteratorSpec::remaining(&it) == s@.skip(i as int),
            vstd::std_specs::iter::IteratorSpec::obeys_prophetic_iter_laws(&it),
            out@ == s@.take(i as int),
        decreases n - i,
    {
        match it.next() {
            Some(c) => {
                assert(s@.skip(i as int).drop_first() =~= s@.skip(i + 1));
                assert(s@.take(i as int).push(c) =~= s@.take(i + 1));
                out.push(c);
            },
            None => {},
        }
        i += 1;
    }
    assert(s@.take(n as int) =~= s@);
    out
}

/// The string made of `chars[from..to]`.
pub fn string_of(chars: &[char], from: usize, to: usize) -> (s: String)
    requires
        from <= to <= chars@.len(),
    ensures
        s@ == chars@.subrange(from as int, to as int),
{
    let mut s: String = String::new();
    let mut i: usize = from;
    while i < to
        invariant
            from <= i <= to <= chars@.len(),
            s@ == chars@.subrange(from as int, i as int),
        decreases to - i,
    {
        s.push(chars[i]);
        i += 1;
        assert(chars@.subrange(from as int, i as int) =~= chars@.subrange(
            from as int,
            i - 1,
        ).push(chars@[i - 1]));
    }
    s
}

/// Whether two strings hold the same text.
pub fn same_text(a: &str, b: &str) -> (eq: bool)
    ensures
        eq == (a@ == b@),
{
    proof {
        vstd::utf8::encode_utf8_decode_utf8(a@);
        vstd::utf8::encode_utf8_decode_utf8(b@);
    }
    wire::bytes_eq(a.as_bytes(), b.as_bytes())
}

/// Whether two character slices hold the same text.
pub fn chars_eq(a: &[char], b: &[char]) -> (eq: bool)
    ensures
        eq == (a@ == b@),
{
    if a.len() != b.len() {
        return false;
    }
    let mut i: usize = 0;
    while i < a.len()
        invariant
            i <= a@.len(),
            a@.len() == b@.len(),
            forall|j: int| 0 <= j < i ==> a@[j] == b@[j],
        decreases a@.len() - i,
    {
        if a[i] != b[i] {
            return false;
        }
        i += 1;
    }
    assert(a@ =~= b@);
    true
}

/// `a` and `b` differ at most in the case of ASCII letters.
pub open spec fn same_ignoring_case(a: Seq<char>, b: Seq<char>) -> bool {
    ascii_lower(a) == ascii_lower(b)
}

pub fn lower(c: char) -> (l: char)
    ensures
        l == lower_char(c),
{
    match c {
        'A' => 'a',
        'B' => 'b',
        'C' => 'c',
        'D' => 'd',
        'E' => 'e',
        'F' => 'f',
        'G' => 'g',
        'H' => 'h',
        'I' => 'i',
        'J' => 'j',
        'K' => 'k',
        'L' => 'l',
        'M' => 'm',
        'N' => 'n',
        'O' => 'o',
        'P' => 'p',
        'Q' => 'q',
        'R' => 'r',
        'S' => 's',
        'T' => 't',
        'U' => 'u',
        'V' => 'v',
        'W' => 'w',
        'X' => 'x',
        'Y' => 'y',
        'Z' => 'z',
        _ => c,
    }
}

/// Whether two strings are the same but for the case of ASCII letters.
pub fn eq_ignore_ascii_case(a: &str, b: &str) -> (eq: bool)
    ensures
        eq == same_ignoring_case(a@, b@),
{
    let x = chars_of(a);
    let y = chars_of(b);
    if x.len() != y.len() {
        assert(ascii_lower(a@).len() != ascii_lower(b@).len());
        return false;
    }
    let mut i: usize = 0;
    while i < x.len()
        invariant
            i <= x@.len(),
            x@ == a@,
            y@ == b@,
            x@.len() == y@.len(),
            forall|j: int| 0 <= j < i ==> lower_char(x@[j]) == lower_char(y@[j]),
        decreases x@.len() - i,
    {
        if lower(x[i]) != lower(y[i]) {
            assert(ascii_lower(a@)[i as int] != ascii_lower(b@)[i as int]);
            return false;
        }
        i += 1;
    }
    assert(ascii_lower(a@) =~= ascii_lower(b@));
    true
}

/// Unicode's `White_Space` property.
pub open spec fn is_white(c: char) -> bool {
    let v = c as u32;
    ||| 0x9 <= v <= 0xd
    ||| v == 0x20
    ||| v == 0x85
    ||| v == 0xa0
    ||| v == 0x1680
    ||| 0x2000 <= v <= 0x200a
    ||| v == 0x2028
    ||| v == 0x2029
    ||| v == 0x202f
    ||| v == 0x205f
    ||| v == 0x3000
}

/// `s` without leading white space.
pub open spec fn trim_front(s: Seq<char>) -> Seq<char>
    decreases s.len(),
{
    if s.len() > 0 && is_white(s[0]) {
        trim_front(s.drop_first())
    } else {
        s
    }
}

/// `s` without trailing white space.
pub open spec fn trim_back(s: Seq<char>) -> Seq<char>
    decreases s.len(),
{
    if s.len() > 0 && is_white(s.last()) {
        trim_back(s.drop_last())
    } else {
        s
    }
}

/// `s` without white space at either end.
pub open spec fn trim(s: Seq<char>) -> Seq<char> {
    trim_back(trim_front(s))
}

/// Whether `c` is white space.
pub fn is_whitespace(c: char) -> (r: bool)
    ensures
        r == is_white(c),
{
    let v: u32 = c as u32;
    (0x9 <= v && v <= 0xd) || v == 0x20 || v == 0x85 || v == 0xa0 || v == 0x1680 || (0x2000 <= v
        && v <= 0x200a) || v == 0x2028 || v == 0x2029 || v == 0x202f || v == 0x205f || v == 0x3000
}

/// Where `chars[from..to]` starts and ends once trimmed.
pub fn trim_bounds(chars: &[char], from: usize, to: usize) -> (r: (usize, usize))
    requires
        from <= to <= chars@.len(),
    ensures
        from <= r.0 <= r.1 <= to,
        chars@.subrange(r.0 as int, r.1 as int) == trim(chars@.subrange(from as int, to as int)),
{
    let ghost whole = chars@.subrange(from as int, to as int);
    let mut a: usize = from;
    while a < to && is_whitespace(chars[a])
        invariant
            from <= a <= to <= chars@.len(),
            whole == chars@.subrange(from as int, to as int),
            trim_front(whole) == trim_front(chars@.subrange(a as int, to as int)),
        decreases to - a,
    {
        assert(chars@.subrange(a as int, to as int).drop_first() =~= chars@.subrange(
            a + 1,
            to as int,
        ));
        a += 1;
    }
    let ghost front = chars@.subrange(a as int, to as int);
    assert(trim_front(whole) == front);
    let mut b: usize = to;
    while b > a && is_whitespace(chars[b - 1])
        invariant
            from <= a <= b <= to <= chars@.len(),
            front == chars@.subrange(a as int, to as int),
            trim_back(front) == trim_back(chars@.subrange(a as int, b as int)),
        decreases b,
    {
        assert(chars@.subrange(a as int, b as int).drop_last() =~= chars@.subrange(
            a as int,
            b - 1,
        ));
        b -= 1;
    }
    (a, b)
}

pub open spec fn is_digit(c: char) -> bool {
    '0' <= c <= '9'
}

/// The number that a string of digits writes in base ten.
pub open spec fn digits_value(s: Seq<char>) -> int
    decreases s.len(),
{
    if s.len() == 0 {
        0
    } else {
        digits_value(s.drop_last()) * 10 + (s.last() as int - '0' as int)
    }
}

pub open spec fn all_digits(s: Seq<char>) -> bool {
    forall|i: int| 0 <= i < s.len() ==> is_digit(#[trigger] s[i])
}

/// `s` without one leading plus sign.
pub open spec fn unsigned_part(s: Seq<char>) -> Seq<char> {
    if s.len() > 0 && s[0] == '+' {
        s.skip(1)
    } else {
        s
    }
}

/// The number up to `max` that `s` writes: digits, at least one, after an
/// optional plus sign.
pub open spec fn parse_number(s: Seq<char>, max: int) -> Option<int> {
    let d = unsigned_part(s);
    if d.len() > 0 && all_digits(d) && digits_value(d) <= max {
        Some(digits_value(d))
    } else {
        None
    }
}

proof fn digits_value_grows(s: Seq<char>, k: int)
    requires
        all_digits(s),
        0 <= k <= s.len(),
    ensures
        0 <= digits_value(s.take(k)) <= digits_value(s),
    decreases s.len() - k, s.len(),
{
    if s.len() == 0 {
        assert(s.take(k) =~= s);
    } else if k == s.len() {
        assert(s.take(k) =~= s);
        assert(s.take(k - 1) =~= s.drop_last());
        digits_value_grows(s.drop_last(), k - 1);
        assert(s.drop_last().take(k - 1) =~= s.drop_last());
        assert(is_digit(s[s.len() - 1]));
    } else {
        digits_value_grows(s, k + 1);
        assert(s.take(k + 1).drop_last() =~= s.take(k));
        assert(is_digit(s[k]));
        digits_value_grows(s.take(k), k);
        assert(s.take(k).take(k) =~= s.take(k));
    }
}

/// Whether `chars[from..to]` are all digits.
pub fn are_digits(chars: &[char], from: usize, to: usize) -> (r: bool)
    requires
        from <= to <= chars@.len(),
    ensures
        r == all_digits(chars@.subrange(from as int, to as int)),
{
    let ghost part = chars@.subrange(from as int, to as int);
    let mut i: usize = from;
    while i < to
        invariant
            from <= i <= to <= chars@.len(),
            part == chars@.subrange(from as int, to as int),
            forall|j: int| 0 <= j < i - from ==> is_digit(#[trigger] part[j]),
        decreases to - i,
    {
        let c: char = chars[i];
        assert(part[i - from] == c);
        if c < '0' || c > '9' {
            return false;
        }
        i += 1;
    }
    true
}

/// A parsed number is within the range asked for.
pub proof fn parse_number_range(s: Seq<char>, max: int)
    ensures
        parse_number(s, max) matches Some(v) ==> 0 <= v <= max,
{
    let d = unsigned_part(s);
    if d.len() > 0 && all_digits(d) {
        digits_value_grows(d, d.len() as int);
        assert(d.take(d.len() as int) =~= d);
    }
}

/// The digit value of `c`.
fn digit_of(c: char) -> (d: Option<u64>)
    ensures
        d matches Some(v) ==> is_digit(c) && v == c as int - '0' as int,
        d is None ==> !is_digit(c),
{
    if '0' <= c && c <= '9' {
        Some(c as u64 - 48)
    } else {
        None
    }
}

/// Parse an unsigned decimal number of at most `max`, with an optional leading
/// plus sign.
pub fn parse_up_to(s: &str, max: u64) -> (n: Option<u64>)
    ensures
        n matches Some(v) ==> parse_number(s@, max as int) == Some(v as int),
        n is None ==> parse_number(s@, max as int) is None,
{
    let chars = chars_of(s);
    let start: usize = if chars.len() > 0 && chars[0] == '+' { 1 } else { 0 };
    let ghost d = unsigned_part(s@);
    assert(d =~= s@.skip(start as int));
    if start == chars.len() {
        return None;
    }
    let mut acc: u64 = 0;
    let mut i: usize = start;
    assert(d.take(0) =~= Seq::<char>::empty());
    while i < chars.len()
        invariant
            start <= i <= chars@.len(),
            start < chars@.len(),
            chars@ == s@,
            d == unsigned_part(s@),
            d == s@.skip(start as int),
            acc <= max,
            acc == digits_value(d.take(i - start)),
            all_digits(d.take(i - start)),
        decreases chars@.len() - i,
    {
        let ghost k = i - start;
        assert(d[k] == chars@[i as int]);
        let v: u64 = match digit_of(chars[i]) {
            Some(v) => v,
            None => {
                assert(!is_digit(d[k]));
                return None;
            },
        };
        assert(d.take(k + 1).drop_last() =~= d.take(k));
        assert forall|j: int| 0 <= j < k + 1 implies is_digit(#[trigger] d.take(k + 1)[j]) by {
            if j < k {
                assert(is_digit(d.take(k)[j]));
            }
        }
        if v > max || acc > (max - v) / 10 {
            proof {
                if all_digits(d) {
                    digits_value_grows(d, k + 1);
                }
            }
            return None;
        }
        acc = acc * 10 + v;
        i += 1;
    }
    assert(d.take(d.len() as int) =~= d);
    Some(acc)
}

/// `str::parse::<u32>`: see `parse_number`.
pub fn parse_u32(s: &str) -> (n: Option<u32>)
    ensures
        n matches Some(v) ==> parse_number(s@, u32::MAX as int) == Some(v as int),
        n is None ==> parse_number(s@, u32::MAX as int) is None,
{
    match parse_up_to(s, u32::MAX as u64) {
        Some(v) => Some(v as u32),
        None => None,
    }
}

/// `str::parse::<u64>`: see `parse_number`.
pub fn parse_u64(s: &str) -> (n: Option<u64>)
    ensures
        n matches Some(v) ==> parse_number(s@, u64::MAX as int) == Some(v as int),
        n is None ==> parse_number(s@, u64::MAX as int) is None,
{
    parse_up_to(s, u64::MAX)
}

/// The hexadecimal digit `d`, in lower case.
pub open spec fn hex_char(d: int) -> char {
    if d < 10 {
        digit_char(d)
    } else {
        ('a' as int + d - 10) as char
    }
}

/// `b` as two hexadecimal digits.
pub open spec fn hex2(b: u8) -> Seq<char> {
    seq![hex_char(b as int / 16), hex_char(b as int % 16)]
}

fn hex_to_char(d: u8) -> (c: char)
    requires
        d < 16,
    ensures
        c == hex_char(d as int),
{
    if d < 10 {
        (48 + d) as char
    } else {
        (87 + d) as char
    }
}

/// Append `b` as two hexadecimal digits.
pub fn push_hex2(out: &mut String, b: u8)
    ensures
        final(out)@ == old(out)@ + hex2(b),
{
    out.push(hex_to_char(b / 16));
    out.push(hex_to_char(b % 16));
    assert(out@ =~= old(out)@ + hex2(b));
}

/// The digit `d` as a character.
pub open spec fn digit_char(d: int) -> char {
    ('0' as int + d) as char
}

/// `n` in decimal, without leading zeros.
pub open spec fn decimal(n: nat) -> Seq<char>
    decreases n,
{
    if n < 10 {
        seq![digit_char(n as int)]
    } else {
        decimal(n / 10).push(digit_char((n % 10) as int))
    }
}

fn digit_to_char(d: u64) -> (c: char)
    requires
        d < 10,
    ensures
        c == digit_char(d as int),
{
    (48 + d as u8) as char
}

/// Append `n` in decimal.
pub fn push_decimal(out: &mut String, n: u64)
    ensures
        final(out)@ == old(out)@ + decimal(n as nat),
    decreases n,
{
    if n >= 10 {
        push_decimal(out, n / 10);
    }
    out.push(digit_to_char(n % 10));
    assert(out@ =~= old(out)@ + decimal(n as nat));
}

/// `n` in decimal.
pub fn to_decimal(n: u64) -> (s: String)
    ensures
        s@ == decimal(n as nat),
{
    let mut s: String = String::new();
    push_decimal(&mut s, n);
    assert(s@ =~= decimal(n as nat));
    s
}

proof fn decimal_is_digits(n: nat)
    ensures
        decimal(n).len() > 0,
        all_digits(decimal(n)),
        digits_value(decimal(n)) == n,
    decreases n,
{
    if n >= 10 {
        decimal_is_digits(n / 10);
        assert(decimal(n).drop_last() =~= decimal(n / 10));
        assert forall|i: int| 0 <= i < decimal(n).len() implies is_digit(#[trigger] decimal(n)[i]) by {
            if i < decimal(n / 10).len() {
                assert(is_digit(decimal(n / 10)[i]));
            }
        }
    } else {
        assert(decimal(n).drop_last() =~= Seq::<char>::empty());
        assert(digits_value(Seq::<char>::empty()) == 0);
    }
    assert(decimal(n).last() as int - '0' as int == n % 10);
}

/// A number written in decimal parses back to itself.
pub proof fn decimal_round_trip(n: nat, max: int)
    requires
        n <= max,
    ensures
        parse_number(decimal(n), max) == Some(n as int),
{
    decimal_is_digits(n);
    assert(is_digit(decimal(n)[0]));
}

/// Lower case changes the letters `A` to `Z`, by the 32 places that part the two
/// alphabets, and nothing else of ASCII text.
pub proof fn capitals_are_lowered(s: Seq<char>, i: int)
    requires
        vstd::utf8::is_ascii_chars(s),
        0 <= i < s.len(),
    ensures
        lowercase(s).len() == s.len(),
        65 <= s[i] as int <= 90 ==> lowercase(s)[i] as int == s[i] as int + 32,
        !(65 <= s[i] as int <= 90) ==> lowercase(s)[i] == s[i],
{
}

/// A text of digits is a number in base ten: one digit more at the end is ten
/// times the number and the digit. A plus sign in front changes nothing, and
/// no text with anything else, or of a number beyond `max`, is one.
pub proof fn numbers_are_in_base_ten(s: Seq<char>, c: char, n: int, max: int)
    ensures
        48 <= c as int <= 57 ==> parse_number(seq![c], max) == if c as int - 48 <= max {
            Some(c as int - 48)
        } else {
            None
        },
        parse_number(s, max) == Some(n) && 48 <= c as int <= 57 ==> parse_number(s.push(c), max)
            == if 10 * n + (c as int - 48) <= max {
            Some(10 * n + (c as int - 48))
        } else {
            None
        },
        !(48 <= c as int <= 57) ==> parse_number(s.push(c), max) is None,
        s.len() > 0 && s[0] != '+' ==> parse_number(seq!['+'] + s, max) == parse_number(s, max),
        parse_number(Seq::empty(), max) is None,
        parse_number(seq!['+'], max) is None,
{
    let one = seq![c];
    assert(one.drop_last() =~= Seq::empty());
    assert(digits_value(Seq::<char>::empty()) == 0);
    if 48 <= c as int <= 57 {
        assert(unsigned_part(one) == one);
        assert(digits_value(one) == c as int - 48);
    }
    let t = s.push(c);
    if parse_number(s, max) == Some(n) && 48 <= c as int <= 57 {
        assert(unsigned_part(t) =~= unsigned_part(s).push(c));
        assert(unsigned_part(t).drop_last() =~= unsigned_part(s));
        assert forall|i: int| 0 <= i < unsigned_part(t).len() implies is_digit(
            #[trigger] unsigned_part(t)[i],
        ) by {
            if i < unsigned_part(s).len() {
                assert(unsigned_part(t)[i] == unsigned_part(s)[i]);
            }
        }
    }
    if !(48 <= c as int <= 57) {
        let d = unsigned_part(t);
        if d.len() > 0 {
            assert(d.last() == c);
            assert(!is_digit(d[d.len() - 1]));
        }
    }
    if s.len() > 0 && s[0] != '+' {
        assert((seq!['+'] + s).skip(1) =~= s);
    }
    assert(seq!['+'].skip(1) =~= Seq::empty());
}

/// A character that `str::trim` drops, as far as it is ASCII: tab to carriage
/// return, and space.
pub open spec fn is_blank(c: char) -> bool {
    9 <= c as int <= 13 || c as int == 32
}

proof fn blanks_in_front(a: Seq<char>, s: Seq<char>)
    requires
        forall|i: int| 0 <= i < a.len() ==> is_blank(#[trigger] a[i]),
        s.len() == 0 || 33 <= s[0] as int <= 126,
    ensures
        trim_front(a + s) == s,
    decreases a.len(),
{
    if a.len() > 0 {
        assert(is_blank(a[0]));
        assert((a + s).drop_first() =~= a.drop_first() + s);
        assert forall|i: int| 0 <= i < a.drop_first().len() implies is_blank(
            #[trigger] a.drop_first()[i],
        ) by {
            assert(is_blank(a[i + 1]));
        }
        blanks_in_front(a.drop_first(), s);
    } else {
        assert(a + s =~= s);
    }
}

proof fn blanks_behind(s: Seq<char>, b: Seq<char>)
    requires
        forall|i: int| 0 <= i < b.len() ==> is_blank(#[trigger] b[i]),
        s.len() == 0 || 33 <= s.last() as int <= 126,
    ensures
        trim_back(s + b) == s,
    decreases b.len(),
{
    if b.len() > 0 {
        assert(is_blank(b[b.len() - 1]));
        assert((s + b).drop_last() =~= s + b.drop_last());
        assert forall|i: int| 0 <= i < b.drop_last().len() implies is_blank(
            #[trigger] b.drop_last()[i],
        ) by {
            assert(is_blank(b[i]));
        }
        blanks_behind(s, b.drop_last());
    } else {
        assert(s + b =~= s);
    }
}

/// Trimming drops the blanks in front and behind, and nothing between.
pub proof fn trimming_keeps_what_is_between(a: Seq<char>, s: Seq<char>, b: Seq<char>)
    requires
        forall|i: int| 0 <= i < a.len() ==> is_blank(#[trigger] a[i]),
        forall|i: int| 0 <= i < b.len() ==> is_blank(#[trigger] b[i]),
        s.len() > 0,
        33 <= s[0] as int <= 126,
        33 <= s.last() as int <= 126,
    ensures
        trim_front(a + s) == s,
        trim_front(a + s + b) == s + b,
        trim(a + s + b) == s,
        trim(a) == Seq::<char>::empty(),
{
    assert(a + s + b =~= a + (s + b));
    blanks_in_front(a, s);
    blanks_in_front(a, s + b);
    blanks_behind(s, b);
    blanks_in_front(a, Seq::empty());
    assert(a + Seq::<char>::empty() =~= a);
}

/// The value of a hexadecimal digit.
pub open spec fn nibble(c: char) -> int {
    if 48 <= c as int <= 57 {
        c as int - 48
    } else {
        c as int - 87
    }
}

/// A byte in hexadecimal is two digits, 0 to 9 or a to f, the sixteens first.
pub proof fn hexadecimal_is_in_base_sixteen(b: u8)
    ensures
        hex2(b).len() == 2,
        nibble(hex2(b)[0]) * 16 + nibble(hex2(b)[1]) == b,
        48 <= hex2(b)[0] as int <= 57 || 97 <= hex2(b)[0] as int <= 102,
        48 <= hex2(b)[1] as int <= 57 || 97 <= hex2(b)[1] as int <= 102,
{
}

/// Of a text of blanks nothing is left.
pub proof fn trim_of_gap(a: Seq<char>)
    requires
        forall|i: int| 0 <= i < a.len() ==> is_blank(#[trigger] a[i]),
    ensures
        trim_front(a) == Seq::<char>::empty(),
{
    blanks_in_front(a, Seq::empty());
    assert(a + Seq::<char>::empty() =~= a);
}

/// Blanks in front of a visible character are dropped.
pub proof fn trim_of_front(a: Seq<char>, s: Seq<char>)
    requires
        forall|i: int| 0 <= i < a.len() ==> is_blank(#[trigger] a[i]),
        s.len() > 0,
        33 <= s[0] as int <= 126,
    ensures
        trim_front(a + s) == s,
{
    blanks_in_front(a, s);
}

} // verus!
