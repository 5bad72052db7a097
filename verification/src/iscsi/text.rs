//! iSCSI text segments: `Key=Value\0Key=Value\0...`.
use vstd::prelude::*;
use crate::text;
use crate::wire;

verus! {

/// Key/value pairs as mathematical text.
pub open spec fn pairs_view(pairs: Seq<(String, String)>) -> Seq<(Seq<char>, Seq<char>)> {
    Seq::new(pairs.len(), |i: int| (pairs[i].0@, pairs[i].1@))
}

/// The pair in one chunk: split at the first `=`, which must follow a
/// non-empty key.
pub open spec fn chunk_pair(chunk: Seq<u8>) -> Seq<(Seq<char>, Seq<char>)> {
    let eq = text::find(chunk, 0x3d);
    if 0 < eq < chunk.len() {
        seq![(text::lossy(chunk.take(eq)), text::lossy(chunk.skip(eq + 1)))]
    } else {
        Seq::empty()
    }
}

/// The pairs in a text segment, chunk by NUL-terminated chunk; what is no pair
/// is skipped.
pub open spec fn pairs_in(data: Seq<u8>) -> Seq<(Seq<char>, Seq<char>)>
    decreases data.len(),
{
    let end = text::find(data, 0);
    if 0 <= end < data.len() {
        chunk_pair(data.take(end)) + pairs_in(data.skip(end + 1))
    } else {
        chunk_pair(data)
    }
}

/// One pair on the wire: `Key=Value` and a NUL.
pub open spec fn pair_bytes(pair: (Seq<char>, Seq<char>)) -> Seq<u8> {
    vstd::utf8::encode_utf8(pair.0) + seq![0x3du8] + vstd::utf8::encode_utf8(pair.1) + seq![0u8]
}

/// Pairs on the wire, one after the other.
pub open spec fn pairs_bytes(pairs: Seq<(Seq<char>, Seq<char>)>) -> Seq<u8>
    decreases pairs.len(),
{
    if pairs.len() == 0 {
        Seq::empty()
    } else {
        pairs_bytes(pairs.drop_last()) + pair_bytes(pairs.last())
    }
}

/// Parse a text segment into key/value pairs. Splitting is on the *first* `=`.
/// Malformed entries (no `=`, empty key) and empty chunks are skipped. Never
/// panics; non-UTF-8 bytes are replaced (lossy).
pub fn parse_pairs(data: &[u8]) -> (out: Vec<(String, String)>)
    ensures
        pairs_view(out@) == pairs_in(data@),
{
    let mut out: Vec<(String, String)> = Vec::new();
    let n: usize = data.len();
    let mut start: usize = 0;
    assert(data@.skip(0) =~= data@);
    assert(pairs_view(out@) =~= Seq::empty());
    loop
        invariant
            start <= n,
            n == data@.len(),
            pairs_view(out@) + pairs_in(data@.skip(start as int)) == pairs_in(data@),
        decreases n - start,
    {
        let ghost rest = data@.skip(start as int);
        let end: usize = text::find_byte(data, start, 0);
        let eq: usize = text::find_byte(data, start, 0x3d);
        let ghost chunk = data@.subrange(start as int, end as int);
        proof {
            if end < n {
                assert(chunk =~= rest.take(end - start));
            } else {
                assert(chunk =~= rest);
            }
            if eq < end {
                text::find_is(chunk, 0x3d, eq - start);
            } else {
                text::find_is(chunk, 0x3d, end - start);
            }
        }
        let ghost before = out@;
        if start < eq && eq < end {
            let key = text::from_utf8_lossy(vstd::slice::slice_subrange(data, start, eq));
            let val = text::from_utf8_lossy(vstd::slice::slice_subrange(data, eq + 1, end));
            assert(data@.subrange(start as int, eq as int) =~= chunk.take(eq - start));
            assert(data@.subrange(eq + 1, end as int) =~= chunk.skip(eq - start + 1));
            out.push((key, val));
        }
        assert(pairs_view(out@) =~= pairs_view(before) + chunk_pair(chunk));
        if end >= n {
            assert(pairs_in(rest) =~= chunk_pair(chunk));
            return out;
        }
        assert(rest.skip(end - start + 1) =~= data@.skip(end + 1));
        assert(pairs_view(out@) + pairs_in(data@.skip(end + 1)) =~= pairs_view(before) + pairs_in(
            rest,
        ));
        start = end + 1;
    }
}

/// Encode pairs into a text segment: each `Key=Value` followed by a NUL.
pub fn encode_pairs(pairs: &[(String, String)]) -> (out: Vec<u8>)
    ensures
        out@ == pairs_bytes(pairs_view(pairs@)),
{
    let mut out: Vec<u8> = Vec::new();
    let mut i: usize = 0;
    let ghost view = pairs_view(pairs@);
    assert(view.take(0) =~= Seq::empty());
    while i < pairs.len()
        invariant
            i <= pairs@.len(),
            view == pairs_view(pairs@),
            out@ == pairs_bytes(view.take(i as int)),
        decreases pairs@.len() - i,
    {
        let ghost before = out@;
        wire::push_bytes(&mut out, pairs[i].0.as_str().as_bytes());
        out.push(0x3d);
        wire::push_bytes(&mut out, pairs[i].1.as_str().as_bytes());
        out.push(0);
        proof {
            assert(view.take(i + 1).drop_last() =~= view.take(i as int));
            assert(view.take(i + 1).last() == view[i as int]);
            assert(out@ =~= before + pair_bytes(view[i as int]));
        }
        i += 1;
    }
    assert(view.take(i as int) =~= view);
    out
}

/// Keys and values that a text segment can carry: the key is not empty and has
/// no `=`, and neither holds a NUL.
pub open spec fn encodable(pairs: Seq<(Seq<char>, Seq<char>)>) -> bool {
    forall|i: int| #![trigger pairs[i]]
        0 <= i < pairs.len() ==> {
            &&& pairs[i].0.len() > 0
            &&& !pairs[i].0.contains('=')
            &&& !pairs[i].0.contains('\0')
            &&& !pairs[i].1.contains('\0')
        }
}

/// Pairs on the wire, first pair first.
proof fn pairs_bytes_front(pairs: Seq<(Seq<char>, Seq<char>)>)
    requires
        pairs.len() > 0,
    ensures
        pairs_bytes(pairs) == pair_bytes(pairs[0]) + pairs_bytes(pairs.drop_first()),
    decreases pairs.len(),
{
    if pairs.len() == 1 {
        assert(pairs.drop_last() =~= Seq::empty());
        assert(pairs.drop_first() =~= Seq::empty());
        assert(pairs_bytes(pairs.drop_last()) =~= Seq::empty());
        assert(pairs_bytes(pairs) =~= pair_bytes(pairs[0]) + pairs_bytes(pairs.drop_first()));
    } else {
        pairs_bytes_front(pairs.drop_last());
        assert(pairs.drop_last().drop_first() =~= pairs.drop_first().drop_last());
        assert(pairs.drop_first().last() == pairs.last());
        assert(pairs_bytes(pairs) =~= pair_bytes(pairs[0]) + pairs_bytes(pairs.drop_first()));
    }
}

/// Pairs that a text segment can carry come back from it as they went in.
pub proof fn pairs_round_trip(pairs: Seq<(Seq<char>, Seq<char>)>)
    requires
        encodable(pairs),
    ensures
        pairs_in(pairs_bytes(pairs)) == pairs,
    decreases pairs.len(),
{
    let data = pairs_bytes(pairs);
    if pairs.len() == 0 {
        assert(data =~= Seq::empty());
        assert(pairs_in(data) =~= pairs);
    } else {
        let (k, v) = pairs[0];
        let kb = vstd::utf8::encode_utf8(k);
        let vb = vstd::utf8::encode_utf8(v);
        let chunk = kb + seq![0x3du8] + vb;
        let rest = pairs.drop_first();
        pairs_bytes_front(pairs);
        text::utf8_has_no(k, '=');
        text::utf8_has_no(k, '\0');
        text::utf8_has_no(v, '\0');
        assert(data =~= chunk + seq![0u8] + pairs_bytes(rest));
        assert forall|j: int| 0 <= j < chunk.len() implies data[j] != 0 by {
            if j < kb.len() {
                assert(data[j] == kb[j]);
            } else if j > kb.len() {
                assert(data[j] == vb[j - kb.len() - 1]);
            }
        }
        text::find_is(data, 0u8, chunk.len() as int);
        assert(data.take(chunk.len() as int) =~= chunk);
        assert(data.skip(chunk.len() as int + 1) =~= pairs_bytes(rest));
        assert forall|j: int| 0 <= j < kb.len() implies chunk[j] != 0x3d by {
            assert(chunk[j] == kb[j]);
        }
        text::find_is(chunk, 0x3du8, kb.len() as int);
        assert(chunk.take(kb.len() as int) =~= kb);
        assert(chunk.skip(kb.len() as int + 1) =~= vb);
        text::lossy_of_utf8(k);
        text::lossy_of_utf8(v);
        text::utf8_not_empty(k);
        assert forall|i: int| 0 <= i < rest.len() implies #[trigger] rest[i] == pairs[i + 1] by {}
        pairs_round_trip(rest);
        assert(pairs_in(data) =~= seq![(k, v)] + rest);
        assert(pairs_in(data) =~= pairs);
    }
}

/// A segment is read chunk by chunk, up to a NUL: a key that is not empty, the
/// first `=`, and a value, which may hold more of them, make a pair; a chunk
/// without `=`, or with nothing before it, makes none.
pub proof fn segments_are_read_chunk_by_chunk(key: Seq<u8>, value: Seq<u8>, rest: Seq<u8>)
    requires
        !key.contains(0),
        !key.contains(0x3d),
        !value.contains(0),
    ensures
        ({
            let pair = key + seq![0x3du8] + value;
            let pairs = if key.len() > 0 {
                seq![(text::lossy(key), text::lossy(value))]
            } else {
                Seq::empty()
            };
            &&& pairs_in(pair + seq![0u8] + rest) == pairs + pairs_in(rest)
            &&& pairs_in(pair) == pairs
            &&& pairs_in(key + seq![0u8] + rest) == pairs_in(rest)
            &&& pairs_in(key) == Seq::<(Seq<char>, Seq<char>)>::empty()
        }),
{
    let pair = key + seq![0x3du8] + value;
    let at = key.len() as int;
    assert forall|j: int| 0 <= j < at implies #[trigger] key[j] != 0 && key[j] != 0x3d by {
        assert(key.contains(key[j]));
    }
    assert forall|j: int| 0 <= j < value.len() implies #[trigger] value[j] != 0 by {
        assert(value.contains(value[j]));
    }
    assert forall|j: int| 0 <= j < at implies pair[j] != 0x3d by {
        assert(pair[j] == key[j]);
    }
    text::find_is(pair, 0x3d, at);
    assert(pair.take(at) =~= key);
    assert(pair.skip(at + 1) =~= value);
    let pairs = chunk_pair(pair);
    chunk_ends(pair, rest);
    assert forall|j: int| 0 <= j < at implies key[j] != 0x3d by {}
    no_pair(key);
    chunk_ends(key, rest);
    assert(Seq::<(Seq<char>, Seq<char>)>::empty() + pairs_in(rest) =~= pairs_in(rest));
}

proof fn no_pair(chunk: Seq<u8>)
    requires
        forall|j: int| 0 <= j < chunk.len() ==> #[trigger] chunk[j] != 0x3d,
    ensures
        chunk_pair(chunk) == Seq::<(Seq<char>, Seq<char>)>::empty(),
{
    text::find_bounds(chunk, 0x3d);
}

proof fn chunk_ends(chunk: Seq<u8>, rest: Seq<u8>)
    requires
        forall|j: int| 0 <= j < chunk.len() ==> #[trigger] chunk[j] != 0,
    ensures
        pairs_in(chunk + seq![0u8] + rest) == chunk_pair(chunk) + pairs_in(rest),
        pairs_in(chunk) == chunk_pair(chunk),
{
    let data = chunk + seq![0u8] + rest;
    let end = chunk.len() as int;
    assert forall|j: int| 0 <= j < end implies data[j] != 0 by {
        assert(data[j] == chunk[j]);
    }
    text::find_is(data, 0, end);
    assert(data.take(end) =~= chunk);
    assert(data.skip(end + 1) =~= rest);
    text::find_bounds(chunk, 0);
}

} // verus!
