//! File names that clients and configurations give.
use vstd::prelude::*;
use crate::wire;

verus! {

/// A path separator, of Unix or Windows.
pub open spec fn is_separator(b: u8) -> bool {
    b == 0x2f || b == 0x5c
}

/// `i..j` is a component of the path `b`: it runs from a separator or the start
/// to a separator or the end, with none in between.
pub open spec fn is_component(b: Seq<u8>, i: int, j: int) -> bool {
    &&& 0 <= i <= j <= b.len()
    &&& i == 0 || is_separator(b[i - 1])
    &&& j == b.len() || is_separator(b[j])
    &&& forall|k: int| i <= k < j ==> !is_separator(#[trigger] b[k])
}

/// `i..j` is `.` or `..`.
pub open spec fn is_dots(b: Seq<u8>, i: int, j: int) -> bool {
    &&& j - i == 1 || j - i == 2
    &&& forall|k: int| i <= k < j ==> #[trigger] b[k] == 0x2e
}

/// A name that stays below the directory it is looked up in: not empty, not
/// absolute, without a drive letter, and without a `.` or `..` component.
pub open spec fn is_relative(b: Seq<u8>) -> bool {
    &&& b.len() > 0
    &&& !is_separator(b[0])
    &&& b.len() >= 2 ==> b[1] != 0x3a
    &&& forall|i: int, j: int| #[trigger] is_component(b, i, j) ==> !is_dots(b, i, j)
}

/// Whether `name` stays below the directory it is looked up in: reject absolute
/// paths, drive letters, and `.` and `..` components.
pub fn stays_below(name: &str) -> (r: bool)
    ensures
        r == is_relative(vstd::utf8::encode_utf8(name@)),
{
    let b = name.as_bytes();
    if b.len() == 0 {
        return false;
    }
    // Reject absolute paths (Unix and Windows)
    if b[0] == 0x2f || b[0] == 0x5c {
        return false;
    }
    // Reject Windows drive-letter paths (e.g. "C:foo")
    if b.len() >= 2 && b[1] == 0x3a {
        return false;
    }
    // Reject any path component that tries parent traversal
    let n: usize = b.len();
    let mut start: usize = 0;
    let mut end: usize = 0;
    let mut dots = true;
    while end < n
        invariant
            b@ == vstd::utf8::encode_utf8(name@),
            n == b@.len(),
            start <= end <= n,
            start == 0 || is_separator(b@[start - 1]),
            forall|k: int| start <= k < end ==> !is_separator(#[trigger] b@[k]),
            dots == forall|k: int| start <= k < end ==> #[trigger] b@[k] == 0x2e,
            forall|i: int, j: int| #[trigger] is_component(b@, i, j) && j < start ==> !is_dots(
                b@,
                i,
                j,
            ),
        decreases n - end,
    {
        let c: u8 = b[end];
        if c == 0x2f || c == 0x5c {
            assert(is_component(b@, start as int, end as int));
            if dots && (end - start == 1 || end - start == 2) {
                assert(is_dots(b@, start as int, end as int));
                return false;
            }
            proof {
                assert forall|i: int, j: int| #[trigger] is_component(b@, i, j) && j < end
                    + 1 implies !is_dots(b@, i, j) by {
                    if j >= start {
                        if j < end {
                            assert(is_separator(b@[j]));
                            assert(!is_separator(b@[j]));
                        }
                        if i < start {
                            assert(is_separator(b@[start - 1]));
                        } else if i > start {
                            assert(!is_separator(b@[i - 1]));
                        }
                        if is_dots(b@, i, j) {
                            assert(forall|k: int| start <= k < end ==> #[trigger] b@[k] == 0x2e);
                        }
                    }
                }
            }
            start = end + 1;
            dots = true;
        } else if c != 0x2e {
            dots = false;
        }
        end += 1;
    }
    assert(is_component(b@, start as int, n as int));
    if dots && (n - start == 1 || n - start == 2) {
        assert(is_dots(b@, start as int, n as int));
        return false;
    }
    proof {
        assert forall|i: int, j: int| #[trigger] is_component(b@, i, j) implies !is_dots(
            b@,
            i,
            j,
        ) by {
            if j >= start {
                if j < n {
                    assert(is_separator(b@[j]));
                    assert(!is_separator(b@[j]));
                }
                if i < start {
                    assert(is_separator(b@[start - 1]));
                } else if i > start {
                    assert(!is_separator(b@[i - 1]));
                }
                if is_dots(b@, i, j) {
                    assert(forall|k: int| start <= k < n ==> #[trigger] b@[k] == 0x2e);
                }
            }
        }
    }
    true
}

/// The names of the components of a path.
pub open spec fn names(components: Seq<Vec<u8>>) -> Seq<Seq<u8>> {
    Seq::new(components.len(), |i: int| components[i]@)
}

/// `root` starts `file`, component by component.
pub open spec fn starts(root: Seq<Seq<u8>>, file: Seq<Seq<u8>>) -> bool {
    root.len() <= file.len() && file.take(root.len() as int) == root
}

/// Whether the path `file` is `root` or below it. Both are given by the names of
/// their components, and lead through no links.
pub fn is_inside(root: &[Vec<u8>], file: &[Vec<u8>]) -> (r: bool)
    ensures
        r == starts(names(root@), names(file@)),
{
    let ghost top = names(root@);
    let ghost whole = names(file@);
    if root.len() > file.len() {
        return false;
    }
    let mut i: usize = 0;
    while i < root.len()
        invariant
            i <= root@.len() <= file@.len(),
            top == names(root@),
            whole == names(file@),
            forall|j: int| 0 <= j < i ==> top[j] == whole[j],
        decreases root@.len() - i,
    {
        if !wire::bytes_eq(root[i].as_slice(), file[i].as_slice()) {
            assert(top[i as int] != whole.take(root@.len() as int)[i as int]);
            return false;
        }
        i += 1;
    }
    assert(whole.take(root@.len() as int) =~= top);
    true
}

/// A file is inside a directory where the directory's components, all of them,
/// are the file's first ones.
pub proof fn inside_is_below(root: Seq<Seq<u8>>, file: Seq<Seq<u8>>, more: Seq<Seq<u8>>, k: int)
    ensures
        starts(root, root),
        starts(root, root + more),
        starts(root, file) && 0 <= k < root.len() ==> k < file.len() && file[k] == root[k],
        file.len() < root.len() ==> !starts(root, file),
        0 <= k < root.len() && k < file.len() && file[k] != root[k] ==> !starts(root, file),
{
    assert(root.take(root.len() as int) =~= root);
    assert((root + more).take(root.len() as int) =~= root);
    if starts(root, file) && 0 <= k < root.len() {
        assert(file.take(root.len() as int)[k] == file[k]);
    }
}

} // verus!
