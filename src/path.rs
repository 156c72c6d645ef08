//! The final component of a file path, as shown in the page title.
use vstd::prelude::*;

verus! {

/// The separator `/`.
pub const SLASH: u8 = 47;

/// The byte `.`.
pub const DOT: u8 = 46;

/// The path without what follows its final component: trailing separators
/// and trailing `.` components, which name no file of their own.
pub open spec fn trim_trailing(p: Seq<u8>) -> Seq<u8>
    decreases p.len(),
{
    if p.len() > 0 && p.last() == SLASH {
        trim_trailing(p.drop_last())
    } else if p.len() > 0 && p.last() == DOT && (p.len() == 1 || p[p.len() - 2] == SLASH) {
        trim_trailing(p.drop_last())
    } else {
        p
    }
}

/// The bytes after the last separator.
pub open spec fn last_segment(p: Seq<u8>) -> Seq<u8>
    decreases p.len(),
{
    if p.len() == 0 || p.last() == SLASH {
        Seq::empty()
    } else {
        last_segment(p.drop_last()).push(p.last())
    }
}

/// The name of the file a path designates: its final component, unless the
/// path ends in the root, in `..`, or in nothing at all.
pub open spec fn file_name_spec(p: Seq<u8>) -> Option<Seq<u8>> {
    let s = last_segment(trim_trailing(p));
    if s.len() == 0 || s == seq![DOT, DOT] {
        None
    } else {
        Some(s)
    }
}

/// The final component of `path`, if it has one that names a file.
pub fn file_name(path: &[u8]) -> (r: Option<Vec<u8>>)
    ensures
        match r {
            Some(v) => file_name_spec(path@) == Some(v@),
            None => file_name_spec(path@) is None,
        },
{
    let mut end: usize = path.len();
    assert(path@.subrange(0, end as int) =~= path@);
    while end > 0 && (path[end - 1] == SLASH || (path[end - 1] == DOT && (end == 1
        || path[end - 2] == SLASH)))
        invariant
            end <= path@.len(),
            trim_trailing(path@) == trim_trailing(path@.subrange(0, end as int)),
        decreases end,
    {
        assert(path@.subrange(0, end as int).drop_last() =~= path@.subrange(0, end - 1));
        end = end - 1;
    }
    let ghost trimmed = path@.subrange(0, end as int);
    let mut start: usize = end;
    while start > 0 && path[start - 1] != SLASH
        invariant
            start <= end <= path@.len(),
            trimmed == path@.subrange(0, end as int),
            last_segment(trimmed) == last_segment(path@.subrange(0, start as int))
                + path@.subrange(start as int, end as int),
        decreases start,
    {
        let ghost before = path@.subrange(0, start as int);
        assert(before.drop_last() =~= path@.subrange(0, start - 1));
        assert(path@.subrange(start - 1, end as int) =~= seq![before.last()]
            + path@.subrange(start as int, end as int));
        start = start - 1;
    }
    let ghost seg = path@.subrange(start as int, end as int);
    assert(last_segment(path@.subrange(0, start as int)) =~= Seq::<u8>::empty());
    assert(last_segment(trimmed) =~= seg);
    let n = end - start;
    if n == 0 || (n == 2 && path[start] == DOT && path[start + 1] == DOT) {
        if n == 2 {
            assert(seg =~= seq![DOT, DOT]);
        }
        return None;
    }
    if n == 2 {
        assert(seg != seq![DOT, DOT]) by {
            if seg[0] != DOT {
                assert(seg[0] != seq![DOT, DOT][0]);
            } else {
                assert(seg[1] != seq![DOT, DOT][1]);
            }
        }
    } else {
        assert(seg.len() != seq![DOT, DOT].len());
    }
    let mut name: Vec<u8> = Vec::new();
    let mut k: usize = start;
    while k < end
        invariant
            start <= k <= end <= path@.len(),
            name@ == path@.subrange(start as int, k as int),
        decreases end - k,
    {
        name.push(path[k]);
        assert(path@.subrange(start as int, k + 1) =~= name@);
        k = k + 1;
    }
    Some(name)
}

} // verus!
