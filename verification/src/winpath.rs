//! Windows-style paths: `\` and `/` both separate components.
use vstd::prelude::*;
use crate::text::{owned, chars_of, string_of_chars};

verus! {

/// Whether `c` separates path components.
pub open spec fn is_sep(c: char) -> bool {
    c == '\\' || c == '/'
}

/// `s` without trailing separators.
pub open spec fn trim_seps(s: Seq<char>) -> Seq<char>
    decreases s.len(),
{
    if s.len() > 0 && is_sep(s.last()) { trim_seps(s.drop_last()) } else { s }
}

/// Index of the last separator, or -1.
pub open spec fn last_sep(s: Seq<char>) -> int
    decreases s.len(),
{
    if s.len() == 0 { -1 } else if is_sep(s.last()) { s.len() - 1 } else { last_sep(s.drop_last()) }
}

/// The last component of a path (trailing separators ignored), unless it
/// is empty or `..`.
pub open spec fn path_file_name(path: Seq<char>) -> Option<Seq<char>> {
    let t = trim_seps(path);
    let name = t.subrange(last_sep(t) + 1, t.len() as int);
    if name.len() == 0 || name == ".."@ { None } else { Some(name) }
}

pub proof fn lemma_last_sep(s: Seq<char>)
    ensures
        -1 <= last_sep(s) < s.len(),
        last_sep(s) >= 0 ==> is_sep(s[last_sep(s)]),
        forall|j: int| last_sep(s) < j < s.len() ==> !is_sep(s[j]),
    decreases s.len(),
{
    if s.len() > 0 && !is_sep(s.last()) {
        lemma_last_sep(s.drop_last());
        assert forall|j: int| last_sep(s) < j < s.len() implies !is_sep(s[j]) by {
            if j < s.len() - 1 {
                assert(s.drop_last()[j] == s[j]);
            }
        }
    }
}

proof fn lemma_last_sep_tail(s: Seq<char>, k: int)
    requires
        -1 <= k < s.len(),
        k >= 0 ==> is_sep(s[k]),
        forall|j: int| k < j < s.len() ==> !is_sep(s[j]),
    ensures
        last_sep(s) == k,
    decreases s.len(),
{
    if s.len() > 0 && k < s.len() - 1 {
        lemma_last_sep_tail(s.drop_last(), k);
    }
}

/// The file name of a path, as `path_file_name` describes it.
pub fn file_name(path: &str) -> (r: Option<String>)
    ensures
        match r {
            Some(n) => path_file_name(path@) == Some(n@),
            None => path_file_name(path@) is None,
        },
{
    proof { reveal_strlit(".."); }
    let v = chars_of(path);
    let mut end: usize = v.len();
    assert(v@.subrange(0, end as int) =~= v@);
    while end > 0 && (v[end - 1] == '\\' || v[end - 1] == '/')
        invariant
            end <= v@.len(),
            trim_seps(v@) == trim_seps(v@.subrange(0, end as int)),
        decreases end,
    {
        assert(v@.subrange(0, end as int).drop_last() =~= v@.subrange(0, end - 1));
        end = end - 1;
    }
    let ghost t = v@.subrange(0, end as int);
    assert(trim_seps(t) == t);
    let mut start: usize = end;
    while start > 0 && !(v[start - 1] == '\\' || v[start - 1] == '/')
        invariant
            start <= end <= v@.len(),
            t == v@.subrange(0, end as int),
            forall|j: int| start <= j < end ==> !is_sep(v@[j]),
        decreases start,
    {
        start = start - 1;
    }
    proof {
        lemma_last_sep_tail(t, start - 1);
    }
    let name = string_of_chars(&v, start, end);
    assert(name@ =~= t.subrange(last_sep(t) + 1, t.len() as int));
    if end == start || (end - start == 2 && v[start] == '.' && v[start + 1] == '.') {
        assert(end - start == 2 ==> v[start as int] == '.' && v[start + 1] == '.' ==> name@ =~= ".."@);
        return None;
    }
    assert(name@ != ".."@) by {
        if name@ == ".."@ {
            assert(name@.len() == 2);
            assert(name@[0] == v@[start as int]);
            assert(name@[1] == v@[start + 1]);
        }
    }
    Some(name)
}

/// The file name of a path, or the path itself when it has none.
pub open spec fn file_name_or_path(path: Seq<char>) -> Seq<char> {
    match path_file_name(path) {
        Some(n) => n,
        None => path,
    }
}

pub fn file_name_or_whole(path: &str) -> (r: String)
    ensures
        r@ == file_name_or_path(path@),
{
    match file_name(path) {
        Some(n) => n,
        None => owned(path),
    }
}

} // verus!
