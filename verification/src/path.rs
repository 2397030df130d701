//! Path handling on `/`-separated paths held as strings: final component,
//! stem, extension and joining, following the documented behaviour of
//! `std::path::Path` on Unix.
use vstd::prelude::*;

use crate::text::{str_chars, string_from_chars, push_all, push_str};

verus! {

/// Index of the last occurrence of `c` in `s`, or -1.
pub open spec fn last_index(s: Seq<char>, c: char) -> int
    decreases s.len(),
{
    if s.len() == 0 {
        -1
    } else if s.last() == c {
        s.len() - 1
    } else {
        last_index(s.drop_last(), c)
    }
}

pub proof fn lemma_last_index_bounds(s: Seq<char>, c: char)
    ensures
        -1 <= last_index(s, c) < s.len(),
        last_index(s, c) >= 0 ==> s[last_index(s, c)] == c,
        forall|j: int| last_index(s, c) < j < s.len() ==> s[j] != c,
    decreases s.len(),
{
    if s.len() > 0 && s.last() != c {
        lemma_last_index_bounds(s.drop_last(), c);
        assert forall|j: int| last_index(s, c) < j < s.len() implies s[j] != c by {
            if j < s.len() - 1 {
                assert(s[j] == s.drop_last()[j]);
            }
        }
    }
}

pub proof fn lemma_last_index_unique(s: Seq<char>, c: char, k: int)
    requires
        -1 <= k < s.len(),
        k >= 0 ==> s[k] == c,
        forall|j: int| k < j < s.len() ==> s[j] != c,
    ensures
        last_index(s, c) == k,
    decreases s.len(),
{
    if s.len() > 0 && k < s.len() - 1 {
        assert(s.last() != c);
        lemma_last_index_unique(s.drop_last(), c, k);
    }
}

/// The final component of a path: repeated and trailing separators are
/// ignored, and so are `.` components except a leading one.
pub open spec fn final_component(p: Seq<char>) -> Option<Seq<char>>
    decreases p.len(),
{
    if p.len() == 0 {
        None
    } else if p.last() == '/' {
        final_component(p.drop_last())
    } else {
        let k = last_index(p, '/');
        let seg = p.subrange(k + 1, p.len() as int);
        if seg == seq!['.'] {
            if k < 0 || k >= p.len() {
                None
            } else {
                proof {
                    lemma_last_index_bounds(p, '/');
                }
                final_component(p.subrange(0, k + 1))
            }
        } else {
            Some(seg)
        }
    }
}

/// The file name of a path: its final component, unless that is `..`.
pub open spec fn spec_file_name(p: Seq<char>) -> Option<Seq<char>> {
    match final_component(p) {
        Some(s) => if s == seq!['.', '.'] {
            None
        } else {
            Some(s)
        },
        None => None,
    }
}

/// The file stem: the file name without its extension; a name with no dot,
/// or with a single leading dot, is its own stem.
pub open spec fn spec_file_stem(p: Seq<char>) -> Option<Seq<char>> {
    match spec_file_name(p) {
        Some(name) => {
            let k = last_index(name, '.');
            if k <= 0 {
                Some(name)
            } else {
                Some(name.subrange(0, k))
            }
        },
        None => None,
    }
}

/// The extension: the part of the file name after its last dot, when that
/// dot is not the first character.
pub open spec fn spec_extension(p: Seq<char>) -> Option<Seq<char>> {
    match spec_file_name(p) {
        Some(name) => {
            let k = last_index(name, '.');
            if k <= 0 {
                None
            } else {
                Some(name.subrange(k + 1, name.len() as int))
            }
        },
        None => None,
    }
}

/// `base` with `name` appended: an absolute `name` replaces `base`,
/// otherwise a separator is put between them unless `base` is empty or
/// already ends in one.
pub open spec fn spec_join(base: Seq<char>, name: Seq<char>) -> Seq<char> {
    if name.len() > 0 && name[0] == '/' {
        name
    } else if base.len() > 0 && base.last() != '/' {
        base + seq!['/'] + name
    } else {
        base + name
    }
}

/// Index of the last `c` among the first `end` characters of `v`.
fn find_last(v: &Vec<char>, c: char, end: usize) -> (r: Option<usize>)
    requires
        end <= v@.len(),
    ensures
        match r {
            Some(k) => last_index(v@.subrange(0, end as int), c) == k as int,
            None => last_index(v@.subrange(0, end as int), c) == -1,
        },
{
    let ghost s = v@.subrange(0, end as int);
    let mut i: usize = end;
    while i > 0
        invariant
            i <= end <= v@.len(),
            s == v@.subrange(0, end as int),
            forall|j: int| i <= j < end ==> v@[j] != c,
        decreases i,
    {
        if v[i - 1] == c {
            proof {
                lemma_last_index_unique(s, c, i - 1);
            }
            return Some(i - 1);
        }
        i -= 1;
    }
    proof {
        lemma_last_index_unique(s, c, -1);
    }
    None
}

/// Copy of `v[from..to]`.
fn sub_chars(v: &Vec<char>, from: usize, to: usize) -> (r: Vec<char>)
    requires
        from <= to <= v@.len(),
    ensures
        r@ == v@.subrange(from as int, to as int),
{
    let mut out: Vec<char> = Vec::new();
    let mut i: usize = from;
    while i < to
        invariant
            from <= i <= to <= v@.len(),
            out@ == v@.subrange(from as int, i as int),
        decreases to - i,
    {
        out.push(v[i]);
        i += 1;
        assert(out@ =~= v@.subrange(from as int, i as int));
    }
    out
}

/// The final component of the path `v` (see [`final_component`]).
fn final_component_of(v: &Vec<char>) -> (r: Option<Vec<char>>)
    ensures
        match r {
            Some(s) => final_component(v@) == Some(s@),
            None => final_component(v@).is_none(),
        },
{
    let mut end: usize = v.len();
    assert(v@.subrange(0, end as int) =~= v@);
    while end > 0
        invariant
            end <= v@.len(),
            final_component(v@) == final_component(v@.subrange(0, end as int)),
        decreases end,
    {
        let ghost q = v@.subrange(0, end as int);
        if v[end - 1] == '/' {
            assert(q.drop_last() =~= v@.subrange(0, end - 1));
            end -= 1;
        } else {
            let found = find_last(v, '/', end);
            proof {
                lemma_last_index_bounds(q, '/');
            }
            let start: usize = match found {
                Some(k) => k + 1,
                None => 0,
            };
            let seg = sub_chars(v, start, end);
            assert(seg@ =~= q.subrange(last_index(q, '/') + 1, q.len() as int));
            if seg.len() == 1 && seg[0] == '.' {
                assert(seg@ =~= seq!['.']);
                if found.is_none() {
                    return None;
                }
                assert(q.subrange(0, start as int) =~= v@.subrange(0, start as int));
                end = start;
            } else {
                assert(seg@ != seq!['.']) by {
                    if seg@ == seq!['.'] {
                        assert(seg@.len() == 1 && seg@[0] == '.');
                    }
                };
                return Some(seg);
            }
        }
    }
    assert(v@.subrange(0, 0) =~= Seq::<char>::empty());
    None
}

/// The file name of `path` (see [`spec_file_name`]).
pub fn file_name_chars(path: &str) -> (r: Option<Vec<char>>)
    ensures
        match r {
            Some(s) => spec_file_name(path@) == Some(s@),
            None => spec_file_name(path@).is_none(),
        },
{
    let v = str_chars(path);
    match final_component_of(&v) {
        Some(s) => {
            if s.len() == 2 && s[0] == '.' && s[1] == '.' {
                assert(s@ =~= seq!['.', '.']);
                None
            } else {
                assert(s@ != seq!['.', '.']) by {
                    if s@ == seq!['.', '.'] {
                        assert(s@.len() == 2 && s@[0] == '.' && s@[1] == '.');
                    }
                };
                Some(s)
            }
        },
        None => None,
    }
}

/// The file name of `path`.
pub fn file_name(path: &str) -> (r: Option<String>)
    ensures
        match r {
            Some(s) => spec_file_name(path@) == Some(s@),
            None => spec_file_name(path@).is_none(),
        },
{
    match file_name_chars(path) {
        Some(v) => Some(string_from_chars(&v)),
        None => None,
    }
}

/// The file stem of `path` (see [`spec_file_stem`]).
pub fn file_stem(path: &str) -> (r: Option<String>)
    ensures
        match r {
            Some(s) => spec_file_stem(path@) == Some(s@),
            None => spec_file_stem(path@).is_none(),
        },
{
    match file_name_chars(path) {
        Some(name) => {
            let found = find_last(&name, '.', name.len());
            assert(name@.subrange(0, name@.len() as int) =~= name@);
            proof {
                lemma_last_index_bounds(name@, '.');
            }
            match found {
                Some(k) if k > 0 => {
                    let stem = sub_chars(&name, 0, k);
                    Some(string_from_chars(&stem))
                },
                _ => Some(string_from_chars(&name)),
            }
        },
        None => None,
    }
}

/// The extension of `path` (see [`spec_extension`]).
pub fn extension(path: &str) -> (r: Option<String>)
    ensures
        match r {
            Some(s) => spec_extension(path@) == Some(s@),
            None => spec_extension(path@).is_none(),
        },
{
    match file_name_chars(path) {
        Some(name) => {
            let found = find_last(&name, '.', name.len());
            assert(name@.subrange(0, name@.len() as int) =~= name@);
            proof {
                lemma_last_index_bounds(name@, '.');
            }
            match found {
                Some(k) if k > 0 => {
                    let ext = sub_chars(&name, k + 1, name.len());
                    Some(string_from_chars(&ext))
                },
                _ => None,
            }
        },
        None => None,
    }
}

/// Whether the extension of `path` is exactly `md`.
pub fn has_md_extension(path: &str) -> (r: bool)
    ensures
        r == (spec_extension(path@) == Some(seq!['m', 'd'])),
{
    match extension(path) {
        Some(e) => {
            let v = str_chars(e.as_str());
            let r = v.len() == 2 && v[0] == 'm' && v[1] == 'd';
            if r {
                assert(v@ =~= seq!['m', 'd']);
            } else {
                assert(v@ != seq!['m', 'd']) by {
                    if v@ == seq!['m', 'd'] {
                        assert(v@.len() == 2 && v@[0] == 'm' && v@[1] == 'd');
                    }
                };
            }
            r
        },
        None => false,
    }
}

/// `base` joined with `name` (see [`spec_join`]).
pub fn join(base: &str, name: &str) -> (r: String)
    ensures
        r@ == spec_join(base@, name@),
{
    let b = str_chars(base);
    let n = str_chars(name);
    let mut out: Vec<char> = Vec::new();
    if n.len() > 0 && n[0] == '/' {
        push_all(&mut out, &n);
        assert(out@ =~= n@);
    } else {
        push_all(&mut out, &b);
        if b.len() > 0 && b[b.len() - 1] != '/' {
            out.push('/');
        }
        push_all(&mut out, &n);
        assert(out@ =~= spec_join(base@, name@));
    }
    string_from_chars(&out)
}

} // verus!
