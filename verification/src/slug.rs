//! Filename-safe slugs derived from entry titles.
use vstd::prelude::*;

use crate::text::{str_chars, string_from_chars};

verus! {

/// The Unicode `White_Space` characters.
pub open spec fn is_unicode_whitespace(c: char) -> bool {
    let u = c as u32;
    ||| (0x09 <= u <= 0x0D)
    ||| u == 0x20
    ||| u == 0x85
    ||| u == 0xA0
    ||| u == 0x1680
    ||| (0x2000 <= u <= 0x200A)
    ||| u == 0x2028
    ||| u == 0x2029
    ||| u == 0x202F
    ||| u == 0x205F
    ||| u == 0x3000
}

/// ASCII upper-case letters become lower-case; other characters are kept.
pub open spec fn ascii_lower(c: char) -> char {
    if 'A' <= c <= 'Z' {
        ((c as u32) + 32) as char
    } else {
        c
    }
}

pub open spec fn is_ascii_alnum(c: char) -> bool {
    ('0' <= c <= '9') || ('a' <= c <= 'z') || ('A' <= c <= 'Z')
}

/// Characters allowed in a slug: ASCII lower-case letters, digits and `_`.
pub open spec fn is_slug_char(c: char) -> bool {
    ('0' <= c <= '9') || ('a' <= c <= 'z') || c == '_'
}

/// Whitespace becomes `_`, everything else is lower-cased.
pub open spec fn slug_map(c: char) -> char {
    if is_unicode_whitespace(c) {
        '_'
    } else {
        ascii_lower(c)
    }
}

/// The mapped characters that are ASCII alphanumeric or `_`, in order.
pub open spec fn slug_core(s: Seq<char>) -> Seq<char>
    decreases s.len(),
{
    if s.len() == 0 {
        Seq::empty()
    } else {
        let c = slug_map(s.last());
        if is_ascii_alnum(c) || c == '_' {
            slug_core(s.drop_last()).push(c)
        } else {
            slug_core(s.drop_last())
        }
    }
}

/// Number of leading `_` characters.
pub open spec fn leading_underscores(t: Seq<char>) -> nat
    decreases t.len(),
{
    if t.len() == 0 || t[0] != '_' {
        0
    } else {
        1 + leading_underscores(t.drop_first())
    }
}

/// Number of trailing `_` characters.
pub open spec fn trailing_underscores(t: Seq<char>) -> nat
    decreases t.len(),
{
    if t.len() == 0 || t.last() != '_' {
        0
    } else {
        1 + trailing_underscores(t.drop_last())
    }
}

/// `t` without its leading and trailing `_` characters.
pub open spec fn trim_underscores(t: Seq<char>) -> Seq<char> {
    let a = leading_underscores(t);
    if a == t.len() {
        Seq::empty()
    } else {
        t.subrange(a as int, t.len() - trailing_underscores(t))
    }
}

/// The slug of a title: lower-cased, whitespace replaced by `_`, every
/// character that is not ASCII alphanumeric or `_` dropped, and `_` trimmed
/// from both ends.
pub open spec fn spec_slugify(title: Seq<char>) -> Seq<char> {
    trim_underscores(slug_core(title))
}

proof fn lemma_leading(t: Seq<char>, i: int)
    requires
        0 <= i <= t.len(),
        forall|j: int| 0 <= j < i ==> t[j] == '_',
        i == t.len() || t[i] != '_',
    ensures
        leading_underscores(t) == i,
    decreases i,
{
    if i > 0 {
        lemma_leading(t.drop_first(), i - 1);
    }
}

proof fn lemma_trailing(t: Seq<char>, i: int)
    requires
        0 <= i <= t.len(),
        forall|j: int| t.len() - i <= j < t.len() ==> t[j] == '_',
        i == t.len() || t[t.len() - 1 - i] != '_',
    ensures
        trailing_underscores(t) == i,
    decreases i,
{
    if i > 0 {
        lemma_trailing(t.drop_last(), i - 1);
    }
}

proof fn lemma_leading_facts(t: Seq<char>)
    ensures
        leading_underscores(t) <= t.len(),
        forall|j: int| 0 <= j < leading_underscores(t) ==> t[j] == '_',
        leading_underscores(t) < t.len() ==> t[leading_underscores(t) as int] != '_',
    decreases t.len(),
{
    if t.len() > 0 && t[0] == '_' {
        lemma_leading_facts(t.drop_first());
        assert forall|j: int| 0 <= j < leading_underscores(t) implies t[j] == '_' by {
            if j > 0 {
                assert(t[j] == t.drop_first()[j - 1]);
            }
        }
    }
}

proof fn lemma_trailing_facts(t: Seq<char>)
    ensures
        trailing_underscores(t) <= t.len(),
        forall|j: int| t.len() - trailing_underscores(t) <= j < t.len() ==> t[j] == '_',
        trailing_underscores(t) < t.len() ==> t[t.len() - 1 - trailing_underscores(t)] != '_',
    decreases t.len(),
{
    if t.len() > 0 && t.last() == '_' {
        lemma_trailing_facts(t.drop_last());
        assert forall|j: int| t.len() - trailing_underscores(t) <= j < t.len() implies t[j] == '_' by {
            if j < t.len() - 1 {
                assert(t[j] == t.drop_last()[j]);
            }
        }
    }
}

fn is_whitespace(c: char) -> (r: bool)
    ensures
        r == is_unicode_whitespace(c),
{
    let u = c as u32;
    (0x09 <= u && u <= 0x0D) || u == 0x20 || u == 0x85 || u == 0xA0 || u == 0x1680 || (0x2000
        <= u && u <= 0x200A) || u == 0x2028 || u == 0x2029 || u == 0x202F || u == 0x205F || u
        == 0x3000
}

fn map_char(c: char) -> (r: char)
    ensures
        r == slug_map(c),
{
    if is_whitespace(c) {
        '_'
    } else if 'A' <= c && c <= 'Z' {
        let u = c as u32;
        ((u + 32) as u8) as char
    } else {
        c
    }
}

/// Converts a title to a filename-safe slug.
///
/// Lowercases the string, replaces whitespace with `_`, strips any character
/// that is not ASCII alphanumeric or `_`, and trims `_` from both ends.
pub fn slugify(title: &str) -> (r: String)
    ensures
        r@ == spec_slugify(title@),
{
    let chars = str_chars(title);
    let mut core: Vec<char> = Vec::new();
    let mut i: usize = 0;
    while i < chars.len()
        invariant
            i <= chars@.len(),
            chars@ == title@,
            core@ == slug_core(chars@.subrange(0, i as int)),
        decreases chars@.len() - i,
    {
        let c = map_char(chars[i]);
        let keep = ('0' <= c && c <= '9') || ('a' <= c && c <= 'z') || ('A' <= c && c <= 'Z') || c
            == '_';
        assert(chars@.subrange(0, i + 1).drop_last() =~= chars@.subrange(0, i as int));
        if keep {
            core.push(c);
        }
        i += 1;
    }
    assert(chars@.subrange(0, chars@.len() as int) =~= chars@);
    let ghost t = core@;
    let mut a: usize = 0;
    while a < core.len() && core[a] == '_'
        invariant
            a <= core@.len(),
            t == core@,
            forall|j: int| 0 <= j < a ==> t[j] == '_',
        decreases core@.len() - a,
    {
        a += 1;
    }
    proof {
        lemma_leading(t, a as int);
    }
    let mut out: Vec<char> = Vec::new();
    if a < core.len() {
        let mut b: usize = 0;
        while b < core.len() - a && core[core.len() - 1 - b] == '_'
            invariant
                a < core@.len(),
                b <= core@.len() - a,
                t == core@,
                forall|j: int| t.len() - b <= j < t.len() ==> t[j] == '_',
            decreases core@.len() - b,
        {
            b += 1;
        }
        proof {
            lemma_leading_facts(t);
            if b == core.len() - a {
                assert(t[a as int] != '_');
                assert(false);
            }
            lemma_trailing(t, b as int);
        }
        let end = core.len() - b;
        let mut k: usize = a;
        while k < end
            invariant
                a <= k <= end <= core@.len(),
                t == core@,
                out@ == t.subrange(a as int, k as int),
            decreases end - k,
        {
            out.push(core[k]);
            k += 1;
            assert(out@ =~= t.subrange(a as int, k as int));
        }
    } else {
        assert(out@ =~= Seq::<char>::empty());
    }
    string_from_chars(&out)
}

/// A slug consists only of ASCII lower-case letters, digits and `_`, and
/// neither begins nor ends with `_`.
pub proof fn lemma_slug_shape(title: Seq<char>)
    ensures
        forall|j: int| 0 <= j < spec_slugify(title).len() ==> is_slug_char(#[trigger] spec_slugify(title)[j]),
        spec_slugify(title).len() > 0 ==> spec_slugify(title)[0] != '_' && spec_slugify(title).last() != '_',
{
    let t = slug_core(title);
    lemma_core_chars(title);
    lemma_leading_facts(t);
    lemma_trailing_facts(t);
    let a = leading_underscores(t);
    let b = trailing_underscores(t);
    if a < t.len() {
        if t.len() - b <= a {
            assert(t[a as int] == '_');
        }
    }
}

proof fn lemma_core_chars(s: Seq<char>)
    ensures
        forall|j: int| 0 <= j < slug_core(s).len() ==> is_slug_char(#[trigger] slug_core(s)[j]),
    decreases s.len(),
{
    if s.len() > 0 {
        lemma_core_chars(s.drop_last());
        let c = slug_map(s.last());
        if is_ascii_alnum(c) || c == '_' {
            assert(!('A' <= c <= 'Z'));
            let p = slug_core(s.drop_last());
            assert forall|j: int| 0 <= j < slug_core(s).len() implies is_slug_char(#[trigger] slug_core(s)[j]) by {
                if j < p.len() {
                    assert(slug_core(s)[j] == p[j]);
                }
            }
        }
    }
}

proof fn lemma_core_of_slug_chars(s: Seq<char>)
    requires
        forall|j: int| 0 <= j < s.len() ==> is_slug_char(#[trigger] s[j]),
    ensures
        slug_core(s) == s,
    decreases s.len(),
{
    if s.len() > 0 {
        assert(is_slug_char(s.last()));
        lemma_core_of_slug_chars(s.drop_last());
        assert(s.drop_last().push(s.last()) =~= s);
    }
}

/// Slugifying a slug gives it back unchanged.
pub proof fn lemma_slugify_idempotent(title: Seq<char>)
    ensures
        spec_slugify(spec_slugify(title)) == spec_slugify(title),
{
    let s = spec_slugify(title);
    lemma_slug_shape(title);
    lemma_core_of_slug_chars(s);
    if s.len() > 0 {
        lemma_leading(s, 0);
        lemma_trailing(s, 0);
        assert(s.subrange(0, s.len() as int) =~= s);
    } else {
        assert(trim_underscores(s) =~= s);
    }
}

} // verus!
