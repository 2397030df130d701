//! References to a journal entry as typed by a user.
use vstd::prelude::*;

use crate::text::{chars_contain, chars_end_with, is_suffix, str_chars, string_from_chars};

verus! {

/// A reference to a journal entry: a filesystem path, an identifier, or a
/// title.
///
/// | Input form              | Resolved as     |
/// |-------------------------|-----------------|
/// | `@abc1234`              | `Id("abc1234")` |
/// | `path/to/file.md`       | `Path(...)`     |
/// | `./relative.md`         | `Path(...)`     |
/// | `~/absolute.md`         | `Path(...)`     |
/// | `anything_else`         | `Title(...)`    |
///
/// The `@` prefix is required for identifiers, to avoid ambiguity with
/// titles that happen to be 7 alphanumeric characters.
#[derive(Debug, Clone)]
pub enum EntryRef {
    /// A filesystem path to the entry file.
    Path(String),
    /// An identifier (the `@` prefix has been stripped).
    Id(String),
    /// An exact entry title (case-sensitive).
    Title(String),
}

/// Mathematical model of [`EntryRef`].
pub enum EntryRefModel {
    Path(Seq<char>),
    Id(Seq<char>),
    Title(Seq<char>),
}

impl View for EntryRef {
    type V = EntryRefModel;

    open spec fn view(&self) -> EntryRefModel {
        match self {
            EntryRef::Path(p) => EntryRefModel::Path(p@),
            EntryRef::Id(i) => EntryRefModel::Id(i@),
            EntryRef::Title(t) => EntryRefModel::Title(t@),
        }
    }
}

/// Input that reads as a path: it holds a `/` or `\`, starts with `.` or
/// `~`, or ends with `.md`.
pub open spec fn looks_like_path(s: Seq<char>) -> bool {
    ||| s.contains('/')
    ||| s.contains('\\')
    ||| (s.len() > 0 && s[0] == '.')
    ||| (s.len() > 0 && s[0] == '~')
    ||| is_suffix(seq!['.', 'm', 'd'], s)
}

/// How user input is classified.
pub open spec fn spec_parse_ref(s: Seq<char>) -> EntryRefModel {
    if s.len() > 0 && s[0] == '@' {
        EntryRefModel::Id(s.drop_first())
    } else if looks_like_path(s) {
        EntryRefModel::Path(s)
    } else {
        EntryRefModel::Title(s)
    }
}

impl EntryRef {
    /// Classifies raw user input as a path, an identifier, or a title.
    ///
    /// - Starts with `@` → [`EntryRef::Id`] (prefix stripped).
    /// - Contains `/` or `\`, starts with `.` or `~`, or ends with `.md`
    ///   → [`EntryRef::Path`].
    /// - Anything else → [`EntryRef::Title`].
    pub fn parse(s: &str) -> (r: EntryRef)
        ensures
            r@ == spec_parse_ref(s@),
    {
        let v = str_chars(s);
        if v.len() > 0 && v[0] == '@' {
            let mut rest: Vec<char> = Vec::new();
            let mut i: usize = 1;
            while i < v.len()
                invariant
                    1 <= i <= v@.len(),
                    rest@ == v@.subrange(1, i as int),
                decreases v@.len() - i,
            {
                rest.push(v[i]);
                i += 1;
                assert(rest@ =~= v@.subrange(1, i as int));
            }
            assert(rest@ =~= v@.drop_first());
            return EntryRef::Id(string_from_chars(&rest));
        }
        let md = vec!['.', 'm', 'd'];
        assert(md@ =~= seq!['.', 'm', 'd']);
        if chars_contain(&v, '/') || chars_contain(&v, '\\') || (v.len() > 0 && v[0] == '.') || (v.len()
            > 0 && v[0] == '~') || chars_end_with(&v, &md) {
            EntryRef::Path(s.to_owned())
        } else {
            EntryRef::Title(s.to_owned())
        }
    }
}

impl From<&str> for EntryRef {
    /// Classifies the input as [`EntryRef::parse`] does.
    fn from(s: &str) -> (r: EntryRef)
        ensures
            r@ == spec_parse_ref(s@),
    {
        EntryRef::parse(s)
    }
}

/// A `String` is not pinned down by its characters in specifications, so
/// `from` is not stated as equal to one spec value; its own `ensures` gives
/// the classification.
impl vstd::std_specs::convert::FromSpecImpl<&str> for EntryRef {
    open spec fn obeys_from_spec() -> bool {
        false
    }

    open spec fn from_spec(v: &str) -> EntryRef {
        choose|r: EntryRef| r@ == spec_parse_ref(v@)
    }
}

impl From<String> for EntryRef {
    /// Classifies the input as [`EntryRef::parse`] does.
    fn from(s: String) -> (r: EntryRef)
        ensures
            r@ == spec_parse_ref(s@),
    {
        EntryRef::parse(s.as_str())
    }
}

/// A `String` is not pinned down by its characters in specifications, so
/// `from` is not stated as equal to one spec value; its own `ensures` gives
/// the classification.
impl vstd::std_specs::convert::FromSpecImpl<String> for EntryRef {
    open spec fn obeys_from_spec() -> bool {
        false
    }

    open spec fn from_spec(v: String) -> EntryRef {
        choose|r: EntryRef| r@ == spec_parse_ref(v@)
    }
}

/// Every input is classified, and an identifier reference gives back the
/// input once its `@` is put in front again.
pub proof fn lemma_parse_ref_id_roundtrip(s: Seq<char>)
    ensures
        spec_parse_ref(s) matches EntryRefModel::Id(id) ==> seq!['@'] + id == s,
        spec_parse_ref(s) matches EntryRefModel::Path(p) ==> p == s,
        spec_parse_ref(s) matches EntryRefModel::Title(t) ==> t == s,
{
    if s.len() > 0 && s[0] == '@' {
        assert(seq!['@'] + s.drop_first() =~= s);
    }
}

} // verus!
