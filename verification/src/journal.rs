//! Journals: directory trees marked by a `.archelon` directory, their entry
//! files and the naming convention of those files.
use vstd::prelude::*;

use crate::calendar::{chrono_year, date_year};
use crate::clock::{clock_reading, local_now};
use crate::time::Timestamp;
use crate::error::Error;
use crate::id::{
    ID_LIMIT, caretta_id_parse, id_now, id_parse, id_text, id_to_string, is_id_char, lemma_id_text_order,
    lemma_id_text_parse, lemma_id_text_shape,
};
use crate::path::{
    extension, file_name, file_stem, final_component, has_md_extension, join, last_index,
    lemma_last_index_unique, spec_extension, spec_file_name, spec_file_stem, spec_join,
};
use crate::slug::{is_slug_char, lemma_slug_shape, slugify, spec_slugify};
use crate::text::{
    char_utf8_len, chars_start_with, copy_string, decimal, decimal_digits, decimal_string, digit_char,
    is_prefix, lemma_text_before_extend, lemma_text_before_prefix, push_all, push_str, str_chars,
    string_from_chars, text_before,
};

verus! {

/// A located journal: a directory tree that contains a `.archelon` directory.
#[derive(Debug)]
pub struct Journal {
    /// The directory that directly contains `.archelon/`.
    pub root: String,
}

/// First day of the week for `--this-week` calculations.
#[derive(Debug, Clone, Copy, PartialEq, Eq, Structural)]
pub enum WeekStart {
    Monday,
    Sunday,
}

impl Default for WeekStart {
    fn default() -> (r: WeekStart)
        ensures
            r == WeekStart::Monday,
    {
        WeekStart::Monday
    }
}

/// The `[journal]` section of the journal configuration.
#[derive(Debug)]
pub struct JournalSection {
    /// IANA timezone name, used when frontmatter timestamps have no time zone.
    pub timezone: String,
    /// First day of the week, used by `--this-week`.
    pub week_start: WeekStart,
}

impl Default for JournalSection {
    fn default() -> (r: JournalSection)
        ensures
            r.timezone@ == "UTC"@,
            r.week_start == WeekStart::Monday,
    {
        JournalSection { timezone: "UTC".to_owned(), week_start: WeekStart::Monday }
    }
}

/// Contents of `.archelon/config.toml`.
#[derive(Debug)]
pub struct JournalConfig {
    pub journal: JournalSection,
}

impl Default for JournalConfig {
    fn default() -> (r: JournalConfig)
        ensures
            r.journal.timezone@ == "UTC"@,
            r.journal.week_start == WeekStart::Monday,
    {
        JournalConfig { journal: JournalSection::default() }
    }
}

/// The name of the directory that marks a journal root.
pub open spec fn archelon_dir_name() -> Seq<char> {
    ".archelon"@
}

/// Index of the first candidate directory that contains `.archelon/`.
pub open spec fn first_marked(marked: Seq<bool>) -> Option<int> {
    if exists|i: int| 0 <= i < marked.len() && marked[i] {
        Some(choose|i: int| 0 <= i < marked.len() && marked[i] && forall|j: int| 0 <= j < i ==> !marked[j])
    } else {
        None
    }
}

/// A directory name made only of ASCII digits and not starting with `.`.
pub open spec fn is_year_name(name: Seq<char>) -> bool {
    (name.len() == 0 || name[0] != '.') && forall|i: int| 0 <= i < name.len() ==> '0' <= #[trigger] name[i] <= '9'
}

/// A Markdown file whose stem starts with `prefix`.
pub open spec fn matches_id_prefix(path: Seq<char>, prefix: Seq<char>) -> bool {
    spec_extension(path) == Some(seq!['m', 'd']) && match spec_file_stem(path) {
        Some(stem) => is_prefix(prefix, stem),
        None => false,
    }
}

/// Positions of the candidates that match the prefix, in order.
pub open spec fn prefix_matches(cands: Seq<Seq<char>>, prefix: Seq<char>, n: int) -> Seq<int>
    decreases n,
{
    if n <= 0 {
        Seq::empty()
    } else if matches_id_prefix(cands[n - 1], prefix) {
        prefix_matches(cands, prefix, n - 1).push(n - 1)
    } else {
        prefix_matches(cands, prefix, n - 1)
    }
}

pub open spec fn views(v: Seq<String>) -> Seq<Seq<char>> {
    v.map_values(|s: String| s@)
}

/// The order in which `std::path::Path` compares paths (component by
/// component).
pub uninterp spec fn path_order_le(a: Seq<char>, b: Seq<char>) -> bool;

/// Sorts paths with `std`'s ordering of `PathBuf`. Claimed: the result holds
/// the same paths, each as often, in non-decreasing path order.
#[verifier::external_body]
fn sort_paths(v: Vec<String>) -> (r: Vec<String>)
    ensures
        views(r@).to_multiset() == views(v@).to_multiset(),
        forall|i: int, j: int| 0 <= i < j < r@.len() ==> path_order_le(#[trigger] r@[i]@, #[trigger] r@[j]@),
{
    let mut paths: Vec<std::path::PathBuf> = v.into_iter().map(std::path::PathBuf::from).collect();
    paths.sort();
    paths.into_iter().map(|p| p.to_string_lossy().into_owned()).collect()
}

impl Journal {
    /// A journal rooted at `root`, given whether `root` contains a
    /// `.archelon` directory.
    pub fn from_root(root: String, has_archelon_dir: bool) -> (r: Result<Journal, Error>)
        ensures
            has_archelon_dir ==> (r matches Ok(j) && j.root@ == root@),
            !has_archelon_dir ==> (r matches Err(e) && e is JournalNotFound),
    {
        if has_archelon_dir {
            Ok(Journal { root })
        } else {
            Err(Error::JournalNotFound)
        }
    }

    /// The journal found while walking up from a start directory:
    /// `candidates` are the start directory and its ancestors, nearest
    /// first, and `has_archelon_dir[i]` tells whether `candidates[i]`
    /// contains `.archelon/`. The nearest marked candidate is the root.
    pub fn find_from(candidates: &Vec<String>, has_archelon_dir: &Vec<bool>) -> (r: Result<Journal, Error>)
        requires
            candidates@.len() == has_archelon_dir@.len(),
        ensures
            match first_marked(has_archelon_dir@) {
                Some(i) => r matches Ok(j) && j.root@ == candidates@[i]@,
                None => r matches Err(e) && e is JournalNotFound,
            },
    {
        let mut i: usize = 0;
        while i < candidates.len()
            invariant
                candidates@.len() == has_archelon_dir@.len(),
                i <= candidates@.len(),
                forall|j: int| 0 <= j < i ==> !has_archelon_dir@[j],
            decreases candidates@.len() - i,
        {
            if has_archelon_dir[i] {
                proof {
                    let c = choose|k: int|
                        0 <= k < has_archelon_dir@.len() && has_archelon_dir@[k] && forall|j: int|
                            0 <= j < k ==> !has_archelon_dir@[j];
                    assert(0 <= i < has_archelon_dir@.len() && has_archelon_dir@[i as int] && forall|j: int|
                        0 <= j < i ==> !has_archelon_dir@[j]);
                    if c < i {
                        assert(!has_archelon_dir@[c]);
                    }
                    if i < c {
                        assert(!has_archelon_dir@[i as int]);
                    }
                }
                return Ok(Journal { root: copy_string(&candidates[i]) });
            }
            i += 1;
        }
        Err(Error::JournalNotFound)
    }

    /// Path to the `.archelon` directory itself.
    pub fn archelon_dir(&self) -> (r: String)
        ensures
            r@ == spec_join(self.root@, archelon_dir_name()),
    {
        join(self.root.as_str(), ".archelon")
    }

    /// Path to the journal configuration file.
    pub fn config_path(&self) -> (r: String)
        ensures
            r@ == spec_join(spec_join(self.root@, archelon_dir_name()), "config.toml"@),
    {
        let dir = self.archelon_dir();
        join(dir.as_str(), "config.toml")
    }

    /// The year subdirectories among the root's children: `children[i]` is
    /// a child path and `is_dir[i]` tells whether it is a directory.
    pub fn year_subdirs(&self, children: &Vec<String>, is_dir: &Vec<bool>) -> (r: Vec<String>)
        requires
            children@.len() == is_dir@.len(),
        ensures
            views(r@) == year_dirs_spec(views(children@), is_dir@, children@.len() as int),
    {
        let mut out: Vec<String> = Vec::new();
        let mut i: usize = 0;
        while i < children.len()
            invariant
                children@.len() == is_dir@.len(),
                i <= children@.len(),
                views(out@) == year_dirs_spec(views(children@), is_dir@, i as int),
            decreases children@.len() - i,
        {
            let ghost before = views(out@);
            if is_dir[i] {
                match file_name(children[i].as_str()) {
                    Some(name) => {
                        if is_year_dir_name(name.as_str()) {
                            out.push(copy_string(&children[i]));
                            assert(views(out@) =~= before.push(children@[i as int]@));
                        }
                    },
                    None => {},
                }
            }
            i += 1;
        }
        out
    }

    /// The journal's entry files among `files` (the entries of the root
    /// and of its year subdirectories): the `.md` files, sorted by path.
    pub fn collect_entries(&self, files: &Vec<String>) -> (r: Vec<String>)
        ensures
            views(r@).to_multiset() == md_paths(views(files@), files@.len() as int).to_multiset(),
            forall|i: int, j: int| 0 <= i < j < r@.len() ==> path_order_le(#[trigger] r@[i]@, #[trigger] r@[j]@),
    {
        sorted_md_paths(files)
    }

    /// Finds the single `.md` entry file among `candidates` whose stem
    /// starts with `id_prefix`.
    pub fn find_entry_by_id(&self, id_prefix: &str, candidates: &Vec<String>) -> (r: Result<String, Error>)
        ensures
            ({
                let m = prefix_matches(views(candidates@), id_prefix@, candidates@.len() as int);
                &&& m.len() == 0 ==> (r matches Err(Error::EntryNotFound(p)) && p@ == id_prefix@)
                &&& m.len() == 1 ==> (r matches Ok(path) && path@ == candidates@[m[0]]@)
                &&& m.len() > 1 ==> (r matches Err(Error::AmbiguousId(p, n)) && p@ == id_prefix@ && n == m.len())
            }),
    {
        let ghost cv = views(candidates@);
        let prefix = str_chars(id_prefix);
        let mut matches: Vec<usize> = Vec::new();
        let mut i: usize = 0;
        while i < candidates.len()
            invariant
                i <= candidates@.len(),
                cv == views(candidates@),
                prefix@ == id_prefix@,
                matches@.map_values(|k: usize| k as int) == prefix_matches(cv, id_prefix@, i as int),
                forall|k: int| 0 <= k < matches@.len() ==> matches@[k] < candidates@.len(),
            decreases candidates@.len() - i,
        {
            let ghost before = matches@;
            let c = candidates[i].as_str();
            let is_md = has_md_extension(c);
            let hit = if is_md {
                match file_stem(c) {
                    Some(stem) => chars_start_with(&str_chars(stem.as_str()), &prefix),
                    None => false,
                }
            } else {
                false
            };
            assert(cv[i as int] == candidates@[i as int]@);
            if hit {
                matches.push(i);
                assert(matches@.map_values(|k: usize| k as int) =~= before.map_values(|k: usize| k as int).push(i as int));
            }
            i += 1;
        }
        let n = matches.len();
        if n == 0 {
            Err(Error::EntryNotFound(id_prefix.to_owned()))
        } else if n == 1 {
            let k = matches[0];
            assert(matches@.map_values(|k: usize| k as int)[0] == k as int);
            Ok(copy_string(&candidates[k]))
        } else {
            Err(Error::AmbiguousId(id_prefix.to_owned(), n))
        }
    }
}

/// The year directories among the first `n` children.
pub open spec fn year_dirs_spec(children: Seq<Seq<char>>, is_dir: Seq<bool>, n: int) -> Seq<Seq<char>>
    decreases n,
{
    if n <= 0 {
        Seq::empty()
    } else {
        let prev = year_dirs_spec(children, is_dir, n - 1);
        if is_dir[n - 1] && (spec_file_name(children[n - 1]) matches Some(name) && is_year_name(name)) {
            prev.push(children[n - 1])
        } else {
            prev
        }
    }
}

/// The `.md` paths among the first `n` paths, in order.
pub open spec fn md_paths(paths: Seq<Seq<char>>, n: int) -> Seq<Seq<char>>
    decreases n,
{
    if n <= 0 {
        Seq::empty()
    } else if spec_extension(paths[n - 1]) == Some(seq!['m', 'd']) {
        md_paths(paths, n - 1).push(paths[n - 1])
    } else {
        md_paths(paths, n - 1)
    }
}

/// The paths among `paths` whose extension is `md`, in order.
pub fn md_files(paths: &Vec<String>) -> (r: Vec<String>)
    ensures
        views(r@) == md_paths(views(paths@), paths@.len() as int),
{
    let ghost pv = views(paths@);
    let mut out: Vec<String> = Vec::new();
    let mut i: usize = 0;
    while i < paths.len()
        invariant
            i <= paths@.len(),
            pv == views(paths@),
            views(out@) == md_paths(pv, i as int),
        decreases paths@.len() - i,
    {
        let ghost before = views(out@);
        assert(pv[i as int] == paths@[i as int]@);
        if has_md_extension(paths[i].as_str()) {
            out.push(copy_string(&paths[i]));
            assert(views(out@) =~= before.push(paths@[i as int]@));
        }
        i += 1;
    }
    out
}

/// Whether a directory name is a year directory name: only ASCII digits,
/// not starting with `.`.
pub fn is_year_dir_name(name: &str) -> (r: bool)
    ensures
        r == is_year_name(name@),
{
    let v = str_chars(name);
    if v.len() > 0 && v[0] == '.' {
        return false;
    }
    let mut i: usize = 0;
    while i < v.len()
        invariant
            i <= v@.len(),
            v@ == name@,
            forall|j: int| 0 <= j < i ==> '0' <= #[trigger] v@[j] <= '9',
        decreases v@.len() - i,
    {
        if !('0' <= v[i] && v[i] <= '9') {
            return false;
        }
        i += 1;
    }
    true
}

/// Number of characters that make up exactly the first `n` UTF-8 bytes of
/// `s`, or `None` when no character boundary falls there.
pub open spec fn byte_prefix_chars(s: Seq<char>, n: int) -> Option<int>
    decreases s.len(),
{
    if n == 0 {
        Some(0)
    } else if s.len() == 0 || n < 0 {
        None
    } else {
        match byte_prefix_chars(s.drop_first(), n - char_utf8_len(s[0])) {
            Some(k) => Some(k + 1),
            None => None,
        }
    }
}

/// The managed-filename test is defined: when the stem's first seven bytes
/// end on a character boundary, they are seven ASCII characters (on fewer,
/// longer characters the identifier parser panics).
pub open spec fn managed_decidable(path: Seq<char>) -> bool {
    match spec_file_stem(path) {
        Some(stem) => match byte_prefix_chars(stem, 7) {
            Some(k) => k == 7,
            None => true,
        },
        None => true,
    }
}

/// A managed file name: `{id}_{slug}.md` or `{id}.md`, where `{id}` is the
/// stem's first seven bytes read as an identifier.
pub open spec fn spec_is_managed(path: Seq<char>) -> bool {
    spec_extension(path) == Some(seq!['m', 'd']) && match spec_file_stem(path) {
        Some(stem) => match byte_prefix_chars(stem, 7) {
            Some(k) => caretta_id_parse(stem.subrange(0, k)) is Some && (k == stem.len() || stem[k] == '_'),
            None => false,
        },
        None => false,
    }
}

proof fn lemma_byte_prefix_step(s: Seq<char>, i: int, bytes: int, n: int)
    requires
        0 <= i <= s.len(),
        0 <= bytes <= n,
        byte_prefix_chars(s, n) == (match byte_prefix_chars(s.subrange(i, s.len() as int), n - bytes) {
            Some(k) => Some(k + i),
            None => None::<int>,
        }),
    ensures
        i < s.len() && bytes < n ==> byte_prefix_chars(s, n) == (match byte_prefix_chars(
            s.subrange(i + 1, s.len() as int),
            n - bytes - char_utf8_len(s[i]),
        ) {
            Some(k) => Some(k + i + 1),
            None => None::<int>,
        }),
{
    if i < s.len() && bytes < n {
        let t = s.subrange(i, s.len() as int);
        assert(t.drop_first() =~= s.subrange(i + 1, s.len() as int));
        assert(t[0] == s[i]);
    }
}

/// Number of characters forming the first seven bytes of `v`, if a
/// character boundary falls there.
fn seven_byte_prefix(v: &Vec<char>) -> (r: Option<usize>)
    ensures
        match r {
            Some(k) => byte_prefix_chars(v@, 7) == Some(k as int) && k <= v@.len(),
            None => byte_prefix_chars(v@, 7) is None,
        },
{
    let mut i: usize = 0;
    let mut bytes: u32 = 0;
    assert(v@.subrange(0, v@.len() as int) =~= v@);
    while bytes < 7
        invariant
            i <= v@.len(),
            bytes <= 7,
            byte_prefix_chars(v@, 7) == (match byte_prefix_chars(v@.subrange(i as int, v@.len() as int), 7 - bytes) {
                Some(k) => Some(k + i),
                None => None::<int>,
            }),
        decreases 7 - bytes,
    {
        if i >= v.len() {
            assert(v@.subrange(i as int, v@.len() as int).len() == 0);
            return None;
        }
        let u = v[i] as u32;
        let n: u32 = if u < 0x80 {
            1
        } else if u < 0x800 {
            2
        } else if u < 0x10000 {
            3
        } else {
            4
        };
        proof {
            lemma_byte_prefix_step(v@, i as int, bytes as int, 7);
        }
        if bytes + n > 7 {
            let ghost rest = v@.subrange(i + 1, v@.len() as int);
            assert(byte_prefix_chars(rest, 7 - bytes - n) is None);
            return None;
        }
        bytes = bytes + n;
        i = i + 1;
    }
    Some(i)
}

/// Whether the managed-filename test is defined for `path` (see
/// [`managed_decidable`]).
pub fn managed_filename_decidable(path: &str) -> (r: bool)
    ensures
        r == managed_decidable(path@),
{
    match file_stem(path) {
        Some(stem) => {
            let v = str_chars(stem.as_str());
            match seven_byte_prefix(&v) {
                Some(k) => k == 7,
                None => true,
            }
        },
        None => true,
    }
}

/// Returns `true` if `path` follows the managed filename convention:
/// `{7-char-id}_{slug}.md` or `{7-char-id}.md`.
pub fn is_managed_filename(path: &str) -> (r: bool)
    requires
        managed_decidable(path@),
    ensures
        r == spec_is_managed(path@),
{
    if !has_md_extension(path) {
        return false;
    }
    let stem = match file_stem(path) {
        Some(s) => s,
        None => return false,
    };
    let v = str_chars(stem.as_str());
    let k = match seven_byte_prefix(&v) {
        Some(k) => k,
        None => return false,
    };
    let mut idv: Vec<char> = Vec::new();
    let mut i: usize = 0;
    while i < k
        invariant
            k <= v@.len(),
            i <= k,
            idv@ == v@.subrange(0, i as int),
        decreases k - i,
    {
        idv.push(v[i]);
        i += 1;
        assert(idv@ =~= v@.subrange(0, i as int));
    }
    let id_str = string_from_chars(&idv);
    proof {
        assert(k == 7);
        assert forall|j: int| 0 <= j < id_str@.len() implies (id_str@[j] as u32) < 0x80 by {
            lemma_prefix_ascii(v@, 7, j);
        };
    }
    if id_parse(id_str.as_str()).is_none() {
        return false;
    }
    k == v.len() || v[k] == '_'
}

proof fn lemma_prefix_ascii(s: Seq<char>, n: int, j: int)
    requires
        byte_prefix_chars(s, n) == Some(n),
        0 <= j < n,
    ensures
        j < s.len(),
        (s[j] as u32) < 0x80,
    decreases s.len(),
{
    if s.len() > 0 && n > 0 {
        let c = char_utf8_len(s[0]);
        let r = byte_prefix_chars(s.drop_first(), n - c);
        assert(r == Some(n - 1));
        lemma_prefix_chars_bound(s.drop_first(), n - c);
        if c > 1 {
            assert(false);
        }
        if j > 0 {
            lemma_prefix_ascii(s.drop_first(), n - 1, j - 1);
            assert(s.drop_first()[j - 1] == s[j]);
        }
    }
}

proof fn lemma_prefix_chars_bound(s: Seq<char>, n: int)
    ensures
        byte_prefix_chars(s, n) matches Some(k) ==> k <= n,
    decreases s.len(),
{
    if n != 0 && s.len() > 0 && n >= 0 {
        lemma_prefix_chars_bound(s.drop_first(), n - char_utf8_len(s[0]));
    }
}

/// The canonical entry filename: `{id}_{slug}.md`, or `{id}.md` when the
/// slug is empty.
pub open spec fn spec_entry_filename(id: u64, title: Seq<char>) -> Seq<char> {
    let slug = spec_slugify(title);
    if slug.len() == 0 {
        id_text(id) + ".md"@
    } else {
        id_text(id) + seq!['_'] + slug + ".md"@
    }
}

proof fn lemma_ascii_prefix(s: Seq<char>, n: int)
    requires
        0 <= n <= s.len(),
        forall|i: int| 0 <= i < n ==> (s[i] as u32) < 0x80,
    ensures
        byte_prefix_chars(s, n) == Some(n),
    decreases n,
{
    if n > 0 {
        assert forall|i: int| 0 <= i < n - 1 implies (s.drop_first()[i] as u32) < 0x80 by {
            assert(s.drop_first()[i] == s[i + 1]);
        };
        lemma_ascii_prefix(s.drop_first(), n - 1);
    }
}

/// The stem of `dir + stem + ".md"` is `stem`, when `dir` is empty or ends
/// with `/` and `stem` is a non-empty text without `/` or `.`.
proof fn lemma_stem_of(p: Seq<char>, dir: Seq<char>, stem: Seq<char>)
    requires
        p == dir + stem + ".md"@,
        dir.len() == 0 || dir.last() == '/',
        stem.len() > 0,
        forall|i: int| 0 <= i < stem.len() ==> stem[i] != '/' && stem[i] != '.',
    ensures
        spec_file_stem(p) == Some(stem),
        spec_extension(p) == Some(seq!['m', 'd']),
{
    reveal_strlit(".md");
    let name = stem + ".md"@;
    let k = dir.len() - 1;
    assert forall|j: int| k < j < p.len() implies p[j] != '/' by {
        if j < dir.len() + stem.len() {
            assert(p[j] == stem[j - dir.len()]);
        } else {
            assert(p[j] == ".md"@[j - dir.len() - stem.len()]);
        }
    };
    if dir.len() > 0 {
        assert(p[k] == dir.last());
    }
    lemma_last_index_unique(p, '/', k);
    assert(p.last() == 'd');
    assert(p.subrange(k + 1, p.len() as int) =~= name);
    assert(name != seq!['.']) by {
        assert(name.len() != 1);
    };
    assert(final_component(p) == Some(name));
    assert(name != seq!['.', '.']) by {
        assert(name.len() >= 4 || name[0] != '.');
    };
    assert forall|j: int| stem.len() < j < name.len() implies name[j] != '.' by {};
    assert(name[stem.len() as int] == '.');
    lemma_last_index_unique(name, '.', stem.len() as int);
    assert(name.subrange(0, stem.len() as int) =~= stem);
    assert(name.subrange(stem.len() + 1int, name.len() as int) =~= seq!['m', 'd']);
}

/// A stem made of an identifier's text, optionally followed by `_` and
/// more, passes the managed-filename test.
proof fn lemma_managed_stem(p: Seq<char>, stem: Seq<char>, t: Seq<char>, id: u64)
    requires
        spec_file_stem(p) == Some(stem),
        spec_extension(p) == Some(seq!['m', 'd']),
        t.len() == 7,
        stem.len() >= 7,
        stem.subrange(0, 7) == t,
        forall|i: int| 0 <= i < 7 ==> is_id_char(#[trigger] t[i]),
        caretta_id_parse(t) == Some(id),
        stem.len() == 7 || stem[7] == '_',
    ensures
        spec_is_managed(p),
        managed_decidable(p),
{
    assert forall|i: int| 0 <= i < 7 implies (stem[i] as u32) < 0x80 by {
        assert(stem[i] == t[i]);
        assert(is_id_char(t[i]));
    };
    lemma_ascii_prefix(stem, 7);
}

/// The stem of a canonical filename: the identifier's text, then `_` and the
/// slug when the slug is not empty.
pub open spec fn spec_filename_stem(id: u64, title: Seq<char>) -> Seq<char> {
    let slug = spec_slugify(title);
    if slug.len() == 0 {
        id_text(id)
    } else {
        id_text(id) + seq!['_'] + slug
    }
}

/// The stem of a canonical filename placed under `dir` is the identifier's
/// text, followed by `_` and the slug when there is one, and its extension
/// is `md`.
proof fn lemma_filename_parts(dir: Seq<char>, id: u64, title: Seq<char>)
    requires
        dir.len() == 0 || dir.last() == '/',
        id_text(id).len() == 7,
        forall|i: int| 0 <= i < 7 ==> is_id_char(#[trigger] id_text(id)[i]),
    ensures
        spec_file_stem(dir + spec_entry_filename(id, title)) == Some(spec_filename_stem(id, title)),
        spec_extension(dir + spec_entry_filename(id, title)) == Some(seq!['m', 'd']),
        spec_filename_stem(id, title).subrange(0, 7) == id_text(id),
        matches_id_prefix(dir + spec_entry_filename(id, title), id_text(id)),
{
    reveal_strlit(".md");
    let t = id_text(id);
    let slug = spec_slugify(title);
    let stem = spec_filename_stem(id, title);
    lemma_slug_shape(title);
    assert(spec_entry_filename(id, title) =~= stem + ".md"@);
    assert forall|i: int| 0 <= i < stem.len() implies stem[i] != '/' && stem[i] != '.' by {
        if i < 7 {
            assert(stem[i] == t[i]);
            assert(is_id_char(t[i]));
        } else if i > 7 {
            assert(stem[i] == slug[i - 8]);
            assert(is_slug_char(slug[i - 8]));
        }
    };
    assert(dir + spec_entry_filename(id, title) =~= dir + stem + ".md"@);
    lemma_stem_of(dir + spec_entry_filename(id, title), dir, stem);
    assert(stem.subrange(0, 7) =~= t);
}

proof fn lemma_filename_managed(dir: Seq<char>, id: u64, title: Seq<char>)
    requires
        dir.len() == 0 || dir.last() == '/',
        id_text(id).len() == 7,
        forall|i: int| 0 <= i < 7 ==> is_id_char(#[trigger] id_text(id)[i]),
        caretta_id_parse(id_text(id)) == Some(id),
    ensures
        spec_is_managed(dir + spec_entry_filename(id, title)),
        managed_decidable(dir + spec_entry_filename(id, title)),
{
    lemma_filename_parts(dir, id, title);
    let t = id_text(id);
    let stem = spec_filename_stem(id, title);
    lemma_managed_stem(dir + spec_entry_filename(id, title), stem, t, id);
}

/// Builds the canonical entry filename: `{id}_{slug}.md`.
///
/// If the slug is empty the filename is just `{id}.md`. A filename built
/// from an identifier passes the managed-filename test, and its stem starts
/// with the identifier's text.
pub fn entry_filename(id: u64, title: &str) -> (r: String)
    ensures
        r@ == spec_entry_filename(id, title@),
        matches_id_prefix(r@, id_text(id)),
        id < ID_LIMIT ==> spec_is_managed(r@) && managed_decidable(r@),
{
    let slug = slugify(title);
    let text = id_to_string(id);
    let mut out: Vec<char> = Vec::new();
    push_str(&mut out, text.as_str());
    if !slug.as_str().is_empty() {
        out.push('_');
        push_str(&mut out, slug.as_str());
    }
    push_str(&mut out, ".md");
    proof {
        let f = spec_entry_filename(id, title@);
        lemma_id_text_shape(id);
        assert(Seq::<char>::empty() + f =~= f);
        lemma_filename_parts(Seq::empty(), id, title@);
        assert(matches_id_prefix(f, id_text(id)));
        if id < ID_LIMIT {
            lemma_id_text_parse(id);
            lemma_filename_managed(Seq::empty(), id, title@);
            assert(spec_is_managed(f));
        }
    }
    let r = string_from_chars(&out);
    assert(r@ == spec_entry_filename(id, title@));
    r
}

/// The relative path of a new entry: `{year}/{id}_{slug}.md`.
pub open spec fn spec_new_entry_path(id: u64, year: int, title: Seq<char>) -> Seq<char> {
    spec_join(decimal(year), spec_entry_filename(id, title))
}

proof fn lemma_decimal_digits_shape(n: nat)
    ensures
        decimal_digits(n).len() > 0,
        decimal_digits(n).last() != '/',
    decreases n,
{
    if n >= 10 {
        lemma_decimal_digits_shape(n / 10);
    }
}

/// The relative path of a new entry with the given identifier and year; it
/// passes the managed-filename test, and a search by the identifier's text
/// matches it.
pub fn new_entry_path_at(id: u64, year: i32, title: &str) -> (r: String)
    ensures
        r@ == spec_new_entry_path(id, year as int, title@),
        matches_id_prefix(r@, id_text(id)),
        id < ID_LIMIT ==> spec_is_managed(r@) && managed_decidable(r@),
{
    let y = string_from_chars(&decimal_string(year as i64));
    let name = entry_filename(id, title);
    proof {
        let d = decimal(year as int);
        let f = spec_entry_filename(id, title@);
        lemma_new_entry_path_split(id, year as int, title@);
        lemma_id_text_shape(id);
        // The path and the bare filename have the same stem and extension.
        lemma_filename_parts(d + seq!['/'], id, title@);
        lemma_filename_parts(Seq::empty(), id, title@);
        assert(Seq::<char>::empty() + f =~= f);
    }
    join(y.as_str(), name.as_str())
}

/// A new entry's path is its year directory, a `/`, and its file name.
proof fn lemma_new_entry_path_split(id: u64, year: int, title: Seq<char>)
    ensures
        spec_new_entry_path(id, year, title) == decimal(year) + seq!['/'] + spec_entry_filename(id, title),
{
    reveal_strlit(".md");
    let d = decimal(year);
    if year < 0 {
        lemma_decimal_digits_shape((-year) as nat);
        assert(d.last() == decimal_digits((-year) as nat).last());
    } else {
        lemma_decimal_digits_shape(year as nat);
    }
    lemma_id_text_shape(id);
    let f = spec_entry_filename(id, title);
    assert(f[0] == id_text(id)[0]);
}

/// Entry files sort in the order of their identifiers, and so in creation
/// order: for identifiers `a < b`, whatever the titles, the file name made
/// from `a` comes first in character order, and so does its path within
/// the same year directory.
pub proof fn lemma_filenames_sort_by_id(a: u64, b: u64, year: int, title_a: Seq<char>, title_b: Seq<char>)
    requires
        a < b < ID_LIMIT,
    ensures
        text_before(spec_entry_filename(a, title_a), spec_entry_filename(b, title_b)),
        text_before(spec_new_entry_path(a, year, title_a), spec_new_entry_path(b, year, title_b)),
{
    lemma_id_text_order(a, b);
    let fa = spec_entry_filename(a, title_a);
    let fb = spec_entry_filename(b, title_b);
    let ra = fa.subrange(7, fa.len() as int);
    let rb = fb.subrange(7, fb.len() as int);
    lemma_id_text_shape(a);
    lemma_id_text_shape(b);
    reveal_strlit(".md");
    assert(fa =~= id_text(a) + ra);
    assert(fb =~= id_text(b) + rb);
    lemma_text_before_extend(id_text(a), id_text(b), ra, rb);
    let p = decimal(year) + seq!['/'];
    lemma_new_entry_path_split(a, year, title_a);
    lemma_new_entry_path_split(b, year, title_b);
    lemma_text_before_prefix(p, fa, fb);
}

/// Generates a relative path for a new entry: `{year}/{id}_{slug}.md`, with
/// an identifier from the current time and the year of the current local
/// date. The path passes the managed-filename test, and a search by the
/// identifier's text matches it.
pub fn new_entry_path(title: &str) -> (r: String)
    ensures
        exists|id: u64, now: Timestamp|
            #![trigger spec_new_entry_path(id, chrono_year(now.date.days) as int, title@)]
            clock_reading(now) && id < ID_LIMIT && r@ == spec_new_entry_path(
                id,
                chrono_year(now.date.days) as int,
                title@,
            ) && matches_id_prefix(r@, id_text(id)),
        spec_is_managed(r@),
{
    let id = id_now();
    let now = local_now();
    let year = date_year(now.date);
    let r = new_entry_path_at(id, year, title);
    assert(r@ == spec_new_entry_path(id, chrono_year(now.date.days) as int, title@));
    r
}

/// The `.md` files among `files`, sorted by path.
pub fn sorted_md_paths(files: &Vec<String>) -> (r: Vec<String>)
    ensures
        views(r@).to_multiset() == md_paths(views(files@), files@.len() as int).to_multiset(),
        forall|i: int, j: int| 0 <= i < j < r@.len() ==> path_order_le(#[trigger] r@[i]@, #[trigger] r@[j]@),
{
    let md = md_files(files);
    sort_paths(md)
}

} // verus!
