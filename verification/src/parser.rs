//! Framing of Markdown sources: the optional frontmatter block between
//! `---` fences, and the body after it.
use vstd::prelude::*;

use crate::calendar::{chrono_format_full, format_full};
use crate::entry::{
    Entry, EventMeta, EventModel, Frontmatter, FrontmatterModel, TaskMeta, TaskModel, opt_ts_wf, strings_view,
};
use crate::error::Error;
use crate::id::{id_text, id_to_string};
use crate::text::{join_strings, lemma_join_no_newline, push_all, push_str, seq_join, str_chars, string_from_chars};
use crate::time::Timestamp;
use crate::yaml_text::{lemma_quoted_roundtrip, push_quoted, yaml_quoted};

verus! {

/// The parts of a source: the frontmatter text between the fences, if the
/// source has a frontmatter block, and the body.
pub struct FrontmatterSplit {
    pub yaml: Option<String>,
    pub body: String,
}

/// The closing fence searched for: a newline followed by `---`.
pub open spec fn closing_fence() -> Seq<char> {
    seq!['\n', '-', '-', '-']
}

/// `pat` occurs in `s` at index `i`.
pub open spec fn occurs_at(s: Seq<char>, pat: Seq<char>, i: int) -> bool {
    0 <= i && i + pat.len() <= s.len() && s.subrange(i, i + pat.len()) == pat
}

/// Index of the first occurrence of `pat` in `s`, if any.
#[verifier::opaque]
pub open spec fn find_first(s: Seq<char>, pat: Seq<char>) -> Option<int> {
    if exists|i: int| occurs_at(s, pat, i) {
        Some(choose|i: int| occurs_at(s, pat, i) && forall|j: int| 0 <= j < i ==> !occurs_at(s, pat, j))
    } else {
        None
    }
}

/// `s` without one leading newline, if it has one.
pub open spec fn strip_newline(s: Seq<char>) -> Seq<char> {
    if s.len() > 0 && s[0] == '\n' {
        s.drop_first()
    } else {
        s
    }
}

/// How a source splits. Without an opening `---` line the whole source is
/// the body; with one, the frontmatter runs up to the first `\n---` and the
/// body starts after it (less one newline). An opening fence that is never
/// closed yields `None`.
pub open spec fn spec_split(source: Seq<char>) -> Option<(Option<Seq<char>>, Seq<char>)> {
    if !(source.len() >= 4 && source.subrange(0, 4) == seq!['-', '-', '-', '\n']) {
        Some((None, source))
    } else {
        let rest = source.subrange(4, source.len() as int);
        match find_first(rest, closing_fence()) {
            Some(e) => Some(
                (Some(rest.subrange(0, e)), strip_newline(rest.subrange(e + 4, rest.len() as int))),
            ),
            None => None,
        }
    }
}

proof fn lemma_find_first(s: Seq<char>, pat: Seq<char>, k: int)
    requires
        occurs_at(s, pat, k),
        forall|j: int| 0 <= j < k ==> !occurs_at(s, pat, j),
    ensures
        find_first(s, pat) == Some(k),
{
    reveal(find_first);
    let c = choose|i: int| occurs_at(s, pat, i) && forall|j: int| 0 <= j < i ==> !occurs_at(s, pat, j);
    assert(occurs_at(s, pat, c) && forall|j: int| 0 <= j < c ==> !occurs_at(s, pat, j));
    if c < k {
        assert(!occurs_at(s, pat, c));
    }
    if k < c {
        assert(!occurs_at(s, pat, k));
    }
}

/// Index of the first `\n---` in `v` at or after `from`.
fn find_fence(v: &Vec<char>) -> (r: Option<usize>)
    ensures
        match r {
            Some(i) => find_first(v@, closing_fence()) == Some(i as int) && i + 4 <= v@.len(),
            None => find_first(v@, closing_fence()) is None,
        },
{
    reveal(find_first);
    if v.len() < 4 {
        assert(!exists|j: int| occurs_at(v@, closing_fence(), j));
        return None;
    }
    let mut i: usize = 0;
    while i <= v.len() - 4
        invariant
            v@.len() >= 4,
            i <= v@.len() - 3,
            forall|j: int| 0 <= j < i ==> !occurs_at(v@, closing_fence(), j),
        decreases v@.len() - i,
    {
        if v[i] == '\n' && v[i + 1] == '-' && v[i + 2] == '-' && v[i + 3] == '-' {
            assert(v@.subrange(i as int, i + 4) =~= closing_fence());
            proof {
                lemma_find_first(v@, closing_fence(), i as int);
            }
            return Some(i);
        }
        assert(!occurs_at(v@, closing_fence(), i as int)) by {
            if occurs_at(v@, closing_fence(), i as int) {
                let w = v@.subrange(i as int, i + 4);
                assert(w[0] == v@[i as int] && w[1] == v@[i + 1] && w[2] == v@[i + 2] && w[3] == v@[i + 3]);
            }
        };
        i += 1;
    }
    assert(!exists|j: int| occurs_at(v@, closing_fence(), j)) by {
        assert forall|j: int| !occurs_at(v@, closing_fence(), j) by {
            if occurs_at(v@, closing_fence(), j) {
                assert(j < i);
            }
        }
    };
    None
}

fn sub_chars(v: &Vec<char>, from: usize, to: usize) -> (r: Vec<char>)
    requires
        from <= to <= v@.len(),
    ensures
        r@ == v@.subrange(from as int, to as int),
{
    let mut out: Vec<char> = Vec::new();
    let mut i: usize = from;
    while i < to
        invariant
            from <= i <= to <= v@.len(),
            out@ == v@.subrange(from as int, i as int),
        decreases to - i,
    {
        out.push(v[i]);
        i += 1;
        assert(out@ =~= v@.subrange(from as int, i as int));
    }
    out
}

/// Splits a source into its frontmatter text and body.
///
/// Frontmatter is optional: when the source starts with a `---` line,
/// everything up to the closing `---` is the frontmatter text and the rest
/// is the body. A block that is never closed is an error.
pub fn split_frontmatter(source: &str) -> (r: Result<FrontmatterSplit, Error>)
    ensures
        match spec_split(source@) {
            Some((yaml, body)) => r matches Ok(s) && s.body@ == body && match (s.yaml, yaml) {
                (Some(a), Some(b)) => a@ == b,
                (None, None) => true,
                _ => false,
            },
            None => r matches Err(Error::InvalidEntry(m)) && m@ == "frontmatter block is not closed"@,
        },
{
    let v = str_chars(source);
    let opens = v.len() >= 4 && v[0] == '-' && v[1] == '-' && v[2] == '-' && v[3] == '\n';
    if !opens {
        assert(!(v@.len() >= 4 && v@.subrange(0, 4) == seq!['-', '-', '-', '\n'])) by {
            if v@.len() >= 4 && v@.subrange(0, 4) == seq!['-', '-', '-', '\n'] {
                let w = v@.subrange(0, 4);
                assert(w[0] == v@[0] && w[1] == v@[1] && w[2] == v@[2] && w[3] == v@[3]);
            }
        };
        return Ok(FrontmatterSplit { yaml: None, body: source.to_owned() });
    }
    assert(v@.subrange(0, 4) =~= seq!['-', '-', '-', '\n']);
    let rest = sub_chars(&v, 4, v.len());
    match split_closed(&rest) {
        Some((yaml, body)) => {
            Ok(FrontmatterSplit { yaml: Some(string_from_chars(&yaml)), body: string_from_chars(&body) })
        },
        None => {
            proof {
                reveal_strlit("frontmatter block is not closed");
            }
            Err(Error::InvalidEntry("frontmatter block is not closed".to_owned()))
        },
    }
}

/// Splits what follows the opening fence at the first closing fence.
fn split_closed(rest: &Vec<char>) -> (r: Option<(Vec<char>, Vec<char>)>)
    ensures
        match find_first(rest@, closing_fence()) {
            Some(e) => r matches Some((y, b)) && y@ == rest@.subrange(0, e) && b@ == strip_newline(
                rest@.subrange(e + 4, rest@.len() as int),
            ),
            None => r is None,
        },
{
    match find_fence(rest) {
        Some(e) => {
            let n = rest.len();
            let yaml = sub_chars(rest, 0, e);
            let start = if e + 4 < n && rest[e + 4] == '\n' {
                e + 5
            } else {
                e + 4
            };
            let body = sub_chars(rest, start, rest.len());
            assert(body@ =~= strip_newline(rest@.subrange(e + 4, rest@.len() as int)));
            Some((yaml, body))
        },
        None => None,
    }
}

/// A frontmatter line `key: value`.
pub open spec fn kv(key: Seq<char>, value: Seq<char>) -> Seq<char> {
    key + seq![':', ' '] + value
}

/// The line for an optional text field, as a quoted scalar.
pub open spec fn opt_line(key: Seq<char>, v: Option<Seq<char>>) -> Seq<Seq<char>> {
    match v {
        Some(x) => seq![kv(key, yaml_quoted(x))],
        None => Seq::empty(),
    }
}

/// The text written for an optional date-time.
pub open spec fn opt_ts_text(t: Option<Timestamp>) -> Option<Seq<char>> {
    match t {
        Some(x) => Some(chrono_format_full(x)),
        None => None,
    }
}

/// A YAML flow mapping of the given `key: value` pairs.
pub open spec fn flow_map(pairs: Seq<Seq<char>>) -> Seq<char> {
    seq!['{'] + seq_join(pairs, seq![',', ' ']) + seq!['}']
}

/// The pairs written for a task.
pub open spec fn task_pairs(t: TaskModel) -> Seq<Seq<char>> {
    opt_line("due"@, opt_ts_text(t.due)) + opt_line("status"@, t.status) + opt_line(
        "closed_at"@,
        opt_ts_text(t.closed_at),
    )
}

/// The pairs written for an event.
pub open spec fn event_pairs(e: EventModel) -> Seq<Seq<char>> {
    opt_line("start"@, opt_ts_text(e.start)) + opt_line("end"@, opt_ts_text(e.end))
}

pub open spec fn quoted_all(v: Seq<Seq<char>>) -> Seq<Seq<char>> {
    v.map_values(|t: Seq<char>| yaml_quoted(t))
}

/// The frontmatter lines of an entry, without line ends: each present field
/// in the order id, title, slug, created_at, updated_at, tags, task, event;
/// texts and date-times as quoted scalars, tags as a flow list, task and
/// event as flow mappings.
pub open spec fn frontmatter_lines(fm: FrontmatterModel) -> Seq<Seq<char>> {
    opt_line("id"@, id_opt_text(fm.id)) + opt_line("title"@, fm.title) + opt_line("slug"@, fm.slug) + opt_line(
        "created_at"@,
        opt_ts_text(fm.created_at),
    ) + opt_line("updated_at"@, opt_ts_text(fm.updated_at)) + (if fm.tags.len() > 0 {
        seq![kv("tags"@, seq!['['] + seq_join(quoted_all(fm.tags), seq![',', ' ']) + seq![']'])]
    } else {
        Seq::empty()
    }) + (match fm.task {
        Some(t) => seq![kv("task"@, flow_map(task_pairs(t)))],
        None => Seq::empty(),
    }) + (match fm.event {
        Some(e) => seq![kv("event"@, flow_map(event_pairs(e)))],
        None => Seq::empty(),
    })
}

/// Lines joined, each followed by a newline.
pub open spec fn lines_text(ls: Seq<Seq<char>>) -> Seq<char>
    decreases ls.len(),
{
    if ls.len() == 0 {
        Seq::empty()
    } else {
        lines_text(ls.drop_last()) + ls.last() + seq!['\n']
    }
}

/// The frontmatter text of an entry: its lines joined by newlines.
pub open spec fn spec_yaml(fm: FrontmatterModel) -> Seq<char> {
    lines_text(frontmatter_lines(fm)).drop_last()
}

/// The Markdown source of an entry: when any frontmatter field is set, the
/// frontmatter lines between `---` fences; then the body.
pub open spec fn spec_render(fm: FrontmatterModel, body: Seq<char>) -> Seq<char> {
    if frontmatter_lines(fm).len() > 0 {
        "---\n"@ + lines_text(frontmatter_lines(fm)) + "---\n"@ + body
    } else {
        body
    }
}

pub open spec fn line_views(v: Seq<String>) -> Seq<Seq<char>> {
    v.map_values(|s: String| s@)
}

/// Appends the line for an optional text field.
fn push_opt_line(lines: &mut Vec<String>, key: &str, v: Option<&str>)
    ensures
        line_views(final(lines)@) == line_views(old(lines)@) + opt_line(
            key@,
            match v {
                Some(x) => Some(x@),
                None => None,
            },
        ),
{
    match v {
        Some(x) => {
            let mut l: Vec<char> = Vec::new();
            push_str(&mut l, key);
            l.push(':');
            l.push(' ');
            push_quoted(&mut l, x);
            assert(l@ =~= kv(key@, yaml_quoted(x@)));
            let ghost before = line_views(lines@);
            lines.push(string_from_chars(&l));
            assert(line_views(lines@) =~= before + seq![kv(key@, yaml_quoted(x@))]);
        },
        None => {
            assert(line_views(lines@) =~= line_views(lines@) + Seq::<Seq<char>>::empty());
        },
    }
}

/// Appends the line for an optional date-time field.
fn push_opt_ts_line(lines: &mut Vec<String>, key: &str, t: Option<Timestamp>)
    requires
        t matches Some(x) ==> x.wf(),
    ensures
        line_views(final(lines)@) == line_views(old(lines)@) + opt_line(key@, opt_ts_text(t)),
{
    match t {
        Some(x) => {
            let text = format_full(x);
            push_opt_line(lines, key, Some(text.as_str()));
        },
        None => push_opt_line(lines, key, None),
    }
}

/// Appends `key: {pairs}`.
fn push_map_line(lines: &mut Vec<String>, key: &str, pairs: &Vec<String>)
    ensures
        line_views(final(lines)@) == line_views(old(lines)@).push(kv(key@, flow_map(line_views(pairs@)))),
{
    let mut l: Vec<char> = Vec::new();
    push_str(&mut l, key);
    push_str(&mut l, ": {");
    let joined = join_strings(pairs, ", ");
    push_all(&mut l, &joined);
    l.push('}');
    proof {
        reveal_strlit(": {");
        reveal_strlit(", ");
        assert(", "@ =~= seq![',', ' ']);
    }
    assert(l@ =~= kv(key@, flow_map(line_views(pairs@))));
    let ghost before = line_views(lines@);
    lines.push(string_from_chars(&l));
    assert(line_views(lines@) =~= before.push(kv(key@, flow_map(line_views(pairs@)))));
}

/// The tags line: the quoted tags as a flow list.
fn tags_line(tags: &Vec<String>) -> (r: String)
    ensures
        r@ == kv("tags"@, seq!['['] + seq_join(quoted_all(strings_view(tags@)), seq![',', ' ']) + seq![']']),
{
    let ghost want = quoted_all(strings_view(tags@));
    let mut quoted: Vec<String> = Vec::new();
    let mut i: usize = 0;
    while i < tags.len()
        invariant
            i <= tags@.len(),
            want == quoted_all(strings_view(tags@)),
            line_views(quoted@) == want.subrange(0, i as int),
        decreases tags@.len() - i,
    {
        let mut q: Vec<char> = Vec::new();
        push_quoted(&mut q, tags[i].as_str());
        let ghost prev = line_views(quoted@);
        assert(strings_view(tags@)[i as int] == tags@[i as int]@);
        assert(want[i as int] == yaml_quoted(tags@[i as int]@));
        assert(q@ =~= yaml_quoted(tags@[i as int]@));
        quoted.push(string_from_chars(&q));
        assert(line_views(quoted@) =~= prev.push(q@));
        assert(line_views(quoted@) =~= want.subrange(0, i + 1));
        i += 1;
    }
    assert(want.subrange(0, tags@.len() as int) =~= want);
    let mut l: Vec<char> = Vec::new();
    push_str(&mut l, "tags: [");
    let joined = join_strings(&quoted, ", ");
    push_all(&mut l, &joined);
    l.push(']');
    proof {
        reveal_strlit("tags: [");
        reveal_strlit("tags");
        reveal_strlit(", ");
        assert(", "@ =~= seq![',', ' ']);
    }
    assert(l@ =~= kv("tags"@, seq!['['] + seq_join(want, seq![',', ' ']) + seq![']']));
    string_from_chars(&l)
}

/// The pairs written for a task.
fn task_pair_lines(t: &TaskMeta) -> (r: Vec<String>)
    requires
        opt_ts_wf(t.due),
        opt_ts_wf(t.closed_at),
    ensures
        line_views(r@) == task_pairs(t@),
{
    let mut pairs: Vec<String> = Vec::new();
    push_opt_ts_line(&mut pairs, "due", t.due);
    push_opt_line(&mut pairs, "status", match &t.status { Some(x) => Some(x.as_str()), None => None });
    push_opt_ts_line(&mut pairs, "closed_at", t.closed_at);
    assert(line_views(pairs@) =~= task_pairs(t@));
    pairs
}

/// The pairs written for an event.
fn event_pair_lines(e: &EventMeta) -> (r: Vec<String>)
    requires
        opt_ts_wf(e.start),
        opt_ts_wf(e.end),
    ensures
        line_views(r@) == event_pairs(e@),
{
    let mut pairs: Vec<String> = Vec::new();
    push_opt_ts_line(&mut pairs, "start", e.start);
    push_opt_ts_line(&mut pairs, "end", e.end);
    assert(line_views(pairs@) =~= event_pairs(e@));
    pairs
}

/// The identifier's text, when there is one.
pub open spec fn id_opt_text(id: Option<u64>) -> Option<Seq<char>> {
    match id {
        Some(v) => Some(id_text(v)),
        None => None,
    }
}

/// The lines for the fields before the tags.
fn head_lines(fm: &Frontmatter) -> (r: Vec<String>)
    requires
        fm@.wf(),
    ensures
        line_views(r@) == opt_line("id"@, id_opt_text(fm.id)) + opt_line("title"@, fm@.title) + opt_line(
            "slug"@,
            fm@.slug,
        ) + opt_line("created_at"@, opt_ts_text(fm.created_at)) + opt_line(
            "updated_at"@,
            opt_ts_text(fm.updated_at),
        ),
{
    let mut lines: Vec<String> = Vec::new();
    match fm.id {
        Some(v) => {
            let t = id_to_string(v);
            push_opt_line(&mut lines, "id", Some(t.as_str()));
        },
        None => push_opt_line(&mut lines, "id", None),
    }
    let ghost a = line_views(lines@);
    assert(a =~= Seq::<Seq<char>>::empty() + opt_line("id"@, id_opt_text(fm.id)));
    push_opt_line(&mut lines, "title", match &fm.title { Some(t) => Some(t.as_str()), None => None });
    let ghost b = line_views(lines@);
    assert(b == a + opt_line("title"@, fm@.title));
    push_opt_line(&mut lines, "slug", match &fm.slug { Some(t) => Some(t.as_str()), None => None });
    let ghost c = line_views(lines@);
    assert(c == b + opt_line("slug"@, fm@.slug));
    push_opt_ts_line(&mut lines, "created_at", fm.created_at);
    push_opt_ts_line(&mut lines, "updated_at", fm.updated_at);
    lines
}

/// The frontmatter lines of `fm`.
fn build_lines(fm: &Frontmatter) -> (r: Vec<String>)
    requires
        fm@.wf(),
    ensures
        line_views(r@) == frontmatter_lines(fm@),
{
    let mut lines = head_lines(fm);
    let ghost head = line_views(lines@);
    if fm.tags.len() > 0 {
        let l = tags_line(&fm.tags);
        lines.push(l);
        assert(line_views(lines@) =~= head.push(l@));
    }
    let ghost with_tags = line_views(lines@);
    match &fm.task {
        Some(t) => {
            let pairs = task_pair_lines(t);
            push_map_line(&mut lines, "task", &pairs);
        },
        None => {},
    }
    let ghost with_task = line_views(lines@);
    match &fm.event {
        Some(e) => {
            let pairs = event_pair_lines(e);
            push_map_line(&mut lines, "event", &pairs);
        },
        None => {},
    }
    assert(line_views(lines@) =~= frontmatter_lines(fm@));
    lines
}

/// Serializes an entry back to Markdown source: every frontmatter field
/// that is set, between `---` fences, then the body.
pub fn render_entry(entry: &Entry) -> (r: String)
    requires
        entry.frontmatter@.wf(),
    ensures
        r@ == spec_render(entry.frontmatter@, entry.body@),
{
    let lines = build_lines(&entry.frontmatter);
    let ghost ls = frontmatter_lines(entry.frontmatter@);
    let mut out: Vec<char> = Vec::new();
    if lines.len() > 0 {
        push_str(&mut out, "---\n");
        let mut i: usize = 0;
        while i < lines.len()
            invariant
                i <= lines@.len(),
                ls == line_views(lines@),
                out@ == "---\n"@ + lines_text(ls.subrange(0, i as int)),
            decreases lines@.len() - i,
        {
            assert(ls.subrange(0, i + 1).drop_last() =~= ls.subrange(0, i as int));
            assert(ls.subrange(0, i + 1).last() == lines@[i as int]@);
            push_str(&mut out, lines[i].as_str());
            out.push('\n');
            i += 1;
            assert(out@ =~= "---\n"@ + lines_text(ls.subrange(0, i as int)));
        }
        assert(ls.subrange(0, ls.len() as int) =~= ls);
        push_str(&mut out, "---\n");
    }
    push_str(&mut out, entry.body.as_str());
    assert(out@ =~= spec_render(entry.frontmatter@, entry.body@));
    string_from_chars(&out)
}

/// A line that can stand in a frontmatter block: not empty, without a
/// newline, and not starting with `-`.
pub open spec fn plain_line(l: Seq<char>) -> bool {
    l.len() > 0 && !l.contains('\n') && l[0] != '-'
}

pub open spec fn all_plain(ls: Seq<Seq<char>>) -> bool {
    forall|i: int| 0 <= i < ls.len() ==> plain_line(#[trigger] ls[i])
}

/// A key of a frontmatter line: lower-case letters and `_`.
pub open spec fn is_key(k: Seq<char>) -> bool {
    k.len() > 0 && forall|i: int| 0 <= i < k.len() ==> ('a' <= #[trigger] k[i] <= 'z' || k[i] == '_')
}

/// No newline in `s` is followed by `-`.
pub open spec fn no_dash_after_newline(s: Seq<char>) -> bool {
    forall|k: int| 0 <= k < s.len() - 1 && #[trigger] s[k] == '\n' ==> s[k + 1] != '-'
}

proof fn lemma_all_plain_concat(a: Seq<Seq<char>>, b: Seq<Seq<char>>)
    requires
        all_plain(a),
        all_plain(b),
    ensures
        all_plain(a + b),
{
    assert forall|i: int| 0 <= i < (a + b).len() implies plain_line(#[trigger] (a + b)[i]) by {
        if i < a.len() {
            assert((a + b)[i] == a[i]);
        } else {
            assert((a + b)[i] == b[i - a.len()]);
        }
    };
}

proof fn lemma_kv_plain(key: Seq<char>, value: Seq<char>)
    requires
        is_key(key),
        !value.contains('\n'),
    ensures
        plain_line(kv(key, value)),
{
    let l = kv(key, value);
    assert(l[0] == key[0]);
    assert('a' <= key[0] <= 'z' || key[0] == '_');
    assert forall|i: int| 0 <= i < l.len() implies l[i] != '\n' by {
        if i < key.len() {
            assert(l[i] == key[i]);
            assert('a' <= key[i] <= 'z' || key[i] == '_');
        } else if i < key.len() + 2 {
        } else {
            assert(l[i] == value[i - key.len() - 2]);
        }
    };
}

proof fn lemma_opt_line_plain(key: Seq<char>, v: Option<Seq<char>>)
    requires
        is_key(key),
    ensures
        all_plain(opt_line(key, v)),
{
    if let Some(x) = v {
        lemma_quoted_roundtrip(x);
        lemma_kv_plain(key, yaml_quoted(x));
        assert(opt_line(key, v)[0] == kv(key, yaml_quoted(x)));
    }
}

proof fn lemma_pairs_no_newline(pairs: Seq<Seq<char>>)
    requires
        all_plain(pairs),
    ensures
        !flow_map(pairs).contains('\n'),
{
    assert forall|i: int| 0 <= i < pairs.len() implies !(#[trigger] pairs[i]).contains('\n') by {
        assert(plain_line(pairs[i]));
    };
    lemma_join_no_newline(pairs, seq![',', ' ']);
    let j = seq_join(pairs, seq![',', ' ']);
    let f = flow_map(pairs);
    assert forall|i: int| 0 <= i < f.len() implies f[i] != '\n' by {
        if 0 < i < f.len() - 1 {
            assert(f[i] == j[i - 1]);
        }
    };
}

/// Every frontmatter line is plain.
proof fn lemma_frontmatter_lines_plain(fm: FrontmatterModel)
    ensures
        all_plain(frontmatter_lines(fm)),
{
    reveal_strlit("id");
    reveal_strlit("title");
    reveal_strlit("slug");
    reveal_strlit("created_at");
    reveal_strlit("updated_at");
    reveal_strlit("tags");
    reveal_strlit("task");
    reveal_strlit("event");
    reveal_strlit("due");
    reveal_strlit("status");
    reveal_strlit("closed_at");
    reveal_strlit("start");
    reveal_strlit("end");
    let id_v = id_opt_text(fm.id);
    lemma_opt_line_plain("id"@, id_v);
    lemma_opt_line_plain("title"@, fm.title);
    lemma_opt_line_plain("slug"@, fm.slug);
    lemma_opt_line_plain("created_at"@, opt_ts_text(fm.created_at));
    lemma_opt_line_plain("updated_at"@, opt_ts_text(fm.updated_at));
    let a = opt_line("id"@, id_v) + opt_line("title"@, fm.title) + opt_line("slug"@, fm.slug) + opt_line(
        "created_at"@,
        opt_ts_text(fm.created_at),
    ) + opt_line("updated_at"@, opt_ts_text(fm.updated_at));
    lemma_all_plain_concat(opt_line("id"@, id_v), opt_line("title"@, fm.title));
    lemma_all_plain_concat(opt_line("id"@, id_v) + opt_line("title"@, fm.title), opt_line("slug"@, fm.slug));
    lemma_all_plain_concat(
        opt_line("id"@, id_v) + opt_line("title"@, fm.title) + opt_line("slug"@, fm.slug),
        opt_line("created_at"@, opt_ts_text(fm.created_at)),
    );
    lemma_all_plain_concat(
        opt_line("id"@, id_v) + opt_line("title"@, fm.title) + opt_line("slug"@, fm.slug) + opt_line(
            "created_at"@,
            opt_ts_text(fm.created_at),
        ),
        opt_line("updated_at"@, opt_ts_text(fm.updated_at)),
    );
    let tl: Seq<Seq<char>> = if fm.tags.len() > 0 {
        seq![kv("tags"@, seq!['['] + seq_join(quoted_all(fm.tags), seq![',', ' ']) + seq![']'])]
    } else {
        Seq::empty()
    };
    if fm.tags.len() > 0 {
        let q = quoted_all(fm.tags);
        assert forall|i: int| 0 <= i < q.len() implies !(#[trigger] q[i]).contains('\n') by {
            lemma_quoted_roundtrip(fm.tags[i]);
        };
        lemma_join_no_newline(q, seq![',', ' ']);
        let j = seq_join(q, seq![',', ' ']);
        let v = seq!['['] + j + seq![']'];
        assert forall|i: int| 0 <= i < v.len() implies v[i] != '\n' by {
            if 0 < i < v.len() - 1 {
                assert(v[i] == j[i - 1]);
            }
        };
        lemma_kv_plain("tags"@, v);
    }
    lemma_all_plain_concat(a, tl);
    let kl: Seq<Seq<char>> = match fm.task {
        Some(t) => seq![kv("task"@, flow_map(task_pairs(t)))],
        None => Seq::empty(),
    };
    if let Some(t) = fm.task {
        lemma_opt_line_plain("due"@, opt_ts_text(t.due));
        lemma_opt_line_plain("status"@, t.status);
        lemma_opt_line_plain("closed_at"@, opt_ts_text(t.closed_at));
        lemma_all_plain_concat(opt_line("due"@, opt_ts_text(t.due)), opt_line("status"@, t.status));
        lemma_all_plain_concat(
            opt_line("due"@, opt_ts_text(t.due)) + opt_line("status"@, t.status),
            opt_line("closed_at"@, opt_ts_text(t.closed_at)),
        );
        lemma_pairs_no_newline(task_pairs(t));
        lemma_kv_plain("task"@, flow_map(task_pairs(t)));
    }
    lemma_all_plain_concat(a + tl, kl);
    let el: Seq<Seq<char>> = match fm.event {
        Some(e) => seq![kv("event"@, flow_map(event_pairs(e)))],
        None => Seq::empty(),
    };
    if let Some(e) = fm.event {
        lemma_opt_line_plain("start"@, opt_ts_text(e.start));
        lemma_opt_line_plain("end"@, opt_ts_text(e.end));
        lemma_all_plain_concat(opt_line("start"@, opt_ts_text(e.start)), opt_line("end"@, opt_ts_text(e.end)));
        lemma_pairs_no_newline(event_pairs(e));
        lemma_kv_plain("event"@, flow_map(event_pairs(e)));
    }
    lemma_all_plain_concat(a + tl + kl, el);
    assert(frontmatter_lines(fm) =~= a + tl + kl + el);
}

proof fn lemma_lines_text_shape(ls: Seq<Seq<char>>)
    requires
        all_plain(ls),
    ensures
        no_dash_after_newline(lines_text(ls)),
        ls.len() > 0 ==> lines_text(ls).len() > 0 && lines_text(ls).last() == '\n',
    decreases ls.len(),
{
    if ls.len() > 0 {
        let p = ls.drop_last();
        assert forall|i: int| 0 <= i < p.len() implies plain_line(#[trigger] p[i]) by {
            assert(p[i] == ls[i]);
        };
        lemma_lines_text_shape(p);
        let t0 = lines_text(p);
        let l = ls.last();
        assert(plain_line(ls[ls.len() - 1]));
        let t = lines_text(ls);
        assert(t =~= t0 + l + seq!['\n']);
        assert forall|k: int| 0 <= k < t.len() - 1 && #[trigger] t[k] == '\n' implies t[k + 1] != '-' by {
            if k < t0.len() - 1 {
                assert(t[k] == t0[k] && t[k + 1] == t0[k + 1]);
            } else if k == t0.len() - 1 {
                assert(t[k + 1] == l[0]);
            } else {
                assert(t[k] == l[k - t0.len()]);
                assert(l.contains('\n'));
            }
        };
    }
}

/// Splitting a block of plain lines between fences, followed by a body,
/// gives the lines (less the final newline) and the body.
proof fn lemma_split_lines(ls: Seq<Seq<char>>, body: Seq<char>)
    requires
        ls.len() > 0,
        all_plain(ls),
    ensures
        spec_split("---\n"@ + lines_text(ls) + "---\n"@ + body) == Some(
            (Some(lines_text(ls).drop_last()), body),
        ),
{
    reveal_strlit("---\n");
    lemma_lines_text_shape(ls);
    let t = lines_text(ls);
    let src = "---\n"@ + t + "---\n"@ + body;
    assert(src.subrange(0, 4) =~= seq!['-', '-', '-', '\n']);
    let rest = src.subrange(4, src.len() as int);
    assert(rest =~= t + "---\n"@ + body);
    let e = t.len() - 1;
    assert(rest.subrange(e, e + 4) =~= closing_fence());
    assert forall|k: int| 0 <= k < e implies !occurs_at(rest, closing_fence(), k) by {
        if occurs_at(rest, closing_fence(), k) {
            assert(rest.subrange(k, k + 4)[0] == rest[k]);
            assert(rest.subrange(k, k + 4)[1] == rest[k + 1]);
            assert(rest[k] == t[k] && rest[k + 1] == t[k + 1]);
            assert(t[k] == '\n');
        }
    };
    lemma_find_first(rest, closing_fence(), e);
    assert(rest.subrange(0, e) =~= t.drop_last());
    assert(rest.subrange(e + 4, rest.len() as int) =~= seq!['\n'] + body);
    assert(strip_newline(seq!['\n'] + body) =~= body);
}

/// Reading back a rendered entry gives exactly the frontmatter text that
/// was written and the body: splitting undoes rendering. (Without any
/// frontmatter field the source is the body itself, which reads back as
/// such unless it starts with a `---` line.)
pub proof fn lemma_render_then_split(fm: FrontmatterModel, body: Seq<char>)
    requires
        frontmatter_lines(fm).len() > 0 || !(body.len() >= 4 && body.subrange(0, 4) == seq!['-', '-', '-', '\n']),
    ensures
        spec_split(spec_render(fm, body)) == Some(
            (
                if frontmatter_lines(fm).len() > 0 {
                    Some(spec_yaml(fm))
                } else {
                    None
                },
                body,
            ),
        ),
{
    if frontmatter_lines(fm).len() > 0 {
        lemma_frontmatter_lines_plain(fm);
        lemma_split_lines(frontmatter_lines(fm), body);
    }
}

proof fn lemma_find_first_props(s: Seq<char>, pat: Seq<char>)
    ensures
        find_first(s, pat) matches Some(e) ==> occurs_at(s, pat, e) && forall|j: int|
            0 <= j < e ==> !occurs_at(s, pat, j),
        find_first(s, pat) is None ==> forall|j: int| !occurs_at(s, pat, j),
{
    reveal(find_first);
    if exists|i: int| occurs_at(s, pat, i) {
        let w = choose|i: int| occurs_at(s, pat, i);
        lemma_first_occurrence_exists(s, pat, w);
    }
}

proof fn lemma_first_occurrence_exists(s: Seq<char>, pat: Seq<char>, w: int)
    requires
        occurs_at(s, pat, w),
    ensures
        exists|i: int| occurs_at(s, pat, i) && forall|j: int| 0 <= j < i ==> !occurs_at(s, pat, j),
    decreases w,
{
    if exists|j: int| 0 <= j < w && occurs_at(s, pat, j) {
        let j = choose|j: int| 0 <= j < w && occurs_at(s, pat, j);
        lemma_first_occurrence_exists(s, pat, j);
    }
}

/// Splitting loses and invents nothing: a source without frontmatter is all
/// body; otherwise it is the opening fence, the frontmatter text (which holds
/// no closing fence), the closing fence, and the body, with at most one
/// newline between fence and body. A split fails only on an opening fence
/// that is never closed.
pub proof fn lemma_split_reassembles(source: Seq<char>)
    ensures
        match spec_split(source) {
            Some((None, body)) => body == source,
            Some((Some(yaml), body)) => {
                &&& (source == seq!['-', '-', '-', '\n'] + yaml + closing_fence() + body
                    || source == seq!['-', '-', '-', '\n'] + yaml + closing_fence() + seq!['\n'] + body)
                &&& forall|j: int| !occurs_at(yaml, closing_fence(), j)
            },
            None => {
                &&& source.len() >= 4
                &&& source.subrange(0, 4) == seq!['-', '-', '-', '\n']
                &&& forall|j: int| !occurs_at(source.subrange(4, source.len() as int), closing_fence(), j)
            },
        },
{
    if source.len() >= 4 && source.subrange(0, 4) == seq!['-', '-', '-', '\n'] {
        let rest = source.subrange(4, source.len() as int);
        lemma_find_first_props(rest, closing_fence());
        match find_first(rest, closing_fence()) {
            Some(e) => {
                let yaml = rest.subrange(0, e);
                let after = rest.subrange(e + 4, rest.len() as int);
                assert(rest =~= yaml + closing_fence() + after);
                assert(source =~= seq!['-', '-', '-', '\n'] + rest);
                assert forall|j: int| !occurs_at(yaml, closing_fence(), j) by {
                    if occurs_at(yaml, closing_fence(), j) {
                        assert(yaml.subrange(j, j + 4) =~= rest.subrange(j, j + 4));
                        assert(occurs_at(rest, closing_fence(), j));
                    }
                };
                if after.len() > 0 && after[0] == '\n' {
                    assert(after =~= seq!['\n'] + after.drop_first());
                    assert(source =~= seq!['-', '-', '-', '\n'] + yaml + closing_fence() + seq!['\n'] + after.drop_first());
                } else {
                    assert(source =~= seq!['-', '-', '-', '\n'] + yaml + closing_fence() + after);
                }
            },
            None => {},
        }
    }
}

/// A source that does not open with a `---` line is all body.
pub proof fn lemma_split_without_fence(source: Seq<char>)
    requires
        !(source.len() >= 4 && source[0] == '-' && source[1] == '-' && source[2] == '-' && source[3] == '\n'),
    ensures
        spec_split(source) == Some((None::<Seq<char>>, source)),
{
    if source.len() >= 4 && source.subrange(0, 4) == seq!['-', '-', '-', '\n'] {
        assert(source.subrange(0, 4)[0] == source[0]);
        assert(source.subrange(0, 4)[1] == source[1]);
        assert(source.subrange(0, 4)[2] == source[2]);
        assert(source.subrange(0, 4)[3] == source[3]);
    }
}

} // verus!
