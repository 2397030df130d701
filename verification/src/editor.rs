//! The text handed to an external editor for a new entry, and the body read
//! back from it.
use vstd::prelude::*;

use crate::text::{
    chars_start_with, is_prefix, join_strings, lemma_join_no_newline, push_all, push_str, seq_join,
    str_chars, string_from_chars,
};

verus! {

/// Prefix of the instruction lines in the editor template.
pub open spec fn marker() -> Seq<char> {
    "# archelon:"@
}

/// The template shown in the editor: an instruction line, the title and
/// the tags when given, then a blank line.
pub open spec fn spec_template(title: Option<Seq<char>>, tags: Seq<Seq<char>>) -> Seq<char> {
    "# archelon: Write your entry below. Lines starting with '# archelon:' are ignored.\n"@ + (match title {
        Some(t) => "# archelon: title = "@ + t + seq!['\n'],
        None => Seq::empty(),
    }) + (if tags.len() > 0 {
        "# archelon: tags  = "@ + seq_join(tags, ", "@) + seq!['\n']
    } else {
        Seq::empty()
    }) + seq!['\n']
}

/// Builds the template shown in the editor for a new entry.
pub fn editor_template(title: Option<&str>, tags: &Vec<String>) -> (r: String)
    ensures
        r@ == spec_template(
            match title {
                Some(t) => Some(t@),
                None => None,
            },
            tags@.map_values(|s: String| s@),
        ),
{
    let mut out: Vec<char> = Vec::new();
    push_str(&mut out, "# archelon: Write your entry below. Lines starting with '# archelon:' are ignored.\n");
    if let Some(t) = title {
        push_str(&mut out, "# archelon: title = ");
        push_str(&mut out, t);
        out.push('\n');
    }
    if tags.len() > 0 {
        push_str(&mut out, "# archelon: tags  = ");
        let joined = join_strings(tags, ", ");
        push_all(&mut out, &joined);
        out.push('\n');
    }
    out.push('\n');
    string_from_chars(&out)
}

/// Index of the first `c` in `s`, or -1.
pub open spec fn first_index(s: Seq<char>, c: char) -> int
    decreases s.len(),
{
    if s.len() == 0 {
        -1
    } else if s[0] == c {
        0
    } else {
        let k = first_index(s.drop_first(), c);
        if k < 0 {
            -1
        } else {
            k + 1
        }
    }
}

/// A line without the carriage return that ended it.
pub open spec fn strip_cr(line: Seq<char>) -> Seq<char> {
    if line.len() > 0 && line.last() == '\r' {
        line.drop_last()
    } else {
        line
    }
}

/// The lines of a text: split at each `\n` (a `\r` just before it is
/// dropped too); a final line ending does not start another line.
pub open spec fn text_lines(s: Seq<char>) -> Seq<Seq<char>>
    decreases s.len(),
{
    if s.len() == 0 {
        Seq::empty()
    } else {
        let i = first_index(s, '\n');
        if i < 0 || i >= s.len() {
            seq![s]
        } else {
            seq![strip_cr(s.subrange(0, i))] + text_lines(s.subrange(i + 1, s.len() as int))
        }
    }
}

/// The lines that are not instruction lines, in order.
pub open spec fn kept_lines(ls: Seq<Seq<char>>) -> Seq<Seq<char>>
    decreases ls.len(),
{
    if ls.len() == 0 {
        Seq::empty()
    } else if is_prefix(marker(), ls.last()) {
        kept_lines(ls.drop_last())
    } else {
        kept_lines(ls.drop_last()).push(ls.last())
    }
}

/// `s` without its leading newlines.
pub open spec fn trim_leading_newlines(s: Seq<char>) -> Seq<char>
    decreases s.len(),
{
    if s.len() > 0 && s[0] == '\n' {
        trim_leading_newlines(s.drop_first())
    } else {
        s
    }
}

/// The body typed in the editor: the lines that are not instruction lines,
/// joined by newlines, without leading newlines.
pub open spec fn spec_editor_body(content: Seq<char>) -> Seq<char> {
    trim_leading_newlines(seq_join(kept_lines(text_lines(content)), seq!['\n']))
}

/// The editor session produced no body.
#[derive(Debug, Clone, Copy, PartialEq, Eq, Structural)]
pub enum EditorError {
    EmptyEntry,
}

proof fn lemma_first_index(s: Seq<char>, c: char, k: int)
    requires
        -1 <= k <= s.len(),
        k >= 0 ==> k < s.len() && s[k] == c,
        forall|j: int| 0 <= j < (if k < 0 { s.len() as int } else { k }) ==> s[j] != c,
    ensures
        first_index(s, c) == k,
    decreases s.len(),
{
    if s.len() > 0 && s[0] != c {
        let k2 = if k < 0 { -1 } else { k - 1 };
        assert forall|j: int| 0 <= j < (if k2 < 0 { s.drop_first().len() as int } else { k2 }) implies s.drop_first()[j] != c by {
            assert(s.drop_first()[j] == s[j + 1]);
        };
        lemma_first_index(s.drop_first(), c, k2);
    }
}

fn sub_chars(v: &Vec<char>, from: usize, to: usize) -> (r: Vec<char>)
    requires
        from <= to <= v@.len(),
    ensures
        r@ == v@.subrange(from as int, to as int),
{
    let mut out: Vec<char> = Vec::new();
    let mut i: usize = from;
    while i < to
        invariant
            from <= i <= to <= v@.len(),
            out@ == v@.subrange(from as int, i as int),
        decreases to - i,
    {
        out.push(v[i]);
        i += 1;
        assert(out@ =~= v@.subrange(from as int, i as int));
    }
    out
}

/// The lines of a text (see [`text_lines`]).
pub fn lines_of(content: &str) -> (r: Vec<String>)
    ensures
        r@.map_values(|s: String| s@) == text_lines(content@),
{
    let v = str_chars(content);
    let mut out: Vec<String> = Vec::new();
    let mut pos: usize = 0;
    assert(v@.subrange(0, v@.len() as int) =~= v@);
    while pos < v.len()
        invariant
            pos <= v@.len(),
            v@ == content@,
            text_lines(v@) == out@.map_values(|s: String| s@) + text_lines(v@.subrange(pos as int, v@.len() as int)),
        decreases v@.len() - pos,
    {
        let ghost rest = v@.subrange(pos as int, v@.len() as int);
        let mut i: usize = pos;
        while i < v.len() && v[i] != '\n'
            invariant
                pos <= i <= v@.len(),
                forall|j: int| pos <= j < i ==> v@[j] != '\n',
            decreases v@.len() - i,
        {
            i += 1;
        }
        let ghost before = out@.map_values(|s: String| s@);
        let mut line = sub_chars(&v, pos, i);
        if i < v.len() {
            proof {
                lemma_first_index(rest, '\n', i - pos);
                assert(rest.subrange(0, i - pos) =~= line@);
                assert(rest.subrange(i - pos + 1, rest.len() as int) =~= v@.subrange(i + 1, v@.len() as int));
            }
            if line.len() > 0 && line[line.len() - 1] == '\r' {
                line.pop();
            }
            out.push(string_from_chars(&line));
            assert(out@.map_values(|s: String| s@) =~= before.push(strip_cr(rest.subrange(0, i - pos))));
            assert(text_lines(rest) =~= seq![strip_cr(rest.subrange(0, i - pos))] + text_lines(v@.subrange(i + 1, v@.len() as int)));
            pos = i + 1;
        } else {
            proof {
                lemma_first_index(rest, '\n', -1);
                assert(rest =~= line@);
            }
            out.push(string_from_chars(&line));
            assert(out@.map_values(|s: String| s@) =~= before.push(rest));
            assert(v@.subrange(v@.len() as int, v@.len() as int) =~= Seq::<char>::empty());
            pos = v.len();
        }
    }
    assert(v@.subrange(pos as int, v@.len() as int) =~= Seq::<char>::empty());
    assert(out@.map_values(|s: String| s@) + Seq::<Seq<char>>::empty() =~= out@.map_values(|s: String| s@));
    out
}

/// The lines of a text that starts with a line without a newline.
proof fn lemma_lines_cons(line: Seq<char>, rest: Seq<char>)
    requires
        !line.contains('\n'),
    ensures
        text_lines(line + seq!['\n'] + rest) == seq![strip_cr(line)] + text_lines(rest),
{
    let s = line + seq!['\n'] + rest;
    assert forall|j: int| 0 <= j < line.len() implies s[j] != '\n' by {
        assert(s[j] == line[j]);
    };
    lemma_first_index(s, '\n', line.len() as int);
    assert(s.subrange(0, line.len() as int) =~= line);
    assert(s.subrange(line.len() + 1int, s.len() as int) =~= rest);
}

/// Dropping instruction lines commutes with concatenation.
proof fn lemma_kept_concat(a: Seq<Seq<char>>, b: Seq<Seq<char>>)
    ensures
        kept_lines(a + b) == kept_lines(a) + kept_lines(b),
    decreases b.len(),
{
    if b.len() == 0 {
        assert(a + b =~= a);
        assert(kept_lines(a) + kept_lines(b) =~= kept_lines(a));
    } else {
        assert((a + b).drop_last() =~= a + b.drop_last());
        assert((a + b).last() == b.last());
        lemma_kept_concat(a, b.drop_last());
        if is_prefix(marker(), b.last()) {
        } else {
            assert(kept_lines(a) + kept_lines(b.drop_last()).push(b.last()) =~= (kept_lines(a) + kept_lines(
                b.drop_last(),
            )).push(b.last()));
        }
    }
}

/// Lines that all are instruction lines are all dropped.
proof fn lemma_kept_all_marked(ls: Seq<Seq<char>>)
    requires
        forall|i: int| 0 <= i < ls.len() ==> is_prefix(marker(), #[trigger] ls[i]),
    ensures
        kept_lines(ls) == Seq::<Seq<char>>::empty(),
    decreases ls.len(),
{
    if ls.len() > 0 {
        assert(is_prefix(marker(), ls[ls.len() - 1]));
        assert forall|i: int| 0 <= i < ls.drop_last().len() implies is_prefix(marker(), #[trigger] ls.drop_last()[i]) by {
            assert(ls.drop_last()[i] == ls[i]);
        };
        lemma_kept_all_marked(ls.drop_last());
    }
}

/// An empty first line adds only a newline in front of the joined lines.
proof fn lemma_join_after_empty(k: Seq<Seq<char>>)
    ensures
        seq_join(seq![Seq::<char>::empty()] + k, seq!['\n']) == (if k.len() == 0 {
            Seq::<char>::empty()
        } else {
            seq!['\n'] + seq_join(k, seq!['\n'])
        }),
    decreases k.len(),
{
    let e = Seq::<char>::empty();
    let s = seq![e] + k;
    assert(seq_join(seq![e], seq!['\n']) == e) by {
        assert(seq![e][0] == e);
    };
    if k.len() == 0 {
        assert(s =~= seq![e]);
    } else if k.len() == 1 {
        assert(s.drop_last() =~= seq![e]);
        assert(s.last() == k[0]);
        assert(seq_join(s, seq!['\n']) == seq_join(s.drop_last(), seq!['\n']) + seq!['\n'] + s.last());
        assert(seq_join(k, seq!['\n']) == k[0]);
        assert(e + seq!['\n'] + k[0] =~= seq!['\n'] + k[0]);
    } else {
        assert(seq_join(s, seq!['\n']) == seq_join(s.drop_last(), seq!['\n']) + seq!['\n'] + s.last());
        assert(s.drop_last() =~= seq![e] + k.drop_last());
        assert(s.last() == k.last());
        lemma_join_after_empty(k.drop_last());
        assert(seq!['\n'] + seq_join(k.drop_last(), seq!['\n']) + seq!['\n'] + k.last() =~= seq!['\n'] + (
        seq_join(k.drop_last(), seq!['\n']) + seq!['\n'] + k.last()));
    }
}

/// An instruction line stays one without its carriage return.
proof fn lemma_marked_strip_cr(line: Seq<char>)
    requires
        is_prefix(marker(), line),
        line.len() > marker().len(),
    ensures
        is_prefix(marker(), strip_cr(line)),
{
    if line.len() > 0 && line.last() == '\r' {
        assert(line.drop_last().subrange(0, marker().len() as int) =~= line.subrange(0, marker().len() as int));
    }
}

proof fn lemma_template_prefix(title: Option<Seq<char>>, tags: Seq<Seq<char>>, text: Seq<char>)
    requires
        title matches Some(t) ==> !t.contains('\n'),
        forall|i: int| 0 <= i < tags.len() ==> !(#[trigger] tags[i]).contains('\n'),
    ensures
        spec_editor_body(spec_template(title, tags) + text) == spec_editor_body(text),
{
    let head = "# archelon: Write your entry below. Lines starting with '# archelon:' are ignored.\n"@;
    reveal_strlit("# archelon: Write your entry below. Lines starting with '# archelon:' are ignored.\n");
    reveal_strlit("# archelon: title = ");
    reveal_strlit("# archelon: tags  = ");
    reveal_strlit("# archelon:");
    reveal_strlit(", ");
    let m = marker();
    let l1 = head.drop_last();
    assert(head =~= l1 + seq!['\n']);
    assert(l1.subrange(0, m.len() as int) =~= m);
    assert(!l1.contains('\n')) by {
        assert forall|i: int| 0 <= i < l1.len() implies l1[i] != '\n' by {
            assert(l1[i] == head[i]);
        };
    };
    let l2: Seq<Seq<char>> = match title {
        Some(t) => seq!["# archelon: title = "@ + t],
        None => Seq::empty(),
    };
    let l3: Seq<Seq<char>> = if tags.len() > 0 {
        seq!["# archelon: tags  = "@ + seq_join(tags, ", "@)]
    } else {
        Seq::empty()
    };
    let e = Seq::<char>::empty();
    let tail = seq!['\n'] + text;
    // The lines of the tags part and what follows it.
    let after_title: Seq<char> = (if tags.len() > 0 {
        "# archelon: tags  = "@ + seq_join(tags, ", "@) + seq!['\n']
    } else {
        Seq::empty()
    }) + tail;
    let after_head: Seq<char> = (match title {
        Some(t) => "# archelon: title = "@ + t + seq!['\n'],
        None => Seq::empty(),
    }) + after_title;
    assert(spec_template(title, tags) + text =~= l1 + seq!['\n'] + after_head);
    lemma_lines_cons(e, text);
    assert(tail =~= e + seq!['\n'] + text);
    assert(strip_cr(e) == e);
    let after_lines = seq![e] + text_lines(text);
    assert(text_lines(tail) == after_lines);
    let mut marked: Seq<Seq<char>> = Seq::empty();
    if tags.len() > 0 {
        let g = "# archelon: tags  = "@ + seq_join(tags, ", "@);
        lemma_join_no_newline(tags, ", "@);
        let j = seq_join(tags, ", "@);
        assert(!g.contains('\n')) by {
            assert forall|i: int| 0 <= i < g.len() implies g[i] != '\n' by {
                if i >= 20 {
                    assert(g[i] == j[i - 20]);
                }
            };
        };
        lemma_lines_cons(g, tail);
        assert(after_title =~= g + seq!['\n'] + tail);
        assert(g.subrange(0, m.len() as int) =~= m);
        lemma_marked_strip_cr(g);
        assert(text_lines(after_title) == seq![strip_cr(g)] + after_lines);
    } else {
        assert(after_title =~= tail);
    }
    let title_lines: Seq<Seq<char>> = if tags.len() > 0 {
        seq![strip_cr("# archelon: tags  = "@ + seq_join(tags, ", "@))]
    } else {
        Seq::empty()
    };
    assert(text_lines(after_title) == title_lines + after_lines) by {
        if tags.len() == 0 {
            assert(title_lines + after_lines =~= after_lines);
        }
    };
    let head_lines: Seq<Seq<char>> = match title {
        Some(t) => seq![strip_cr("# archelon: title = "@ + t)] + title_lines,
        None => title_lines,
    };
    match title {
        Some(t) => {
            let x = "# archelon: title = "@ + t;
            assert(!x.contains('\n')) by {
                assert forall|i: int| 0 <= i < x.len() implies x[i] != '\n' by {
                    if i >= 20 {
                        assert(x[i] == t[i - 20]);
                    }
                };
            };
            lemma_lines_cons(x, after_title);
            assert(after_head =~= x + seq!['\n'] + after_title);
            assert(x.subrange(0, m.len() as int) =~= m);
            lemma_marked_strip_cr(x);
            assert(seq![strip_cr(x)] + (title_lines + after_lines) =~= head_lines + after_lines);
        },
        None => {
            assert(after_head =~= after_title);
        },
    }
    assert(text_lines(after_head) == head_lines + after_lines);
    lemma_lines_cons(l1, after_head);
    assert(strip_cr(l1) == l1);
    let all_marked = seq![l1] + head_lines;
    assert(text_lines(spec_template(title, tags) + text) =~= all_marked + after_lines);
    assert forall|i: int| 0 <= i < all_marked.len() implies is_prefix(m, #[trigger] all_marked[i]) by {
        if i == 0 {
        } else if title is Some && i == 1 {
        } else {
        }
    };
    lemma_kept_all_marked(all_marked);
    lemma_kept_concat(all_marked, after_lines);
    lemma_kept_concat(seq![e], text_lines(text));
    assert(kept_lines(seq![e]) =~= seq![e]) by {
        assert(seq![e].drop_last() =~= Seq::<Seq<char>>::empty());
        assert(kept_lines(Seq::<Seq<char>>::empty()) == Seq::<Seq<char>>::empty());
        assert(seq![e].last() == e);
        assert(m.len() == 11);
        assert(!is_prefix(m, e));
    };
    let k = kept_lines(text_lines(text));
    assert(kept_lines(text_lines(spec_template(title, tags) + text)) =~= seq![e] + k);
    lemma_join_after_empty(k);
    if k.len() > 0 {
        let js = seq!['\n'] + seq_join(k, seq!['\n']);
        assert(js.drop_first() =~= seq_join(k, seq!['\n']));
    }
}

/// Whatever is written below the editor template, the template itself adds
/// nothing to the body read back; in particular a template saved unchanged
/// gives an empty body. Provided the title and tags hold no newline.
pub proof fn lemma_template_adds_nothing(title: Option<Seq<char>>, tags: Seq<Seq<char>>, text: Seq<char>)
    requires
        title matches Some(t) ==> !t.contains('\n'),
        forall|i: int| 0 <= i < tags.len() ==> !(#[trigger] tags[i]).contains('\n'),
    ensures
        spec_editor_body(spec_template(title, tags) + text) == spec_editor_body(text),
        spec_editor_body(spec_template(title, tags)).len() == 0,
{
    lemma_template_prefix(title, tags, text);
    let none = Seq::<char>::empty();
    lemma_template_prefix(title, tags, none);
    assert(spec_template(title, tags) + none =~= spec_template(title, tags));
    assert(text_lines(none) == Seq::<Seq<char>>::empty());
    assert(kept_lines(Seq::<Seq<char>>::empty()) == Seq::<Seq<char>>::empty());
}

/// Extracts the body from what was written in the editor: instruction lines
/// are dropped, the rest joined by newlines and stripped of leading
/// newlines; an empty result is refused.
pub fn editor_body(content: &str) -> (r: Result<String, EditorError>)
    ensures
        spec_editor_body(content@).len() == 0 <==> r is Err,
        r matches Ok(b) ==> b@ == spec_editor_body(content@),
{
    let lines = lines_of(content);
    let ghost lv = lines@.map_values(|s: String| s@);
    let m = str_chars("# archelon:");
    let mut kept: Vec<String> = Vec::new();
    let mut i: usize = 0;
    while i < lines.len()
        invariant
            i <= lines@.len(),
            lv == lines@.map_values(|s: String| s@),
            m@ == marker(),
            kept@.map_values(|s: String| s@) == kept_lines(lv.subrange(0, i as int)),
        decreases lines@.len() - i,
    {
        let ghost before = kept@.map_values(|s: String| s@);
        let lc = str_chars(lines[i].as_str());
        assert(lv.subrange(0, i + 1).drop_last() =~= lv.subrange(0, i as int));
        assert(lv.subrange(0, i + 1).last() == lines@[i as int]@);
        if !chars_start_with(&lc, &m) {
            kept.push(string_from_chars(&lc));
            assert(kept@.map_values(|s: String| s@) =~= before.push(lc@));
        }
        i += 1;
    }
    assert(lv.subrange(0, lines@.len() as int) =~= lv);
    let joined = join_strings(&kept, "\n");
    let mut start: usize = 0;
    assert(joined@.subrange(0, joined@.len() as int) =~= joined@);
    while start < joined.len() && joined[start] == '\n'
        invariant
            start <= joined@.len(),
            trim_leading_newlines(joined@) == trim_leading_newlines(joined@.subrange(start as int, joined@.len() as int)),
        decreases joined@.len() - start,
    {
        let ghost t = joined@.subrange(start as int, joined@.len() as int);
        assert(t.drop_first() =~= joined@.subrange(start + 1, joined@.len() as int));
        start += 1;
    }
    proof {
        reveal_strlit("\n");
        assert("\n"@ =~= seq!['\n']);
    }
    let body = sub_chars(&joined, start, joined.len());
    assert(trim_leading_newlines(body@) == body@);
    if body.len() == 0 {
        return Err(EditorError::EmptyEntry);
    }
    Ok(string_from_chars(&body))
}

} // verus!
