//! The human-readable view of a single entry.
use vstd::prelude::*;

use crate::calendar::{chrono_format_ymd, chrono_format_ymd_hm, format_ymd, format_ymd_hm};
use crate::entry::{Entry, FrontmatterModel, spec_entry_title};
use crate::text::{join_strings, push_all, push_str, seq_join, string_from_chars};
use crate::time::Timestamp;

verus! {

pub open spec fn opt_line(label: Seq<char>, t: Option<Timestamp>) -> Seq<char> {
    match t {
        Some(x) => label + chrono_format_ymd_hm(x) + seq!['\n'],
        None => Seq::empty(),
    }
}

/// The task lines: status (defaulting to `open`) with the due date, then
/// the close time.
pub open spec fn task_lines(fm: FrontmatterModel) -> Seq<char> {
    match fm.task {
        Some(t) => {
            let status = match t.status {
                Some(s) => s,
                None => "open"@,
            };
            (match t.due {
                Some(d) => "task:     "@ + status + " (due "@ + chrono_format_ymd(d.date.days) + ")\n"@,
                None => "task:     "@ + status + seq!['\n'],
            }) + opt_line("closed:   "@, t.closed_at)
        },
        None => Seq::empty(),
    }
}

/// The event line, by which of its dates are present.
pub open spec fn event_line(fm: FrontmatterModel) -> Seq<char> {
    match fm.event {
        Some(e) => match (e.start, e.end) {
            (Some(s), Some(x)) => "event:    "@ + chrono_format_ymd(s.date.days) + " – "@ + chrono_format_ymd(x.date.days) + seq!['\n'],
            (Some(s), None) => "event:    from "@ + chrono_format_ymd(s.date.days) + seq!['\n'],
            (None, Some(x)) => "event:    until "@ + chrono_format_ymd(x.date.days) + seq!['\n'],
            (None, None) => "event:    (no dates)\n"@,
        },
        None => Seq::empty(),
    }
}

/// The text shown for an entry: a heading with its title, the metadata
/// lines, a blank line, then the body.
pub open spec fn spec_show(fm: FrontmatterModel, path: Seq<char>, body: Seq<char>) -> Seq<char> {
    "# "@ + spec_entry_title(fm.title, path) + seq!['\n'] + opt_line("created:  "@, fm.created_at) + opt_line(
        "updated:  "@,
        fm.updated_at,
    ) + (if fm.tags.len() > 0 {
        "tags:     "@ + seq_join(fm.tags, ", "@) + seq!['\n']
    } else {
        Seq::empty()
    }) + task_lines(fm) + event_line(fm) + seq!['\n'] + body
}

fn push_opt_line(out: &mut Vec<char>, label: &str, t: Option<Timestamp>)
    requires
        t matches Some(x) ==> x.wf(),
    ensures
        final(out)@ == old(out)@ + opt_line(label@, t),
{
    if let Some(x) = t {
        push_str(out, label);
        push_str(out, format_ymd_hm(x).as_str());
        out.push('\n');
    }
}

fn push_task_lines(out: &mut Vec<char>, fm: &crate::entry::Frontmatter)
    requires
        fm@.wf(),
    ensures
        final(out)@ == old(out)@ + task_lines(fm@),
{
    let ghost start = out@;
    if let Some(task) = &fm.task {
        push_str(out, "task:     ");
        match &task.status {
            Some(s) => push_str(out, s.as_str()),
            None => push_str(out, "open"),
        }
        match task.due {
            Some(d) => {
                push_str(out, " (due ");
                push_str(out, format_ymd(d.date).as_str());
                push_str(out, ")\n");
            },
            None => out.push('\n'),
        }
        push_opt_line(out, "closed:   ", task.closed_at);
    }
    assert(out@ =~= start + task_lines(fm@));
}

fn push_event_line(out: &mut Vec<char>, fm: &crate::entry::Frontmatter)
    requires
        fm@.wf(),
    ensures
        final(out)@ == old(out)@ + event_line(fm@),
{
    let ghost start = out@;
    if let Some(event) = &fm.event {
        match (event.start, event.end) {
            (Some(s), Some(e)) => {
                push_str(out, "event:    ");
                push_str(out, format_ymd(s.date).as_str());
                push_str(out, " – ");
                push_str(out, format_ymd(e.date).as_str());
                out.push('\n');
            },
            (Some(s), None) => {
                push_str(out, "event:    from ");
                push_str(out, format_ymd(s.date).as_str());
                out.push('\n');
            },
            (None, Some(e)) => {
                push_str(out, "event:    until ");
                push_str(out, format_ymd(e.date).as_str());
                out.push('\n');
            },
            (None, None) => push_str(out, "event:    (no dates)\n"),
        }
    }
    assert(out@ =~= start + event_line(fm@));
}

/// Renders the text shown for an entry.
pub fn show_text(entry: &Entry) -> (r: String)
    requires
        entry.frontmatter@.wf(),
    ensures
        r@ == spec_show(entry.frontmatter@, entry.path@, entry.body@),
{
    let fm = &entry.frontmatter;
    let mut out: Vec<char> = Vec::new();
    push_str(&mut out, "# ");
    push_str(&mut out, entry.title().as_str());
    out.push('\n');
    push_opt_line(&mut out, "created:  ", fm.created_at);
    push_opt_line(&mut out, "updated:  ", fm.updated_at);
    if fm.tags.len() > 0 {
        push_str(&mut out, "tags:     ");
        let joined = join_strings(&fm.tags, ", ");
        push_all(&mut out, &joined);
        out.push('\n');
    }
    push_task_lines(&mut out, fm);
    push_event_line(&mut out, fm);
    out.push('\n');
    push_str(&mut out, entry.body.as_str());
    assert(out@ =~= spec_show(fm@, entry.path@, entry.body@));
    string_from_chars(&out)
}

} // verus!
