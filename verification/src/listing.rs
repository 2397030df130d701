//! Selecting entries by date range and laying them out as a table.
use vstd::prelude::*;

use crate::entry::{Entry, EventModel, FrontmatterModel, TaskModel, spec_entry_title};
use crate::id::{id_text, id_to_string};
use crate::labels::task_status_label;
use crate::text::{
    copy_string, join_strings, push_all, push_str, seq_join, str_chars, str_eq,
    string_from_chars, utf8_len, char_utf8_len,
};
use crate::time::{Date, Timestamp};

verus! {

/// Why an entry matched a date range.
#[derive(Debug, Clone, Copy, PartialEq, Eq, Structural)]
pub enum MatchLabel {
    Todo,
    Closed,
    Event,
    Created,
    Updated,
}

pub open spec fn match_label_name(l: MatchLabel) -> Seq<char> {
    match l {
        MatchLabel::Todo => "TODO"@,
        MatchLabel::Closed => "CLOSED"@,
        MatchLabel::Event => "EVENT"@,
        MatchLabel::Created => "CREATED"@,
        MatchLabel::Updated => "UPDATED"@,
    }
}

impl MatchLabel {
    pub fn as_str(self) -> (r: &'static str)
        ensures
            r@ == match_label_name(self),
    {
        match self {
            MatchLabel::Todo => "TODO",
            MatchLabel::Closed => "CLOSED",
            MatchLabel::Event => "EVENT",
            MatchLabel::Created => "CREATED",
            MatchLabel::Updated => "UPDATED",
        }
    }
}

/// A task status that closes the task: `done`, `cancelled` or `archived`
/// (an absent status counts as `open`).
pub open spec fn is_inactive_status(status: Option<Seq<char>>) -> bool {
    match status {
        Some(s) => s == "done"@ || s == "cancelled"@ || s == "archived"@,
        None => false,
    }
}

/// A date-time whose date lies in the range.
pub open spec fn opt_in_range(t: Option<Timestamp>, start: Option<Date>, end: Option<Date>) -> bool {
    match t {
        Some(x) => x.date.in_range(start, end),
        None => false,
    }
}

/// Labels contributed by the task: an active task is always `TODO`; an
/// inactive one is `TODO` when due in range and `CLOSED` when closed in
/// range.
pub open spec fn task_labels(task: Option<TaskModel>, start: Option<Date>, end: Option<Date>) -> Seq<MatchLabel> {
    match task {
        Some(t) => if !is_inactive_status(t.status) {
            seq![MatchLabel::Todo]
        } else {
            (if opt_in_range(t.due, start, end) {
                seq![MatchLabel::Todo]
            } else {
                Seq::empty()
            }) + (if opt_in_range(t.closed_at, start, end) {
                seq![MatchLabel::Closed]
            } else {
                Seq::empty()
            })
        },
        None => Seq::empty(),
    }
}

/// An event overlaps the range; a missing event bound or range bound does
/// not restrict.
pub open spec fn event_overlaps(e: EventModel, start: Option<Date>, end: Option<Date>) -> bool {
    let overlaps_end = match end {
        Some(re) => match e.start {
            Some(es) => es.date.days <= re.days,
            None => true,
        },
        None => true,
    };
    let overlaps_start = match start {
        Some(rs) => match e.end {
            Some(ee) => ee.date.days >= rs.days,
            None => true,
        },
        None => true,
    };
    overlaps_end && overlaps_start
}

/// The labels explaining why an entry matches the date range, in the order
/// task, event, created, updated.
pub open spec fn spec_labels(fm: FrontmatterModel, start: Option<Date>, end: Option<Date>) -> Seq<MatchLabel> {
    task_labels(fm.task, start, end) + (match fm.event {
        Some(e) => if event_overlaps(e, start, end) {
            seq![MatchLabel::Event]
        } else {
            Seq::empty()
        },
        None => Seq::empty(),
    }) + (if opt_in_range(fm.created_at, start, end) {
        seq![MatchLabel::Created]
    } else {
        Seq::empty()
    }) + (if opt_in_range(fm.updated_at, start, end) {
        seq![MatchLabel::Updated]
    } else {
        Seq::empty()
    })
}

/// Range bounds are inclusive on both sides for events: an entry's event
/// gets the `EVENT` label exactly when it starts on or before the range's
/// last day and ends on or after its first day; a missing bound, on the
/// event or on the range, does not restrict. An event held within one day
/// is therefore listed for that day.
pub proof fn lemma_event_label_inclusive(fm: FrontmatterModel, start: Option<Date>, end: Option<Date>)
    requires
        fm.event is Some,
    ensures
        spec_labels(fm, start, end).contains(MatchLabel::Event) <==> ((forall|r: Date, es: Timestamp|
            end == Some(r) && fm.event->0.start == Some(es) ==> es.date.days <= r.days) && (forall|
            s: Date,
            ee: Timestamp,
        | start == Some(s) && fm.event->0.end == Some(ee) ==> ee.date.days >= s.days)),
{
    let t = task_labels(fm.task, start, end);
    let ev: Seq<MatchLabel> = if event_overlaps(fm.event->0, start, end) {
        seq![MatchLabel::Event]
    } else {
        Seq::empty()
    };
    let c: Seq<MatchLabel> = if opt_in_range(fm.created_at, start, end) {
        seq![MatchLabel::Created]
    } else {
        Seq::empty()
    };
    let u: Seq<MatchLabel> = if opt_in_range(fm.updated_at, start, end) {
        seq![MatchLabel::Updated]
    } else {
        Seq::empty()
    };
    let l = spec_labels(fm, start, end);
    assert(l =~= t + ev + c + u);
    assert forall|i: int| 0 <= i < t.len() implies t[i] != MatchLabel::Event by {
        match fm.task {
            Some(tk) => {
                if is_inactive_status(tk.status) {
                    let a: Seq<MatchLabel> = if opt_in_range(tk.due, start, end) {
                        seq![MatchLabel::Todo]
                    } else {
                        Seq::empty()
                    };
                    let b: Seq<MatchLabel> = if opt_in_range(tk.closed_at, start, end) {
                        seq![MatchLabel::Closed]
                    } else {
                        Seq::empty()
                    };
                    assert(t =~= a + b);
                    if i < a.len() {
                        assert(t[i] == a[i]);
                    } else {
                        assert(t[i] == b[i - a.len()]);
                    }
                }
            },
            None => {},
        }
    };
    if l.contains(MatchLabel::Event) {
        let k = choose|k: int| 0 <= k < l.len() && l[k] == MatchLabel::Event;
        if k < t.len() {
            assert(l[k] == t[k]);
        } else if k >= t.len() + ev.len() {
            if k < t.len() + ev.len() + c.len() {
                assert(l[k] == c[k - t.len() - ev.len()]);
            } else {
                assert(l[k] == u[k - t.len() - ev.len() - c.len()]);
            }
        }
        assert(ev.len() > 0);
    }
    if event_overlaps(fm.event->0, start, end) {
        assert(l[t.len() as int] == MatchLabel::Event);
    }
    let e = fm.event->0;
    if !((forall|r: Date, es: Timestamp| end == Some(r) && e.start == Some(es) ==> es.date.days <= r.days)) {
        let (r, es) = choose|r: Date, es: Timestamp| !(end == Some(r) && e.start == Some(es) ==> es.date.days <= r.days);
        assert(!event_overlaps(e, start, end));
    }
    if !(forall|s: Date, ee: Timestamp| start == Some(s) && e.end == Some(ee) ==> ee.date.days >= s.days) {
        let (s2, ee) = choose|s: Date, ee: Timestamp| !(start == Some(s) && e.end == Some(ee) ==> ee.date.days >= s.days);
        assert(!event_overlaps(e, start, end));
    }
}

/// Whether the date of `date` lies in the inclusive range.
pub fn date_in_range(date: Date, start: Option<Date>, end: Option<Date>) -> (r: bool)
    ensures
        r == date.in_range(start, end),
{
    date.is_in_range(start, end)
}

fn opt_ts_in_range(t: Option<Timestamp>, start: Option<Date>, end: Option<Date>) -> (r: bool)
    ensures
        r == opt_in_range(t, start, end),
{
    match t {
        Some(x) => date_in_range(x.date, start, end),
        None => false,
    }
}

/// Whether a task status closes the task.
pub fn status_is_inactive(status: &Option<String>) -> (r: bool)
    ensures
        r == is_inactive_status(match *status {
            Some(s) => Some(s@),
            None => None,
        }),
{
    match status {
        Some(s) => str_eq(s.as_str(), "done") || str_eq(s.as_str(), "cancelled") || str_eq(
            s.as_str(),
            "archived",
        ),
        None => false,
    }
}

/// Computes the labels that explain why `entry` matches the date range.
///
/// - Active task (not done/cancelled/archived) → TODO
/// - Inactive task with due in range → TODO
/// - Inactive task with closed_at in range → CLOSED
/// - Event overlapping with range → EVENT
/// - created_at in range → CREATED
/// - updated_at in range → UPDATED
pub fn compute_labels(entry: &Entry, start: Option<Date>, end: Option<Date>) -> (r: Vec<MatchLabel>)
    ensures
        r@ == spec_labels(entry.frontmatter@, start, end),
{
    let fm = &entry.frontmatter;
    let mut labels: Vec<MatchLabel> = Vec::new();
    match &fm.task {
        Some(task) => {
            if !status_is_inactive(&task.status) {
                labels.push(MatchLabel::Todo);
            } else {
                if opt_ts_in_range(task.due, start, end) {
                    labels.push(MatchLabel::Todo);
                }
                if opt_ts_in_range(task.closed_at, start, end) {
                    labels.push(MatchLabel::Closed);
                }
            }
        },
        None => {},
    }
    assert(labels@ =~= task_labels(fm@.task, start, end));
    match &fm.event {
        Some(event) => {
            let overlaps_end = match end {
                Some(re) => match event.start {
                    Some(es) => es.date.days <= re.days,
                    None => true,
                },
                None => true,
            };
            let overlaps_start = match start {
                Some(rs) => match event.end {
                    Some(ee) => ee.date.days >= rs.days,
                    None => true,
                },
                None => true,
            };
            if overlaps_end && overlaps_start {
                labels.push(MatchLabel::Event);
            }
        },
        None => {},
    }
    if opt_ts_in_range(fm.created_at, start, end) {
        labels.push(MatchLabel::Created);
    }
    if opt_ts_in_range(fm.updated_at, start, end) {
        labels.push(MatchLabel::Updated);
    }
    assert(labels@ =~= spec_labels(fm@, start, end));
    labels
}

/// An entry chosen for a listing: its position in the input and the labels
/// that explain the match.
pub struct Selected {
    pub index: usize,
    pub labels: Vec<MatchLabel>,
}

/// A range is given when either bound is present.
pub open spec fn has_filter(start: Option<Date>, end: Option<Date>) -> bool {
    start is Some || end is Some
}

/// The selection among the first `n` entries: without a range every entry
/// with no labels; with a range every entry that has a label, with its
/// labels.
pub open spec fn spec_selection(entries: Seq<Entry>, n: int, start: Option<Date>, end: Option<Date>) -> Seq<(int, Seq<MatchLabel>)>
    decreases n,
{
    if n <= 0 {
        Seq::empty()
    } else {
        let prev = spec_selection(entries, n - 1, start, end);
        let labels = spec_labels(entries[n - 1].frontmatter@, start, end);
        if !has_filter(start, end) {
            prev.push((n - 1, Seq::empty()))
        } else if labels.len() > 0 {
            prev.push((n - 1, labels))
        } else {
            prev
        }
    }
}

pub open spec fn selected_view(s: Seq<Selected>) -> Seq<(int, Seq<MatchLabel>)> {
    s.map_values(|x: Selected| (x.index as int, x.labels@))
}

/// Chooses the entries to list: all of them when no range is given,
/// otherwise those with at least one match label, keeping input order.
pub fn select_entries(entries: &Vec<Entry>, start: Option<Date>, end: Option<Date>) -> (r: Vec<Selected>)
    ensures
        selected_view(r@) == spec_selection(entries@, entries@.len() as int, start, end),
{
    let filtered = start.is_some() || end.is_some();
    let mut out: Vec<Selected> = Vec::new();
    let mut i: usize = 0;
    while i < entries.len()
        invariant
            i <= entries@.len(),
            filtered == has_filter(start, end),
            selected_view(out@) == spec_selection(entries@, i as int, start, end),
        decreases entries@.len() - i,
    {
        let ghost before = out@;
        if filtered {
            let labels = compute_labels(&entries[i], start, end);
            if labels.len() > 0 {
                out.push(Selected { index: i, labels });
                assert(selected_view(out@) =~= selected_view(before).push((i as int, spec_labels(entries@[i as int].frontmatter@, start, end))));
            }
        } else {
            out.push(Selected { index: i, labels: Vec::new() });
            assert(selected_view(out@) =~= selected_view(before).push((i as int, Seq::empty())));
        }
        i += 1;
    }
    out
}

/// One row of the entry table.
pub struct TableRow {
    pub id: String,
    pub status: String,
    pub title: String,
}

/// The id column: the identifier's text, or empty.
pub open spec fn row_id(id: Option<u64>) -> Seq<char> {
    match id {
        Some(v) => id_text(v),
        None => Seq::empty(),
    }
}

/// The status column: the match labels joined by `,` when a range is
/// given, otherwise the task status (empty when there is none).
pub open spec fn row_status(fm: FrontmatterModel, labels: Seq<MatchLabel>, filtered: bool) -> Seq<char> {
    if filtered {
        seq_join(labels.map_values(|l: MatchLabel| match_label_name(l)), ","@)
    } else {
        match fm.task {
            Some(t) => match t.status {
                Some(s) => s,
                None => Seq::empty(),
            },
            None => Seq::empty(),
        }
    }
}

/// Builds the table row of a listed entry.
pub fn table_row(entry: &Entry, labels: &Vec<MatchLabel>, filtered: bool) -> (r: TableRow)
    ensures
        r.id@ == row_id(entry.frontmatter.id),
        r.status@ == row_status(entry.frontmatter@, labels@, filtered),
        r.title@ == spec_entry_title(entry.frontmatter@.title, entry.path@),
{
    let id = match entry.id() {
        Some(v) => id_to_string(v),
        None => String::new(),
    };
    let status = if filtered {
        let mut names: Vec<String> = Vec::new();
        let mut i: usize = 0;
        while i < labels.len()
            invariant
                i <= labels@.len(),
                names@.map_values(|s: String| s@) == labels@.subrange(0, i as int).map_values(|l: MatchLabel| match_label_name(l)),
            decreases labels@.len() - i,
        {
            let ghost prev = names@;
            let name = labels[i].as_str().to_owned();
            assert(name@ == match_label_name(labels@[i as int]));
            names.push(name);
            proof {
                let a = names@.map_values(|s: String| s@);
                let b = labels@.subrange(0, i + 1).map_values(|l: MatchLabel| match_label_name(l));
                assert(prev.map_values(|s: String| s@).len() == labels@.subrange(0, i as int).map_values(|l: MatchLabel| match_label_name(l)).len());
                assert(prev.len() == i);
                assert(names@.len() == i + 1);
                assert(a.len() == b.len());
                assert forall|k: int| 0 <= k < a.len() implies a[k] == b[k] by {
                    if k < i {
                        assert(prev.map_values(|s: String| s@)[k] == labels@.subrange(0, i as int).map_values(|l: MatchLabel| match_label_name(l))[k]);
                    }
                };
                assert(a =~= b);
            }
            i += 1;
        }
        assert(labels@.subrange(0, labels@.len() as int) =~= labels@);
        let joined = join_strings(&names, ",");
        string_from_chars(&joined)
    } else {
        match &entry.frontmatter.task {
            Some(t) => match &t.status {
                Some(s) => copy_string(s),
                None => String::new(),
            },
            None => String::new(),
        }
    };
    TableRow { id, status, title: entry.title() }
}

/// Number of UTF-8 bytes of a character sequence.
pub fn utf8_length(v: &Vec<char>) -> (r: u128)
    ensures
        r == utf8_len(v@),
{
    let mut total: u128 = 0;
    let mut i: usize = 0;
    while i < v.len()
        invariant
            i <= v@.len(),
            total == utf8_len(v@.subrange(0, i as int)),
            total <= 4 * i,
        decreases v@.len() - i,
    {
        let u = v[i] as u32;
        let n: u128 = if u < 0x80 {
            1
        } else if u < 0x800 {
            2
        } else if u < 0x10000 {
            3
        } else {
            4
        };
        assert(v@.subrange(0, i + 1).drop_last() =~= v@.subrange(0, i as int));
        total = total + n;
        i += 1;
    }
    assert(v@.subrange(0, v@.len() as int) =~= v@);
    total
}

/// `s` followed by spaces up to `width` characters.
pub open spec fn pad_right(s: Seq<char>, width: int) -> Seq<char> {
    if s.len() >= width {
        s
    } else {
        s + Seq::new((width - s.len()) as nat, |i: int| ' ')
    }
}

/// Largest UTF-8 byte length among the column values (0 for no values).
pub open spec fn max_width(cols: Seq<Seq<char>>) -> nat
    decreases cols.len(),
{
    if cols.len() == 0 {
        0
    } else {
        let m = max_width(cols.drop_last());
        let w = utf8_len(cols.last());
        if w > m {
            w
        } else {
            m
        }
    }
}

pub open spec fn row_ids(rows: Seq<TableRow>) -> Seq<Seq<char>> {
    rows.map_values(|r: TableRow| r.id@)
}

pub open spec fn row_statuses(rows: Seq<TableRow>) -> Seq<Seq<char>> {
    rows.map_values(|r: TableRow| r.status@)
}

/// A table line: id and status left-aligned to their column widths, then
/// the title, separated by two spaces.
pub open spec fn table_line(row: TableRow, id_w: int, status_w: int) -> Seq<char> {
    pad_right(row.id@, id_w) + "  "@ + pad_right(row.status@, status_w) + "  "@ + row.title@
}

fn pad_into(out: &mut Vec<char>, s: &Vec<char>, width: u128)
    ensures
        final(out)@ == old(out)@ + pad_right(s@, width as int),
{
    push_all(out, s);
    let len = s.len() as u128;
    if len < width {
        let ghost base = out@;
        let mut k: u128 = len;
        while k < width
            invariant
                len <= k <= width,
                len == s@.len(),
                out@ == base + Seq::new((k - len) as nat, |i: int| ' '),
            decreases width - k,
        {
            out.push(' ');
            k += 1;
            assert(out@ =~= base + Seq::new((k - len) as nat, |i: int| ' '));
        }
        assert(old(out)@ + pad_right(s@, width as int) =~= base + Seq::new((width - len) as nat, |i: int| ' '));
    } else {
        assert(pad_right(s@, width as int) == s@);
    }
}

fn column_width(rows: &Vec<TableRow>, ids: bool) -> (r: u128)
    ensures
        r == max_width(if ids { row_ids(rows@) } else { row_statuses(rows@) }),
{
    let ghost cols = if ids { row_ids(rows@) } else { row_statuses(rows@) };
    let mut m: u128 = 0;
    let mut i: usize = 0;
    while i < rows.len()
        invariant
            i <= rows@.len(),
            cols == (if ids { row_ids(rows@) } else { row_statuses(rows@) }),
            cols.len() == rows@.len(),
            m == max_width(cols.subrange(0, i as int)),
        decreases rows@.len() - i,
    {
        let v = if ids {
            str_chars(rows[i].id.as_str())
        } else {
            str_chars(rows[i].status.as_str())
        };
        let w = utf8_length(&v);
        assert(cols.subrange(0, i + 1).drop_last() =~= cols.subrange(0, i as int));
        assert(cols.subrange(0, i + 1).last() == v@);
        if w > m {
            m = w;
        }
        i += 1;
    }
    assert(cols.subrange(0, rows@.len() as int) =~= cols);
    m
}

/// Lays out the rows as text lines: each column as wide as its widest
/// value counted in UTF-8 bytes, padded with spaces counted in characters.
pub fn format_table(rows: &Vec<TableRow>) -> (r: Vec<String>)
    ensures
        r@.len() == rows@.len(),
        forall|i: int| 0 <= i < rows@.len() ==> #[trigger] r@[i]@ == table_line(
            rows@[i],
            max_width(row_ids(rows@)) as int,
            max_width(row_statuses(rows@)) as int,
        ),
{
    let id_w = column_width(rows, true);
    let status_w = column_width(rows, false);
    let mut lines: Vec<String> = Vec::new();
    let mut i: usize = 0;
    while i < rows.len()
        invariant
            i <= rows@.len(),
            lines@.len() == i,
            id_w == max_width(row_ids(rows@)),
            status_w == max_width(row_statuses(rows@)),
            forall|j: int| 0 <= j < i ==> #[trigger] lines@[j]@ == table_line(rows@[j], id_w as int, status_w as int),
        decreases rows@.len() - i,
    {
        let row = &rows[i];
        let mut line: Vec<char> = Vec::new();
        pad_into(&mut line, &str_chars(row.id.as_str()), id_w);
        push_str(&mut line, "  ");
        pad_into(&mut line, &str_chars(row.status.as_str()), status_w);
        push_str(&mut line, "  ");
        push_str(&mut line, row.title.as_str());
        assert(line@ =~= table_line(*row, id_w as int, status_w as int));
        lines.push(string_from_chars(&line));
        i += 1;
    }
    lines
}

} // verus!
