//! Status flags for entry types and freshness.
//!
//! Flags are computed from an entry's frontmatter (task status, event
//! presence, timestamps). [`EntryFlag::Stale`] and [`EntryFlag::Hidden`] are
//! orthogonal to the type/freshness slots and are appended after them.
use vstd::prelude::*;

use crate::clock::{clock_reading, local_now};
use crate::entry::{EventMetaView, TaskMetaView};
use crate::text::str_eq;
use crate::time::{Span, Timestamp, MIN_DAYS, NANOS_PER_SEC};

verus! {

/// A computed flag describing an entry's type or freshness state.
#[derive(Debug, Clone, Copy, PartialEq, Eq, Structural)]
pub enum EntryFlag {
    // Freshness / urgency (slot 1)
    Overdue,
    New,
    Updated,
    // Entry type (slot 2)
    Event,
    /// Past event whose `end` is before the current time.
    EventClosed,
    Done,
    Cancelled,
    InProgress,
    Archived,
    Open,
    Note,
    // Orthogonal flags
    /// Incomplete task (`closed_at` absent) not updated for the configured time.
    Stale,
    /// Entry explicitly marked hidden.
    Hidden,
}

/// The machine-readable name of a flag.
pub open spec fn flag_name(f: EntryFlag) -> Seq<char> {
    match f {
        EntryFlag::Overdue => "overdue"@,
        EntryFlag::New => "new"@,
        EntryFlag::Updated => "updated"@,
        EntryFlag::Event => "event"@,
        EntryFlag::EventClosed => "event_closed"@,
        EntryFlag::Done => "done"@,
        EntryFlag::Cancelled => "cancelled"@,
        EntryFlag::InProgress => "in_progress"@,
        EntryFlag::Archived => "archived"@,
        EntryFlag::Open => "open"@,
        EntryFlag::Note => "note"@,
        EntryFlag::Stale => "stale"@,
        EntryFlag::Hidden => "hidden"@,
    }
}

/// The emoji shown for a flag.
pub open spec fn flag_emoji(f: EntryFlag) -> Seq<char> {
    match f {
        EntryFlag::Overdue => "⏰"@,
        EntryFlag::New => "🆕"@,
        EntryFlag::Updated => "✏️"@,
        EntryFlag::Event => "📅"@,
        EntryFlag::EventClosed => "🗓️"@,
        EntryFlag::Done => "✅"@,
        EntryFlag::Cancelled => "❌"@,
        EntryFlag::InProgress => "🔄"@,
        EntryFlag::Archived => "📦"@,
        EntryFlag::Open => "⬜"@,
        EntryFlag::Note => "📝"@,
        EntryFlag::Stale => "🕰️"@,
        EntryFlag::Hidden => "🙈"@,
    }
}

/// The Nerd Font glyph shown for a flag.
pub open spec fn flag_nerd(f: EntryFlag) -> Seq<char> {
    match f {
        EntryFlag::Overdue => "󱦟"@,
        EntryFlag::New => "󰐕"@,
        EntryFlag::Updated => "󰏫"@,
        EntryFlag::Event => "󰃭"@,
        EntryFlag::EventClosed => "󰄻"@,
        EntryFlag::Done => "󰄲"@,
        EntryFlag::Cancelled => "󰜺"@,
        EntryFlag::InProgress => "󰔛"@,
        EntryFlag::Archived => "󰀼"@,
        EntryFlag::Open => "󰄱"@,
        EntryFlag::Note => "󰈙"@,
        EntryFlag::Stale => "󰔚"@,
        EntryFlag::Hidden => "󰈈"@,
    }
}

/// The one-character initial shown for a flag.
pub open spec fn flag_initial(f: EntryFlag) -> char {
    match f {
        EntryFlag::Overdue => '!',
        EntryFlag::New => '+',
        EntryFlag::Updated => '~',
        EntryFlag::Event => 'E',
        EntryFlag::EventClosed => 'e',
        EntryFlag::Done => 'D',
        EntryFlag::Cancelled => 'C',
        EntryFlag::InProgress => 'I',
        EntryFlag::Archived => 'A',
        EntryFlag::Open => 'O',
        EntryFlag::Note => 'N',
        EntryFlag::Stale => 'S',
        EntryFlag::Hidden => 'H',
    }
}

impl EntryFlag {
    pub fn as_str(self) -> (r: &'static str)
        ensures
            r@ == flag_name(self),
    {
        match self {
            Self::Overdue => "overdue",
            Self::New => "new",
            Self::Updated => "updated",
            Self::Event => "event",
            Self::EventClosed => "event_closed",
            Self::Done => "done",
            Self::Cancelled => "cancelled",
            Self::InProgress => "in_progress",
            Self::Archived => "archived",
            Self::Open => "open",
            Self::Note => "note",
            Self::Stale => "stale",
            Self::Hidden => "hidden",
        }
    }

    pub fn to_emoji(self) -> (r: &'static str)
        ensures
            r@ == flag_emoji(self),
    {
        match self {
            Self::Overdue => "⏰",
            Self::New => "🆕",
            Self::Updated => "✏️",
            Self::Event => "📅",
            Self::EventClosed => "🗓️",
            Self::Done => "✅",
            Self::Cancelled => "❌",
            Self::InProgress => "🔄",
            Self::Archived => "📦",
            Self::Open => "⬜",
            Self::Note => "📝",
            Self::Stale => "🕰️",
            Self::Hidden => "🙈",
        }
    }

    pub fn to_nerd(self) -> (r: &'static str)
        ensures
            r@ == flag_nerd(self),
    {
        match self {
            Self::Overdue => "󱦟",
            Self::New => "󰐕",
            Self::Updated => "󰏫",
            Self::Event => "󰃭",
            Self::EventClosed => "󰄻",
            Self::Done => "󰄲",
            Self::Cancelled => "󰜺",
            Self::InProgress => "󰔛",
            Self::Archived => "󰀼",
            Self::Open => "󰄱",
            Self::Note => "󰈙",
            Self::Stale => "󰔚",
            Self::Hidden => "󰈈",
        }
    }

    pub fn to_initial(self) -> (r: char)
        ensures
            r == flag_initial(self),
    {
        match self {
            Self::Overdue => '!',
            Self::New => '+',
            Self::Updated => '~',
            Self::Event => 'E',
            Self::EventClosed => 'e',
            Self::Done => 'D',
            Self::Cancelled => 'C',
            Self::InProgress => 'I',
            Self::Archived => 'A',
            Self::Open => 'O',
            Self::Note => 'N',
            Self::Stale => 'S',
            Self::Hidden => 'H',
        }
    }
}

/// The canonical flag string for a task status: synonyms are folded and any
/// unrecognised status counts as `open`.
pub open spec fn status_label(status: Seq<char>) -> Seq<char> {
    if status == "done"@ || status == "completed"@ {
        "done"@
    } else if status == "cancelled"@ || status == "canceled"@ {
        "cancelled"@
    } else if status == "in_progress"@ || status == "wip"@ {
        "in_progress"@
    } else if status == "archived"@ {
        "archived"@
    } else {
        "open"@
    }
}

/// Returns the canonical flag string for a task status string.
pub fn task_status_label(status: &str) -> (r: &'static str)
    ensures
        r@ == status_label(status@),
{
    if str_eq(status, "done") || str_eq(status, "completed") {
        "done"
    } else if str_eq(status, "cancelled") || str_eq(status, "canceled") {
        "cancelled"
    } else if str_eq(status, "in_progress") || str_eq(status, "wip") {
        "in_progress"
    } else if str_eq(status, "archived") {
        "archived"
    } else {
        "open"
    }
}

/// The type flag for a task with the given status.
pub open spec fn status_flag(status: Seq<char>) -> EntryFlag {
    let l = status_label(status);
    if l == "done"@ {
        EntryFlag::Done
    } else if l == "cancelled"@ {
        EntryFlag::Cancelled
    } else if l == "in_progress"@ {
        EntryFlag::InProgress
    } else if l == "archived"@ {
        EntryFlag::Archived
    } else {
        EntryFlag::Open
    }
}

/// An incomplete task (`closed_at` absent) whose `updated_at` lies at least
/// `stale_after` before `now`. Events and notes (no task) are never stale.
pub open spec fn stale_at(
    task: Option<&TaskMetaView>,
    updated_at: Timestamp,
    stale_after: Span,
    now: Timestamp,
) -> bool {
    &&& task matches Some(t) && t.closed_at is None
    &&& now.nanos_since(updated_at) >= stale_after.total_nanos()
}

/// A task that is still open after its due time.
pub open spec fn overdue_at(task: Option<&TaskMetaView>, now: Timestamp) -> bool {
    task matches Some(t) && (t.due matches Some(due) && due.precedes(now)) && t.closed_at is None
}

/// Nanoseconds in 24 hours.
pub open spec fn day_nanos() -> int {
    86_400_000_000_000
}

/// The freshness slot: `Overdue`; else `New` when created less than 24 hours
/// before `now`; else `Updated` when updated less than 24 hours before;
/// else nothing.
pub open spec fn freshness_slot(
    task: Option<&TaskMetaView>,
    created_at: Timestamp,
    updated_at: Timestamp,
    now: Timestamp,
) -> Seq<EntryFlag> {
    if overdue_at(task, now) {
        seq![EntryFlag::Overdue]
    } else {
        if now.nanos_since(created_at) < day_nanos() {
            seq![EntryFlag::New]
        } else if now.nanos_since(updated_at) < day_nanos() {
            seq![EntryFlag::Updated]
        } else {
            Seq::empty()
        }
    }
}

/// The type slot: an event (closed once its end has passed), else the task
/// status flag, else `Note`.
pub open spec fn type_flag(
    task: Option<&TaskMetaView>,
    event: Option<&EventMetaView>,
    now: Timestamp,
) -> EntryFlag {
    match event {
        Some(ev) => if ev.end.precedes(now) {
            EntryFlag::EventClosed
        } else {
            EntryFlag::Event
        },
        None => match task {
            Some(t) => status_flag(t.status@),
            None => EntryFlag::Note,
        },
    }
}

/// The flags of an entry at time `now`: freshness slot, type slot, then
/// `Stale` and `Hidden` when they apply.
pub open spec fn flags_at(
    task: Option<&TaskMetaView>,
    event: Option<&EventMetaView>,
    hidden: bool,
    created_at: Timestamp,
    updated_at: Timestamp,
    stale_after: Span,
    now: Timestamp,
) -> Seq<EntryFlag> {
    freshness_slot(task, created_at, updated_at, now) + seq![type_flag(task, event, now)] + (if stale_at(
        task,
        updated_at,
        stale_after,
        now,
    ) {
        seq![EntryFlag::Stale]
    } else {
        Seq::empty()
    }) + (if hidden {
        seq![EntryFlag::Hidden]
    } else {
        Seq::empty()
    })
}

/// Whether a task is stale at time `now`.
pub fn is_stale_at(
    task: Option<&TaskMetaView>,
    updated_at: Timestamp,
    stale_after: Span,
    now: Timestamp,
) -> (r: bool)
    ensures
        r == stale_at(task, updated_at, stale_after, now),
{
    let incomplete_task = match task {
        Some(t) => t.closed_at.is_none(),
        None => false,
    };
    incomplete_task && now.elapsed_at_least(&updated_at, &stale_after)
}

/// Whether a task is stale now: incomplete and not updated for at least
/// `stale_after`.
pub fn is_stale(task: Option<&TaskMetaView>, updated_at: Timestamp, stale_after: Span) -> (r: bool)
    ensures
        exists|now: Timestamp| clock_reading(now) && r == stale_at(task, updated_at, stale_after, now),
        r ==> (task matches Some(t) && t.closed_at is None),
{
    let now = local_now();
    is_stale_at(task, updated_at, stale_after, now)
}

/// The task-status flag for a task.
fn task_type_flag(task: &TaskMetaView) -> (r: EntryFlag)
    ensures
        r == status_flag(task.status@),
{
    let l = task_status_label(task.status.as_str());
    proof {
        reveal_strlit("done");
        reveal_strlit("cancelled");
        reveal_strlit("in_progress");
        reveal_strlit("archived");
    }
    if str_eq(l, "done") {
        EntryFlag::Done
    } else if str_eq(l, "cancelled") {
        EntryFlag::Cancelled
    } else if str_eq(l, "in_progress") {
        EntryFlag::InProgress
    } else if str_eq(l, "archived") {
        EntryFlag::Archived
    } else {
        EntryFlag::Open
    }
}

/// The computed flags of an entry at time `now`.
pub fn entry_flags_at(
    task: Option<&TaskMetaView>,
    event: Option<&EventMetaView>,
    hidden: bool,
    created_at: Timestamp,
    updated_at: Timestamp,
    stale_after: Span,
    now: Timestamp,
) -> (r: Vec<EntryFlag>)
    ensures
        r@ == flags_at(task, event, hidden, created_at, updated_at, stale_after, now),
{
    let mut flags: Vec<EntryFlag> = Vec::new();
    let is_overdue = match task {
        Some(t) => match t.due {
            Some(due) => due.is_before(&now) && t.closed_at.is_none(),
            None => false,
        },
        None => false,
    };
    if is_overdue {
        flags.push(EntryFlag::Overdue);
    } else {
        let day = Span::hours(24);
        if !now.elapsed_at_least(&created_at, &day) {
            flags.push(EntryFlag::New);
        } else if !now.elapsed_at_least(&updated_at, &day) {
            flags.push(EntryFlag::Updated);
        }
    }
    assert(flags@ =~= freshness_slot(task, created_at, updated_at, now));
    let ty = match event {
        Some(ev) => if ev.end.is_before(&now) {
            EntryFlag::EventClosed
        } else {
            EntryFlag::Event
        },
        None => match task {
            Some(t) => task_type_flag(t),
            None => EntryFlag::Note,
        },
    };
    flags.push(ty);
    if is_stale_at(task, updated_at, stale_after, now) {
        flags.push(EntryFlag::Stale);
    }
    if hidden {
        flags.push(EntryFlag::Hidden);
    }
    assert(flags@ =~= flags_at(task, event, hidden, created_at, updated_at, stale_after, now));
    flags
}

/// The computed flags of an entry now.
pub fn entry_flags(
    task: Option<&TaskMetaView>,
    event: Option<&EventMetaView>,
    hidden: bool,
    created_at: Timestamp,
    updated_at: Timestamp,
    stale_after: Span,
) -> (r: Vec<EntryFlag>)
    ensures
        exists|now: Timestamp|
            clock_reading(now) && r@ == flags_at(task, event, hidden, created_at, updated_at, stale_after, now),
{
    let now = local_now();
    entry_flags_at(task, event, hidden, created_at, updated_at, stale_after, now)
}

/// Flags that describe the entry type (the second slot).
pub open spec fn is_type_flag(f: EntryFlag) -> bool {
    match f {
        EntryFlag::Event | EntryFlag::EventClosed | EntryFlag::Done | EntryFlag::Cancelled
        | EntryFlag::InProgress | EntryFlag::Archived | EntryFlag::Open | EntryFlag::Note => true,
        _ => false,
    }
}

/// Flags that describe freshness or urgency (the first slot).
pub open spec fn is_freshness_flag(f: EntryFlag) -> bool {
    match f {
        EntryFlag::Overdue | EntryFlag::New | EntryFlag::Updated => true,
        _ => false,
    }
}

/// Every entry carries exactly one type flag, at most one freshness flag
/// placed before it, and after it only `Stale` and `Hidden`: `Hidden`
/// exactly when the entry is hidden, `Stale` exactly when it is a stale
/// task.
pub proof fn lemma_flags_layout(
    task: Option<&TaskMetaView>,
    event: Option<&EventMetaView>,
    hidden: bool,
    created_at: Timestamp,
    updated_at: Timestamp,
    stale_after: Span,
    now: Timestamp,
)
    ensures
        ({
            let r = flags_at(task, event, hidden, created_at, updated_at, stale_after, now);
            let k = freshness_slot(task, created_at, updated_at, now).len() as int;
            &&& k <= 1
            &&& r.len() >= 1
            &&& is_type_flag(r[k])
            &&& forall|j: int| 0 <= j < r.len() && j != k ==> !is_type_flag(#[trigger] r[j])
            &&& forall|j: int| 0 <= j < k ==> is_freshness_flag(#[trigger] r[j])
            &&& forall|j: int| k < j < r.len() ==> (#[trigger] r[j] == EntryFlag::Stale || r[j] == EntryFlag::Hidden)
            &&& (r.contains(EntryFlag::Hidden) <==> hidden)
            &&& (r.contains(EntryFlag::Stale) <==> stale_at(task, updated_at, stale_after, now))
            &&& (r.contains(EntryFlag::Overdue) <==> overdue_at(task, now))
        }),
{
    let r = flags_at(task, event, hidden, created_at, updated_at, stale_after, now);
    let f = freshness_slot(task, created_at, updated_at, now);
    let k = f.len() as int;
    let ty = type_flag(task, event, now);
    reveal_strlit("done");
    reveal_strlit("cancelled");
    reveal_strlit("in_progress");
    reveal_strlit("archived");
    reveal_strlit("open");
    assert(is_type_flag(ty));
    assert(r[k] == ty);
    if hidden {
        assert(r[r.len() - 1] == EntryFlag::Hidden);
    }
    if stale_at(task, updated_at, stale_after, now) {
        assert(r[k + 1] == EntryFlag::Stale);
    }
    if overdue_at(task, now) {
        assert(r[0] == EntryFlag::Overdue);
    }
}

/// A task with `closed_at` set is never stale, whatever its age; neither is
/// an entry without a task.
pub proof fn lemma_closed_or_taskless_never_stale(
    task: Option<&TaskMetaView>,
    updated_at: Timestamp,
    stale_after: Span,
    now: Timestamp,
)
    requires
        task matches Some(t) ==> t.closed_at is Some,
    ensures
        !stale_at(task, updated_at, stale_after, now),
{
}

/// Without leap seconds, a task that is stale stays stale as time goes on.
/// (Elapsed time measured across a leap second does not add up, so a leap
/// second in any of the three instants can break this.)
pub proof fn lemma_stale_persists(
    task: Option<&TaskMetaView>,
    updated_at: Timestamp,
    stale_after: Span,
    now: Timestamp,
    later: Timestamp,
)
    requires
        updated_at.nanos < NANOS_PER_SEC,
        now.nanos < NANOS_PER_SEC,
        later.nanos < NANOS_PER_SEC,
        later.nanos_since(now) >= 0,
        stale_at(task, updated_at, stale_after, now),
    ensures
        stale_at(task, updated_at, stale_after, later),
{
    assert(later.nanos_since(updated_at) == later.nanos_since(now) + now.nanos_since(updated_at)) by (nonlinear_arith)
        requires
            updated_at.nanos < NANOS_PER_SEC,
            now.nanos < NANOS_PER_SEC,
            later.nanos < NANOS_PER_SEC,
    ;
}

/// Distinct flags have distinct names and distinct initials.
pub proof fn lemma_flag_names_distinct(a: EntryFlag, b: EntryFlag)
    requires
        a != b,
    ensures
        flag_name(a) != flag_name(b),
        flag_initial(a) != flag_initial(b),
{
    reveal_strlit("overdue");
    reveal_strlit("new");
    reveal_strlit("updated");
    reveal_strlit("event");
    reveal_strlit("event_closed");
    reveal_strlit("done");
    reveal_strlit("cancelled");
    reveal_strlit("in_progress");
    reveal_strlit("archived");
    reveal_strlit("open");
    reveal_strlit("note");
    reveal_strlit("stale");
    reveal_strlit("hidden");
    if flag_name(a) == flag_name(b) {
        assert(flag_name(a).len() == flag_name(b).len());
        assert(flag_name(a)[0] == flag_name(b)[0]);
        assert(flag_name(a)[1] == flag_name(b)[1]);
        assert(flag_name(a)[2] == flag_name(b)[2]);
    }
}

/// A task without an event gets the type flag of its status: `Done` for
/// `done` or `completed`, `Cancelled` for `cancelled` or `canceled`,
/// `InProgress` for `in_progress` or `wip`, `Archived` for `archived`, and
/// `Open` for any other status.
pub proof fn lemma_task_type_flag(task: &TaskMetaView, now: Timestamp)
    ensures
        ({
            let f = type_flag(Some(task), None, now);
            let st = task.status@;
            &&& (f == EntryFlag::Done <==> (st == "done"@ || st == "completed"@))
            &&& (f == EntryFlag::Cancelled <==> (st == "cancelled"@ || st == "canceled"@))
            &&& (f == EntryFlag::InProgress <==> (st == "in_progress"@ || st == "wip"@))
            &&& (f == EntryFlag::Archived <==> st == "archived"@)
            &&& (f == EntryFlag::Open <==> !(st == "done"@ || st == "completed"@ || st == "cancelled"@
                || st == "canceled"@ || st == "in_progress"@ || st == "wip"@ || st == "archived"@))
        }),
{
    lemma_status_label_canonical(task.status@);
    reveal_strlit("done");
    reveal_strlit("cancelled");
    reveal_strlit("in_progress");
    reveal_strlit("archived");
    reveal_strlit("open");
    let d = "done"@;
    let c = "cancelled"@;
    let p = "in_progress"@;
    let a = "archived"@;
    let o = "open"@;
    assert(d != c && d != p && d != a && d != o) by {
        assert(d.len() != c.len() && d.len() != p.len() && d.len() != a.len());
        assert(d[0] != o[0]);
    };
    assert(c != p && c != a && c != o) by {
        assert(c.len() != p.len() && c.len() != a.len() && c.len() != o.len());
    };
    assert(p != a && p != o) by {
        assert(p.len() != a.len() && p.len() != o.len());
    };
    assert(a != o) by {
        assert(a.len() != o.len());
    };
    let f = type_flag(Some(task), None, now);
    let l = status_label(task.status@);
    assert(f == status_flag(task.status@));
    assert(f == EntryFlag::Done <==> l == d);
    assert(f == EntryFlag::Cancelled <==> l == c);
    assert(f == EntryFlag::InProgress <==> l == p);
    assert(f == EntryFlag::Archived <==> l == a);
    assert(f == EntryFlag::Open <==> l == o);
    let st = task.status@;
    reveal_strlit("completed");
    reveal_strlit("canceled");
    reveal_strlit("wip");
    let cp = "completed"@;
    let cn = "canceled"@;
    let w = "wip"@;
    assert(c != cp) by {
        assert(c[1] != cp[1]);
    };
    assert(cn != d && cn != cp && w != d && w != cp && w != c && w != cn) by {
        assert(cn.len() != d.len() && cn.len() != cp.len() && w.len() != d.len() && w.len() != cp.len());
        assert(w.len() != c.len() && w.len() != cn.len());
    };
    assert(p != cp && p != cn) by {
        assert(p.len() != cp.len() && p.len() != cn.len());
    };
    assert(a != cp && a != cn && a != w) by {
        assert(a.len() != cp.len() && a[0] != cn[0] && a.len() != w.len());
    };
    assert(l == d <==> (st == "done"@ || st == "completed"@));
    assert(l == c <==> (st == "cancelled"@ || st == "canceled"@));
    assert(l == p <==> (st == "in_progress"@ || st == "wip"@));
    assert(l == a <==> st == "archived"@);
}

/// Status labelling folds every status onto one of the five canonical
/// labels, and a canonical label is its own label.
pub proof fn lemma_status_label_canonical(status: Seq<char>)
    ensures
        ({
            let l = status_label(status);
            l == "done"@ || l == "cancelled"@ || l == "in_progress"@ || l == "archived"@ || l == "open"@
        }),
        status_label(status_label(status)) == status_label(status),
{
    reveal_strlit("done");
    reveal_strlit("completed");
    reveal_strlit("cancelled");
    reveal_strlit("canceled");
    reveal_strlit("in_progress");
    reveal_strlit("wip");
    reveal_strlit("archived");
    reveal_strlit("open");
    let o = "open"@;
    assert(o != "done"@ && o != "completed"@) by {
        assert(o[0] != "done"@[0]);
        assert(o.len() != "completed"@.len());
    };
    assert(o != "cancelled"@ && o != "canceled"@ && o != "in_progress"@ && o != "wip"@ && o != "archived"@) by {
        assert(o.len() != "cancelled"@.len());
        assert(o.len() != "canceled"@.len());
        assert(o.len() != "in_progress"@.len());
        assert(o.len() != "wip"@.len());
        assert(o.len() != "archived"@.len());
    };
    let c = "cancelled"@;
    assert(c != "done"@ && c != "completed"@) by {
        assert(c.len() != "done"@.len());
        assert(c[1] != "completed"@[1]);
    };
    let p = "in_progress"@;
    assert(p != "done"@ && p != "completed"@ && p != "cancelled"@ && p != "canceled"@) by {
        assert(p.len() != "done"@.len());
        assert(p.len() != "completed"@.len());
        assert(p.len() != "cancelled"@.len());
        assert(p.len() != "canceled"@.len());
    };
    let a = "archived"@;
    assert(a != "done"@ && a != "completed"@ && a != "cancelled"@ && a != "canceled"@ && a != "in_progress"@ && a != "wip"@) by {
        assert(a.len() != "done"@.len());
        assert(a.len() != "completed"@.len());
        assert(a.len() != "cancelled"@.len());
        assert(a[0] != "canceled"@[0]);
        assert(a.len() != "in_progress"@.len());
        assert(a.len() != "wip"@.len());
    };
}

} // verus!
