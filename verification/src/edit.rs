//! Creating and updating frontmatter from user-supplied fields.
use vstd::prelude::*;

use crate::clock::{clock_reading, local_now};
use crate::entry::{
    EventMeta, EventModel, Frontmatter, FrontmatterModel, TaskMeta, TaskModel, opt_string_view,
    strings_view,
};
use crate::listing::{is_inactive_status, status_is_inactive};
use crate::text::copy_string;
use crate::time::Timestamp;

verus! {

/// Frontmatter fields shared between creating and updating an entry; an
/// absent field is left alone.
pub struct EntryFields {
    pub title: Option<String>,
    pub slug: Option<String>,
    /// Replacement tag list; present and empty clears all tags.
    pub tags: Option<Vec<String>>,
    pub task_due: Option<Timestamp>,
    pub task_status: Option<String>,
    pub task_closed_at: Option<Timestamp>,
    pub event_start: Option<Timestamp>,
    pub event_end: Option<Timestamp>,
}

/// Mathematical model of [`EntryFields`].
pub struct FieldsModel {
    pub title: Option<Seq<char>>,
    pub slug: Option<Seq<char>>,
    pub tags: Option<Seq<Seq<char>>>,
    pub task_due: Option<Timestamp>,
    pub task_status: Option<Seq<char>>,
    pub task_closed_at: Option<Timestamp>,
    pub event_start: Option<Timestamp>,
    pub event_end: Option<Timestamp>,
}

impl View for EntryFields {
    type V = FieldsModel;

    open spec fn view(&self) -> FieldsModel {
        FieldsModel {
            title: opt_string_view(self.title),
            slug: opt_string_view(self.slug),
            tags: match self.tags {
                Some(t) => Some(strings_view(t@)),
                None => None,
            },
            task_due: self.task_due,
            task_status: opt_string_view(self.task_status),
            task_closed_at: self.task_closed_at,
            event_start: self.event_start,
            event_end: self.event_end,
        }
    }
}

impl EntryFields {
    /// No field is given.
    pub fn is_empty(&self) -> (r: bool)
        ensures
            r == self@.is_empty(),
    {
        self.title.is_none() && self.slug.is_none() && self.tags.is_none() && self.task_due.is_none()
            && self.task_status.is_none() && self.task_closed_at.is_none() && self.event_start.is_none()
            && self.event_end.is_none()
    }
}

/// Why an update was refused.
#[derive(Debug, Clone, Copy, PartialEq, Eq, Structural)]
pub enum EditError {
    /// No field was given.
    NothingToUpdate,
}

impl FieldsModel {
    pub open spec fn touches_task(self) -> bool {
        self.task_due is Some || self.task_status is Some || self.task_closed_at is Some
    }

    pub open spec fn touches_event(self) -> bool {
        self.event_start is Some || self.event_end is Some
    }

    /// No field is given.
    pub open spec fn is_empty(self) -> bool {
        &&& self.title is None
        &&& self.slug is None
        &&& self.tags is None
        &&& !self.touches_task()
        &&& !self.touches_event()
    }
}

pub open spec fn or_keep<T>(new: Option<T>, old: Option<T>) -> Option<T> {
    match new {
        Some(v) => Some(v),
        None => old,
    }
}

/// The task after an update: due and status replaced when given; closing
/// statuses set `closed_at` to `now` unless it is already set or given; a
/// given `closed_at` wins.
pub open spec fn updated_task(old: TaskModel, f: FieldsModel, now: Timestamp) -> TaskModel {
    let due = or_keep(f.task_due, old.due);
    let status = or_keep(f.task_status, old.status);
    let auto_closed = match f.task_status {
        Some(s) => is_inactive_status(Some(s)) && old.closed_at is None && f.task_closed_at is None,
        None => false,
    };
    let closed_at = match f.task_closed_at {
        Some(c) => Some(c),
        None => if auto_closed {
            Some(now)
        } else {
            old.closed_at
        },
    };
    TaskModel { due, status, closed_at }
}

/// The frontmatter after an update with `f` at time `now`.
pub open spec fn spec_apply(fm: FrontmatterModel, f: FieldsModel, now: Timestamp) -> FrontmatterModel {
    FrontmatterModel {
        id: fm.id,
        title: or_keep(f.title, fm.title),
        slug: or_keep(f.slug, fm.slug),
        created_at: fm.created_at,
        updated_at: fm.updated_at,
        tags: match f.tags {
            Some(t) => t,
            None => fm.tags,
        },
        task: if f.touches_task() {
            let base = match fm.task {
                Some(t) => t,
                None => TaskModel { due: None, status: None, closed_at: None },
            };
            Some(updated_task(base, f, now))
        } else {
            fm.task
        },
        event: if f.touches_event() {
            let base = match fm.event {
                Some(e) => e,
                None => EventModel { start: None, end: None },
            };
            Some(EventModel { start: or_keep(f.event_start, base.start), end: or_keep(f.event_end, base.end) })
        } else {
            fm.event
        },
    }
}

/// The frontmatter of a new entry named `name`, created at `now`: the title
/// defaults to the name, tags to none; a task is recorded when a task field
/// is given (a closing status sets `closed_at` to `now` unless given), an
/// event when an event field is given.
pub open spec fn spec_new_frontmatter(name: Seq<char>, f: FieldsModel, now: Timestamp) -> FrontmatterModel {
    FrontmatterModel {
        id: None,
        title: Some(
            match f.title {
                Some(t) => t,
                None => name,
            },
        ),
        slug: f.slug,
        created_at: Some(now),
        updated_at: Some(now),
        tags: match f.tags {
            Some(t) => t,
            None => Seq::empty(),
        },
        task: if f.touches_task() {
            Some(
                TaskModel {
                    due: f.task_due,
                    status: f.task_status,
                    closed_at: match f.task_closed_at {
                        Some(c) => Some(c),
                        None => if is_inactive_status(f.task_status) {
                            Some(now)
                        } else {
                            None
                        },
                    },
                },
            )
        } else {
            None
        },
        event: if f.touches_event() {
            Some(EventModel { start: f.event_start, end: f.event_end })
        } else {
            None
        },
    }
}

/// Builds the frontmatter of a new entry at time `now`.
pub fn new_frontmatter_at(name: &str, fields: EntryFields, now: Timestamp) -> (r: Frontmatter)
    ensures
        r@ == spec_new_frontmatter(name@, fields@, now),
{
    let ghost f = fields@;
    let title = match fields.title {
        Some(t) => t,
        None => name.to_owned(),
    };
    let tags = match fields.tags {
        Some(t) => t,
        None => Vec::new(),
    };
    let touches_task = fields.task_due.is_some() || fields.task_status.is_some()
        || fields.task_closed_at.is_some();
    let task = if touches_task {
        let inactive = status_is_inactive(&fields.task_status);
        let closed_at = match fields.task_closed_at {
            Some(c) => Some(c),
            None => if inactive {
                Some(now)
            } else {
                None
            },
        };
        Some(TaskMeta { due: fields.task_due, status: fields.task_status, closed_at })
    } else {
        None
    };
    let event = if fields.event_start.is_some() || fields.event_end.is_some() {
        Some(EventMeta { start: fields.event_start, end: fields.event_end })
    } else {
        None
    };
    let r = Frontmatter {
        id: None,
        title: Some(title),
        slug: fields.slug,
        created_at: Some(now),
        updated_at: Some(now),
        tags,
        task,
        event,
    };
    assert(r@.tags =~= spec_new_frontmatter(name@, f, now).tags);
    r
}

/// Builds the frontmatter of a new entry now.
pub fn new_frontmatter(name: &str, fields: EntryFields) -> (r: Frontmatter)
    ensures
        exists|now: Timestamp| clock_reading(now) && r@ == spec_new_frontmatter(name@, fields@, now),
{
    let now = local_now();
    new_frontmatter_at(name, fields, now)
}

/// Updates frontmatter fields at time `now`; refuses when no field is given.
pub fn apply_fields_at(fm: Frontmatter, fields: EntryFields, now: Timestamp) -> (r: Result<
    Frontmatter,
    EditError,
>)
    ensures
        fields@.is_empty() <==> r is Err,
        r matches Ok(x) ==> x@ == spec_apply(fm@, fields@, now),
        r matches Err(e) ==> e == EditError::NothingToUpdate,
{
    let ghost f = fields@;
    let ghost old_fm = fm@;
    if fields.is_empty() {
        return Err(EditError::NothingToUpdate);
    }
    let mut fm = fm;
    if let Some(t) = fields.title {
        fm.title = Some(t);
    }
    if let Some(s) = fields.slug {
        fm.slug = Some(s);
    }
    if let Some(ts) = fields.tags {
        fm.tags = ts;
    }
    if fields.task_due.is_some() || fields.task_status.is_some() || fields.task_closed_at.is_some() {
        let base = match fm.task {
            Some(t) => t,
            None => TaskMeta { due: None, status: None, closed_at: None },
        };
        let ghost b = base@;
        let mut task = base;
        if let Some(d) = fields.task_due {
            task.due = Some(d);
        }
        let old_closed = task.closed_at;
        match fields.task_status {
            Some(s) => {
                let inactive = status_is_inactive(&Some(copy_string(&s)));
                task.status = Some(s);
                if inactive && old_closed.is_none() && fields.task_closed_at.is_none() {
                    task.closed_at = Some(now);
                }
            },
            None => {},
        }
        if let Some(ca) = fields.task_closed_at {
            task.closed_at = Some(ca);
        }
        assert(task@ == updated_task(b, f, now));
        fm.task = Some(task);
    }
    if fields.event_start.is_some() || fields.event_end.is_some() {
        let base = match fm.event {
            Some(e) => e,
            None => EventMeta { start: None, end: None },
        };
        let mut event = base;
        if let Some(s) = fields.event_start {
            event.start = Some(s);
        }
        if let Some(e) = fields.event_end {
            event.end = Some(e);
        }
        fm.event = Some(event);
    }
    assert(fm@.tags =~= spec_apply(old_fm, f, now).tags);
    Ok(fm)
}

/// Updates frontmatter fields now; refuses when no field is given.
pub fn apply_fields(fm: Frontmatter, fields: EntryFields) -> (r: Result<Frontmatter, EditError>)
    ensures
        fields@.is_empty() <==> r is Err,
        r matches Ok(x) ==> exists|now: Timestamp| clock_reading(now) && x@ == spec_apply(fm@, fields@, now),
{
    if fields.is_empty() {
        return Err(EditError::NothingToUpdate);
    }
    let now = local_now();
    apply_fields_at(fm, fields, now)
}

/// The frontmatter after it is written at time `now`: `updated_at` becomes
/// `now`, everything else stays.
pub open spec fn spec_stamped(fm: FrontmatterModel, now: Timestamp) -> FrontmatterModel {
    FrontmatterModel { updated_at: Some(now), ..fm }
}

/// Records a write of the entry at time `now`.
pub fn stamp_written_at(fm: &mut Frontmatter, now: Timestamp)
    ensures
        final(fm)@ == spec_stamped(old(fm)@, now),
{
    fm.updated_at = Some(now);
}

/// Records a write of the entry now: `updated_at` is stamped with the
/// current local time.
pub fn stamp_written(fm: &mut Frontmatter)
    ensures
        exists|now: Timestamp| clock_reading(now) && final(fm)@ == spec_stamped(old(fm)@, now),
{
    let now = local_now();
    stamp_written_at(fm, now);
}

/// An update writes every field it is given: the given title, slug and
/// tags replace the old ones, a given due date, status or close time ends
/// up in the task, and a given start or end ends up in the event.
pub proof fn lemma_apply_writes_given(fm: FrontmatterModel, f: FieldsModel, now: Timestamp)
    ensures
        ({
            let r = spec_apply(fm, f, now);
            &&& (f.title matches Some(x) ==> r.title == Some(x))
            &&& (f.slug matches Some(x) ==> r.slug == Some(x))
            &&& (f.tags matches Some(x) ==> r.tags == x)
            &&& (f.task_due matches Some(d) ==> r.task matches Some(t) && t.due == Some(d))
            &&& (f.task_status matches Some(st) ==> r.task matches Some(t) && t.status == Some(st))
            &&& (f.task_closed_at matches Some(c) ==> r.task matches Some(t) && t.closed_at == Some(c))
            &&& (f.event_start matches Some(x) ==> r.event matches Some(e) && e.start == Some(x))
            &&& (f.event_end matches Some(x) ==> r.event matches Some(e) && e.end == Some(x))
        }),
{
}

/// A new entry's frontmatter records what it is given: the given title or
/// else the entry's name, the given slug and tags (none by default), the
/// creation time as both created and updated time, a task exactly when a
/// task field is given, holding each given task field, and an event exactly
/// when an event field is given, holding the given start and end.
pub proof fn lemma_new_keeps_given(name: Seq<char>, f: FieldsModel, now: Timestamp)
    ensures
        ({
            let r = spec_new_frontmatter(name, f, now);
            &&& r.id is None
            &&& r.title == Some(if f.title is Some { f.title->0 } else { name })
            &&& r.slug == f.slug
            &&& (f.tags matches Some(x) ==> r.tags == x)
            &&& (f.tags is None ==> r.tags.len() == 0)
            &&& r.created_at == Some(now) && r.updated_at == Some(now)
            &&& (r.task is Some <==> (f.task_due is Some || f.task_status is Some || f.task_closed_at is Some))
            &&& (r.task matches Some(t) ==> t.due == f.task_due && t.status == f.task_status)
            &&& (f.task_closed_at matches Some(c) ==> r.task matches Some(t) && t.closed_at == Some(c))
            &&& (r.event is Some <==> (f.event_start is Some || f.event_end is Some))
            &&& (r.event matches Some(e) ==> e.start == f.event_start && e.end == f.event_end)
        }),
{
}

/// Applying the same update twice changes nothing more than applying it
/// once, whatever the time of the second application.
pub proof fn lemma_apply_idempotent(fm: FrontmatterModel, f: FieldsModel, now: Timestamp, later: Timestamp)
    ensures
        spec_apply(spec_apply(fm, f, now), f, later) == spec_apply(fm, f, now),
{
}

/// After an update that sets a closing status, the task has a close time.
pub proof fn lemma_closing_status_sets_closed_at(fm: FrontmatterModel, f: FieldsModel, now: Timestamp)
    requires
        is_inactive_status(f.task_status),
    ensures
        spec_apply(fm, f, now).task matches Some(t) && t.closed_at is Some,
        spec_new_frontmatter(Seq::empty(), f, now).task matches Some(t) && t.closed_at is Some,
{
}

/// An update leaves alone every part it is given no field for.
pub proof fn lemma_apply_keeps_untouched(fm: FrontmatterModel, f: FieldsModel, now: Timestamp)
    ensures
        f.title is None ==> spec_apply(fm, f, now).title == fm.title,
        f.slug is None ==> spec_apply(fm, f, now).slug == fm.slug,
        f.tags is None ==> spec_apply(fm, f, now).tags == fm.tags,
        !f.touches_task() ==> spec_apply(fm, f, now).task == fm.task,
        !f.touches_event() ==> spec_apply(fm, f, now).event == fm.event,
        spec_apply(fm, f, now).id == fm.id,
        spec_apply(fm, f, now).created_at == fm.created_at,
        spec_apply(fm, f, now).updated_at == fm.updated_at,
{
}

} // verus!
