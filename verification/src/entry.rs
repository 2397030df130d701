//! The data model: an entry is one Markdown file with optional frontmatter.
use vstd::prelude::*;

use crate::path::{file_stem, spec_file_stem};
use crate::text::copy_string;
use crate::time::Timestamp;

verus! {

/// Task-specific metadata.
///
/// Conventional `status` values: `open`, `in_progress`, `done`, `cancelled`,
/// `archived`. Any custom string is also accepted.
#[derive(Debug)]
pub struct TaskMeta {
    /// Due date/time.
    pub due: Option<Timestamp>,
    /// Task status.
    pub status: Option<String>,
    /// When the task was closed (status became done/cancelled/archived).
    pub closed_at: Option<Timestamp>,
}

/// Event-specific metadata.
#[derive(Debug)]
pub struct EventMeta {
    pub start: Option<Timestamp>,
    pub end: Option<Timestamp>,
}

/// Frontmatter metadata stored at the top of each `.md` file.
#[derive(Debug)]
pub struct Frontmatter {
    /// The entry's identifier, as the integer behind its 7-character text.
    pub id: Option<u64>,
    pub title: Option<String>,
    /// Optional slug override. If absent, the slug is derived from the filename.
    pub slug: Option<String>,
    /// When the entry was first created.
    pub created_at: Option<Timestamp>,
    /// When the entry was last written.
    pub updated_at: Option<Timestamp>,
    pub tags: Vec<String>,
    /// Present only when the entry represents a task.
    pub task: Option<TaskMeta>,
    /// Present only when the entry represents a calendar event.
    pub event: Option<EventMeta>,
}

/// A single entry: one Markdown file in the journal.
#[derive(Debug)]
pub struct Entry {
    /// Path of the source `.md` file.
    pub path: String,
    /// Parsed frontmatter; the default one when the file has none.
    pub frontmatter: Frontmatter,
    /// Raw Markdown body (everything after the frontmatter block).
    pub body: String,
}

/// The task metadata that status flags are computed from.
#[derive(Debug)]
pub struct TaskMetaView {
    pub due: Option<Timestamp>,
    pub status: String,
    pub started_at: Option<Timestamp>,
    pub closed_at: Option<Timestamp>,
}

/// The event metadata that status flags are computed from.
#[derive(Debug)]
pub struct EventMetaView {
    pub start: Timestamp,
    pub end: Timestamp,
}

/// Mathematical model of [`TaskMeta`].
pub struct TaskModel {
    pub due: Option<Timestamp>,
    pub status: Option<Seq<char>>,
    pub closed_at: Option<Timestamp>,
}

/// Mathematical model of [`EventMeta`].
pub struct EventModel {
    pub start: Option<Timestamp>,
    pub end: Option<Timestamp>,
}

/// Mathematical model of [`Frontmatter`].
pub struct FrontmatterModel {
    pub id: Option<u64>,
    pub title: Option<Seq<char>>,
    pub slug: Option<Seq<char>>,
    pub created_at: Option<Timestamp>,
    pub updated_at: Option<Timestamp>,
    pub tags: Seq<Seq<char>>,
    pub task: Option<TaskModel>,
    pub event: Option<EventModel>,
}

pub open spec fn opt_string_view(s: Option<String>) -> Option<Seq<char>> {
    match s {
        Some(v) => Some(v@),
        None => None,
    }
}

pub open spec fn strings_view(v: Seq<String>) -> Seq<Seq<char>> {
    v.map_values(|s: String| s@)
}

impl View for TaskMeta {
    type V = TaskModel;

    open spec fn view(&self) -> TaskModel {
        TaskModel { due: self.due, status: opt_string_view(self.status), closed_at: self.closed_at }
    }
}

impl View for EventMeta {
    type V = EventModel;

    open spec fn view(&self) -> EventModel {
        EventModel { start: self.start, end: self.end }
    }
}

pub open spec fn opt_task_view(t: Option<TaskMeta>) -> Option<TaskModel> {
    match t {
        Some(v) => Some(v@),
        None => None,
    }
}

pub open spec fn opt_event_view(e: Option<EventMeta>) -> Option<EventModel> {
    match e {
        Some(v) => Some(v@),
        None => None,
    }
}

impl View for Frontmatter {
    type V = FrontmatterModel;

    open spec fn view(&self) -> FrontmatterModel {
        FrontmatterModel {
            id: self.id,
            title: opt_string_view(self.title),
            slug: opt_string_view(self.slug),
            created_at: self.created_at,
            updated_at: self.updated_at,
            tags: strings_view(self.tags@),
            task: opt_task_view(self.task),
            event: opt_event_view(self.event),
        }
    }
}

/// The frontmatter of a file that has none.
pub open spec fn empty_frontmatter() -> FrontmatterModel {
    FrontmatterModel {
        id: None,
        title: None,
        slug: None,
        created_at: None,
        updated_at: None,
        tags: Seq::empty(),
        task: None,
        event: None,
    }
}

/// The title shown for an entry: the frontmatter title, else the file
/// stem of its path, else `(untitled)`.
pub open spec fn spec_entry_title(title: Option<Seq<char>>, path: Seq<char>) -> Seq<char> {
    match title {
        Some(t) => t,
        None => match spec_file_stem(path) {
            Some(stem) => stem,
            None => "(untitled)"@,
        },
    }
}

impl Frontmatter {
    /// Whether the frontmatter counts as empty; it never does.
    pub fn is_empty(&self) -> (r: bool)
        ensures
            !r,
    {
        false
    }

    /// The frontmatter of a file that has none.
    pub fn empty() -> (r: Frontmatter)
        ensures
            r@ == empty_frontmatter(),
    {
        let r = Frontmatter {
            id: None,
            title: None,
            slug: None,
            created_at: None,
            updated_at: None,
            tags: Vec::new(),
            task: None,
            event: None,
        };
        assert(r@.tags =~= Seq::<Seq<char>>::empty());
        r
    }
}

impl Default for Frontmatter {
    fn default() -> (r: Frontmatter)
        ensures
            r@ == empty_frontmatter(),
    {
        Frontmatter::empty()
    }
}

impl Entry {
    /// The identifier from the frontmatter.
    pub fn id(&self) -> (r: Option<u64>)
        ensures
            r == self.frontmatter.id,
    {
        self.frontmatter.id
    }

    /// The title: frontmatter title, then file stem, then `(untitled)`.
    pub fn title(&self) -> (r: String)
        ensures
            r@ == spec_entry_title(self.frontmatter@.title, self.path@),
    {
        match &self.frontmatter.title {
            Some(t) => copy_string(t),
            None => match file_stem(self.path.as_str()) {
                Some(stem) => stem,
                None => {
                    proof {
                        reveal_strlit("(untitled)");
                    }
                    "(untitled)".to_owned()
                },
            },
        }
    }
}

pub open spec fn opt_ts_wf(t: Option<Timestamp>) -> bool {
    t matches Some(x) ==> x.wf()
}

impl FrontmatterModel {
    /// Every date-time in the frontmatter is valid.
    pub open spec fn wf(self) -> bool {
        &&& opt_ts_wf(self.created_at)
        &&& opt_ts_wf(self.updated_at)
        &&& (self.task matches Some(t) ==> opt_ts_wf(t.due) && opt_ts_wf(t.closed_at))
        &&& (self.event matches Some(e) ==> opt_ts_wf(e.start) && opt_ts_wf(e.end))
    }
}

} // verus!
