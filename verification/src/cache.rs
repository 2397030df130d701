//! Decisions behind the machine-local entry cache: which files to re-read,
//! which rows to drop, and which row an identifier refers to.
use vstd::prelude::*;

use crate::calendar::{chrono_format_ymd_hm, format_ymd_hm};
use crate::entry::{Entry, FrontmatterModel, opt_string_view, strings_view};
use crate::error::Error;
use crate::text::copy_opt_string;
use crate::time::Timestamp;
use crate::id::{ID_LIMIT, caretta_id_parse, id_parse, id_text, id_to_string, lemma_id_parse_bound};
use crate::listing::utf8_length;
use crate::text::{chars_eq, chars_start_with, is_prefix, str_chars, utf8_len};

verus! {

/// A file and its modification time, on disk or as recorded in the cache.
pub struct FileStamp {
    pub path: String,
    pub mtime: i64,
}

/// What a sync has to do: re-read the disk files at `upsert`, drop the cache
/// rows at `delete`.
pub struct SyncPlan {
    pub upsert: Vec<usize>,
    pub delete: Vec<usize>,
}

pub open spec fn stamp_views(v: Seq<FileStamp>) -> Seq<(Seq<char>, i64)> {
    v.map_values(|s: FileStamp| (s.path@, s.mtime))
}

/// The modification time recorded for `path` (the first row for it).
pub open spec fn recorded_mtime(db: Seq<(Seq<char>, i64)>, path: Seq<char>) -> Option<i64>
    decreases db.len(),
{
    if db.len() == 0 {
        None
    } else if db[0].0 == path {
        Some(db[0].1)
    } else {
        recorded_mtime(db.drop_first(), path)
    }
}

/// A disk file must be re-read when the cache has no row for it or its
/// recorded time differs.
pub open spec fn needs_update(db: Seq<(Seq<char>, i64)>, path: Seq<char>, mtime: i64) -> bool {
    recorded_mtime(db, path) != Some(mtime)
}

/// `path` is among the disk files.
pub open spec fn on_disk(disk: Seq<(Seq<char>, i64)>, path: Seq<char>) -> bool {
    exists|i: int| 0 <= i < disk.len() && disk[i].0 == path
}

/// The disk files among the first `n` that must be re-read.
pub open spec fn upsert_set(disk: Seq<(Seq<char>, i64)>, db: Seq<(Seq<char>, i64)>, n: int) -> Seq<int>
    decreases n,
{
    if n <= 0 {
        Seq::empty()
    } else if needs_update(db, disk[n - 1].0, disk[n - 1].1) {
        upsert_set(disk, db, n - 1).push(n - 1)
    } else {
        upsert_set(disk, db, n - 1)
    }
}

/// The cache rows among the first `n` whose file is gone from disk.
pub open spec fn delete_set(disk: Seq<(Seq<char>, i64)>, db: Seq<(Seq<char>, i64)>, n: int) -> Seq<int>
    decreases n,
{
    if n <= 0 {
        Seq::empty()
    } else if !on_disk(disk, db[n - 1].0) {
        delete_set(disk, db, n - 1).push(n - 1)
    } else {
        delete_set(disk, db, n - 1)
    }
}

pub open spec fn index_views(v: Seq<usize>) -> Seq<int> {
    v.map_values(|k: usize| k as int)
}

fn stamp_path_eq(a: &FileStamp, b: &FileStamp) -> (r: bool)
    ensures
        r == (a.path@ == b.path@),
{
    let va = str_chars(a.path.as_str());
    let vb = str_chars(b.path.as_str());
    chars_eq(&va, &vb)
}

fn lookup_mtime(db: &Vec<FileStamp>, f: &FileStamp) -> (r: Option<i64>)
    ensures
        r == recorded_mtime(stamp_views(db@), f.path@),
{
    let ghost dv = stamp_views(db@);
    let mut i: usize = 0;
    assert(dv.subrange(0, dv.len() as int) =~= dv);
    while i < db.len()
        invariant
            i <= db@.len(),
            dv == stamp_views(db@),
            recorded_mtime(dv, f.path@) == recorded_mtime(dv.subrange(i as int, dv.len() as int), f.path@),
        decreases db@.len() - i,
    {
        let ghost t = dv.subrange(i as int, dv.len() as int);
        assert(t.drop_first() =~= dv.subrange(i + 1, dv.len() as int));
        assert(t[0] == (db@[i as int].path@, db@[i as int].mtime));
        if stamp_path_eq(&db[i], f) {
            return Some(db[i].mtime);
        }
        i += 1;
    }
    assert(dv.subrange(i as int, dv.len() as int).len() == 0);
    None
}

fn is_on_disk(disk: &Vec<FileStamp>, f: &FileStamp) -> (r: bool)
    ensures
        r == on_disk(stamp_views(disk@), f.path@),
{
    let ghost dv = stamp_views(disk@);
    let mut i: usize = 0;
    while i < disk.len()
        invariant
            i <= disk@.len(),
            dv == stamp_views(disk@),
            forall|j: int| 0 <= j < i ==> dv[j].0 != f.path@,
        decreases disk@.len() - i,
    {
        assert(dv[i as int] == (disk@[i as int].path@, disk@[i as int].mtime));
        if stamp_path_eq(&disk[i], f) {
            return true;
        }
        i += 1;
    }
    false
}

/// Plans a sync of the cache against the files on disk: every disk file
/// whose path is new or whose modification time changed is re-read, and
/// every cache row whose file is gone is dropped.
pub fn plan_sync(disk: &Vec<FileStamp>, db: &Vec<FileStamp>) -> (r: SyncPlan)
    ensures
        index_views(r.upsert@) == upsert_set(stamp_views(disk@), stamp_views(db@), disk@.len() as int),
        index_views(r.delete@) == delete_set(stamp_views(disk@), stamp_views(db@), db@.len() as int),
{
    let ghost kv = stamp_views(disk@);
    let ghost bv = stamp_views(db@);
    let mut upsert: Vec<usize> = Vec::new();
    let mut i: usize = 0;
    while i < disk.len()
        invariant
            i <= disk@.len(),
            kv == stamp_views(disk@),
            bv == stamp_views(db@),
            index_views(upsert@) == upsert_set(kv, bv, i as int),
        decreases disk@.len() - i,
    {
        let ghost before = index_views(upsert@);
        assert(kv[i as int] == (disk@[i as int].path@, disk@[i as int].mtime));
        let stored = lookup_mtime(db, &disk[i]);
        let changed = match stored {
            Some(m) => m != disk[i].mtime,
            None => true,
        };
        if changed {
            upsert.push(i);
            assert(index_views(upsert@) =~= before.push(i as int));
        }
        i += 1;
    }
    let mut delete: Vec<usize> = Vec::new();
    let mut j: usize = 0;
    while j < db.len()
        invariant
            j <= db@.len(),
            kv == stamp_views(disk@),
            bv == stamp_views(db@),
            index_views(delete@) == delete_set(kv, bv, j as int),
        decreases db@.len() - j,
    {
        let ghost before = index_views(delete@);
        assert(bv[j as int] == (db@[j as int].path@, db@[j as int].mtime));
        if !is_on_disk(disk, &db[j]) {
            delete.push(j);
            assert(index_views(delete@) =~= before.push(j as int));
        }
        j += 1;
    }
    SyncPlan { upsert, delete }
}

proof fn lemma_upsert_set_members(disk: Seq<(Seq<char>, i64)>, db: Seq<(Seq<char>, i64)>, n: int, i: int)
    requires
        0 <= i < n <= disk.len(),
    ensures
        upsert_set(disk, db, n).contains(i) <==> needs_update(db, disk[i].0, disk[i].1),
    decreases n,
{
    if i < n - 1 {
        lemma_upsert_set_members(disk, db, n - 1, i);
        lemma_upsert_set_bound(disk, db, n - 1);
        if needs_update(db, disk[n - 1].0, disk[n - 1].1) {
            let prev = upsert_set(disk, db, n - 1);
            assert(prev.push(n - 1).contains(i) <==> prev.contains(i)) by {
                let q = prev.push(n - 1);
                if q.contains(i) {
                    let k = choose|k: int| 0 <= k < q.len() && #[trigger] q[k] == i;
                    if k < prev.len() {
                        assert(prev[k] == i);
                    }
                }
                if prev.contains(i) {
                    let k = choose|k: int| 0 <= k < prev.len() && #[trigger] prev[k] == i;
                    assert(prev.push(n - 1)[k] == i);
                }
            };
        }
    } else {
        lemma_upsert_set_bound(disk, db, n - 1);
        let prev = upsert_set(disk, db, n - 1);
        assert(!prev.contains(n - 1));
        if needs_update(db, disk[n - 1].0, disk[n - 1].1) {
            assert(prev.push(n - 1)[prev.len() as int] == n - 1);
        }
    }
}

proof fn lemma_upsert_set_bound(disk: Seq<(Seq<char>, i64)>, db: Seq<(Seq<char>, i64)>, n: int)
    ensures
        forall|k: int| 0 <= k < upsert_set(disk, db, n).len() ==> 0 <= #[trigger] upsert_set(disk, db, n)[k] < n,
    decreases n,
{
    if n > 0 {
        lemma_upsert_set_bound(disk, db, n - 1);
        let prev = upsert_set(disk, db, n - 1);
        assert forall|k: int| 0 <= k < upsert_set(disk, db, n).len() implies 0 <= #[trigger] upsert_set(disk, db, n)[k] < n by {
            if k < prev.len() {
                assert(upsert_set(disk, db, n)[k] == prev[k]);
            }
        };
    }
}

proof fn lemma_delete_set_members(disk: Seq<(Seq<char>, i64)>, db: Seq<(Seq<char>, i64)>, n: int, j: int)
    requires
        0 <= j < n <= db.len(),
    ensures
        delete_set(disk, db, n).contains(j) <==> !on_disk(disk, db[j].0),
    decreases n,
{
    lemma_delete_set_bound(disk, db, n - 1);
    let prev = delete_set(disk, db, n - 1);
    if j < n - 1 {
        lemma_delete_set_members(disk, db, n - 1, j);
        if !on_disk(disk, db[n - 1].0) {
            assert(prev.push(n - 1).contains(j) <==> prev.contains(j)) by {
                let q = prev.push(n - 1);
                if q.contains(j) {
                    let k = choose|k: int| 0 <= k < q.len() && #[trigger] q[k] == j;
                    if k < prev.len() {
                        assert(prev[k] == j);
                    }
                }
                if prev.contains(j) {
                    let k = choose|k: int| 0 <= k < prev.len() && #[trigger] prev[k] == j;
                    assert(prev.push(n - 1)[k] == j);
                }
            };
        }
    } else {
        assert(!prev.contains(n - 1));
        if !on_disk(disk, db[n - 1].0) {
            assert(prev.push(n - 1)[prev.len() as int] == n - 1);
        }
    }
}

proof fn lemma_delete_set_bound(disk: Seq<(Seq<char>, i64)>, db: Seq<(Seq<char>, i64)>, n: int)
    ensures
        forall|k: int| 0 <= k < delete_set(disk, db, n).len() ==> 0 <= #[trigger] delete_set(disk, db, n)[k] < n,
    decreases n,
{
    if n > 0 {
        lemma_delete_set_bound(disk, db, n - 1);
        let prev = delete_set(disk, db, n - 1);
        assert forall|k: int| 0 <= k < delete_set(disk, db, n).len() implies 0 <= #[trigger] delete_set(disk, db, n)[k] < n by {
            if k < prev.len() {
                assert(delete_set(disk, db, n)[k] == prev[k]);
            }
        };
    }
}

/// After a sync by the plan, the cache is up to date: each disk file is
/// either re-read or already recorded with its current modification time,
/// and a cache row is dropped exactly when its file is gone from disk.
pub proof fn lemma_sync_plan_complete(disk: Seq<(Seq<char>, i64)>, db: Seq<(Seq<char>, i64)>)
    ensures
        forall|i: int| 0 <= i < disk.len() ==> (upsert_set(disk, db, disk.len() as int).contains(i)
            || recorded_mtime(db, disk[i].0) == Some(disk[i].1)),
        forall|i: int| 0 <= i < disk.len() && recorded_mtime(db, disk[i].0) == Some(disk[i].1)
            ==> !upsert_set(disk, db, disk.len() as int).contains(i),
        forall|j: int| 0 <= j < db.len() ==> (delete_set(disk, db, db.len() as int).contains(j) <==> !on_disk(disk, db[j].0)),
{
    assert forall|i: int| 0 <= i < disk.len() implies (upsert_set(disk, db, disk.len() as int).contains(i)
        <==> needs_update(db, disk[i].0, disk[i].1)) by {
        lemma_upsert_set_members(disk, db, disk.len() as int, i);
    };
    assert forall|j: int| 0 <= j < db.len() implies (delete_set(disk, db, db.len() as int).contains(j) <==> !on_disk(disk, db[j].0)) by {
        lemma_delete_set_members(disk, db, db.len() as int, j);
    };
}

/// Each path occurs at most once.
pub open spec fn distinct_paths(v: Seq<(Seq<char>, i64)>) -> bool {
    forall|i: int, j: int| 0 <= i < j < v.len() ==> v[i].0 != v[j].0
}

/// The modification time the cache holds for `path` after a sync by the
/// plan: the disk time where the file was re-read, none where the row was
/// dropped (its file is gone), otherwise what was recorded before.
pub open spec fn synced_mtime(disk: Seq<(Seq<char>, i64)>, db: Seq<(Seq<char>, i64)>, path: Seq<char>) -> Option<i64> {
    let up = upsert_set(disk, db, disk.len() as int);
    if exists|i: int| #[trigger] up.contains(i) && disk[i].0 == path {
        Some(disk[choose|i: int| #[trigger] up.contains(i) && disk[i].0 == path].1)
    } else if !on_disk(disk, path) {
        None
    } else {
        recorded_mtime(db, path)
    }
}

proof fn lemma_recorded_some(v: Seq<(Seq<char>, i64)>, p: Seq<char>)
    ensures
        recorded_mtime(v, p) is Some <==> on_disk(v, p),
    decreases v.len(),
{
    if v.len() > 0 {
        lemma_recorded_some(v.drop_first(), p);
        if on_disk(v.drop_first(), p) {
            let i = choose|i: int| 0 <= i < v.drop_first().len() && v.drop_first()[i].0 == p;
            assert(v[i + 1].0 == p);
        }
        if on_disk(v, p) && v[0].0 != p {
            let i = choose|i: int| 0 <= i < v.len() && v[i].0 == p;
            assert(v.drop_first()[i - 1].0 == p);
        }
    }
}

proof fn lemma_recorded_distinct(v: Seq<(Seq<char>, i64)>, i: int)
    requires
        distinct_paths(v),
        0 <= i < v.len(),
    ensures
        recorded_mtime(v, v[i].0) == Some(v[i].1),
    decreases v.len(),
{
    if i > 0 {
        let t = v.drop_first();
        assert forall|a: int, b: int| 0 <= a < b < t.len() implies t[a].0 != t[b].0 by {
            assert(t[a] == v[a + 1] && t[b] == v[b + 1]);
        };
        assert(v[0].0 != v[i].0);
        assert(t[i - 1] == v[i]);
        lemma_recorded_distinct(t, i - 1);
    }
}

/// A sync by the plan leaves the cache matching the disk: afterwards the
/// cache holds for every path exactly the modification time on disk (and
/// nothing for a path not on disk). A second sync against the same files,
/// with a cache that matches the disk, re-reads and drops nothing.
pub proof fn lemma_sync_converges(disk: Seq<(Seq<char>, i64)>, db: Seq<(Seq<char>, i64)>, db2: Seq<(Seq<char>, i64)>)
    requires
        distinct_paths(disk),
    ensures
        forall|p: Seq<char>| #[trigger] synced_mtime(disk, db, p) == recorded_mtime(disk, p),
        (forall|p: Seq<char>| #[trigger] recorded_mtime(db2, p) == recorded_mtime(disk, p)) ==> upsert_set(
            disk,
            db2,
            disk.len() as int,
        ).len() == 0 && delete_set(disk, db2, db2.len() as int).len() == 0,
{
    let n = disk.len() as int;
    let up = upsert_set(disk, db, n);
    lemma_upsert_set_bound(disk, db, n);
    assert forall|p: Seq<char>| #[trigger] synced_mtime(disk, db, p) == recorded_mtime(disk, p) by {
        lemma_recorded_some(disk, p);
        if exists|i: int| #[trigger] up.contains(i) && disk[i].0 == p {
            let c = choose|i: int| #[trigger] up.contains(i) && disk[i].0 == p;
            let k = choose|k: int| 0 <= k < up.len() && up[k] == c;
            assert(0 <= up[k] < n);
            lemma_recorded_distinct(disk, c);
        } else if on_disk(disk, p) {
            let i = choose|i: int| 0 <= i < disk.len() && disk[i].0 == p;
            lemma_upsert_set_members(disk, db, n, i);
            assert(!up.contains(i));
            lemma_recorded_distinct(disk, i);
        }
    };
    if forall|p: Seq<char>| #[trigger] recorded_mtime(db2, p) == recorded_mtime(disk, p) {
        let up2 = upsert_set(disk, db2, n);
        lemma_upsert_set_bound(disk, db2, n);
        if up2.len() > 0 {
            let i = up2[0];
            assert(up2.contains(i));
            lemma_upsert_set_members(disk, db2, n, i);
            lemma_recorded_distinct(disk, i);
            assert(recorded_mtime(db2, disk[i].0) == recorded_mtime(disk, disk[i].0));
            assert(false);
        }
        let m = db2.len() as int;
        let del = delete_set(disk, db2, m);
        lemma_delete_set_bound(disk, db2, m);
        if del.len() > 0 {
            let j = del[0];
            assert(del.contains(j));
            lemma_delete_set_members(disk, db2, m, j);
            lemma_recorded_some(db2, db2[j].0);
            lemma_recorded_some(disk, db2[j].0);
            assert(recorded_mtime(db2, db2[j].0) == recorded_mtime(disk, db2[j].0));
            assert(false);
        }
    }
}

/// Whether reading `input` as a full identifier is defined: a seven-byte
/// input must be ASCII (on fewer, longer characters the parser panics).
pub open spec fn id_input_defined(input: Seq<char>) -> bool {
    utf8_len(input) == 7 ==> forall|i: int| 0 <= i < input.len() ==> (input[i] as u32) < 0x80
}

proof fn lemma_utf8_len_ascii(s: Seq<char>)
    ensures
        utf8_len(s) >= s.len(),
        utf8_len(s) == s.len() ==> forall|i: int| 0 <= i < s.len() ==> (s[i] as u32) < 0x80,
    decreases s.len(),
{
    if s.len() > 0 {
        lemma_utf8_len_ascii(s.drop_last());
        assert forall|i: int| 0 <= i < s.len() && utf8_len(s) == s.len() implies (s[i] as u32) < 0x80 by {
            if i < s.len() - 1 {
                assert(s[i] == s.drop_last()[i]);
            }
        };
    }
}

/// Whether reading `input` as a full identifier is defined.
pub fn id_input_decidable(input: &str) -> (r: bool)
    ensures
        r == id_input_defined(input@),
{
    let v = str_chars(input);
    let n = utf8_length(&v);
    if n != 7 {
        return true;
    }
    let mut i: usize = 0;
    while i < v.len()
        invariant
            i <= v@.len(),
            v@ == input@,
            n == 7,
            n == utf8_len(input@),
            forall|j: int| 0 <= j < i ==> (v@[j] as u32) < 0x80,
        decreases v@.len() - i,
    {
        if (v[i] as u32) >= 0x80 {
            assert((input@[i as int] as u32) >= 0x80);
            return false;
        }
        i += 1;
    }
    true
}

/// The identifier `input` denotes when it is a full one.
pub fn parse_full_id(input: &str) -> (r: Option<u64>)
    requires
        id_input_defined(input@),
    ensures
        r == (if input@.len() == 7 && forall|i: int| 0 <= i < input@.len() ==> (input@[i] as u32) < 0x80 {
            caretta_id_parse(input@)
        } else {
            None
        }),
        r matches Some(v) ==> v < ID_LIMIT,
{
    let v = str_chars(input);
    proof {
        lemma_utf8_len_ascii(input@);
    }
    let mut ascii = true;
    let mut i: usize = 0;
    while i < v.len()
        invariant
            i <= v@.len(),
            v@ == input@,
            ascii == forall|j: int| 0 <= j < i ==> (v@[j] as u32) < 0x80,
        decreases v@.len() - i,
    {
        if (v[i] as u32) >= 0x80 {
            ascii = false;
        }
        i += 1;
    }
    if v.len() == 7 && ascii {
        proof {
            lemma_id_parse_bound(input@);
        }
        id_parse(input)
    } else {
        None
    }
}

/// Positions of the rows whose identifier text starts with `input`.
pub open spec fn id_prefix_matches(ids: Seq<u64>, input: Seq<char>, n: int) -> Seq<int>
    decreases n,
{
    if n <= 0 {
        Seq::empty()
    } else if is_prefix(input, id_text(ids[n - 1])) {
        id_prefix_matches(ids, input, n - 1).push(n - 1)
    } else {
        id_prefix_matches(ids, input, n - 1)
    }
}

/// Chooses the cache row whose identifier text starts with `input`: none is
/// not found, more than one is ambiguous.
pub fn select_by_id_prefix(ids: &Vec<u64>, input: &str) -> (r: Result<usize, Error>)
    ensures
        ({
            let m = id_prefix_matches(ids@, input@, ids@.len() as int);
            &&& m.len() == 0 ==> (r matches Err(Error::EntryNotFound(p)) && p@ == input@)
            &&& m.len() == 1 ==> r == Ok::<usize, Error>(m[0] as usize)
            &&& m.len() > 1 ==> (r matches Err(Error::AmbiguousId(p, n)) && p@ == input@ && n == m.len())
        }),
{
    let prefix = str_chars(input);
    let mut matches: Vec<usize> = Vec::new();
    let mut i: usize = 0;
    while i < ids.len()
        invariant
            i <= ids@.len(),
            prefix@ == input@,
            index_views(matches@) == id_prefix_matches(ids@, input@, i as int),
            forall|k: int| 0 <= k < matches@.len() ==> matches@[k] < ids@.len(),
        decreases ids@.len() - i,
    {
        let ghost before = index_views(matches@);
        let text = id_to_string(ids[i]);
        if chars_start_with(&str_chars(text.as_str()), &prefix) {
            matches.push(i);
            assert(index_views(matches@) =~= before.push(i as int));
        }
        i += 1;
    }
    let n = matches.len();
    if n == 0 {
        Err(Error::EntryNotFound(input.to_owned()))
    } else if n == 1 {
        assert(index_views(matches@)[0] == matches@[0] as int);
        Ok(matches[0])
    } else {
        Err(Error::AmbiguousId(input.to_owned(), n))
    }
}

/// The values stored in the cache for one entry. Date-times are kept as
/// `%Y-%m-%dT%H:%M` text; flags as 0 or 1.
pub struct CacheRow {
    pub id: Option<u64>,
    pub path: String,
    pub file_mtime: i64,
    pub title: Option<String>,
    pub created_at: Option<String>,
    pub updated_at: Option<String>,
    pub is_task: i32,
    pub task_status: Option<String>,
    pub task_due: Option<String>,
    pub task_closed_at: Option<String>,
    pub is_event: i32,
    pub event_start: Option<String>,
    pub event_end: Option<String>,
    pub body: String,
    pub tags: Vec<String>,
}

pub open spec fn opt_fmt(t: Option<Timestamp>) -> Option<Seq<char>> {
    match t {
        Some(x) => Some(chrono_format_ymd_hm(x)),
        None => None,
    }
}

/// The row stored for an entry whose file has modification time `mtime`.
pub open spec fn row_matches(row: CacheRow, fm: FrontmatterModel, path: Seq<char>, body: Seq<char>, mtime: i64) -> bool {
    &&& row.id == fm.id
    &&& row.path@ == path
    &&& row.file_mtime == mtime
    &&& opt_string_view(row.title) == fm.title
    &&& opt_string_view(row.created_at) == opt_fmt(fm.created_at)
    &&& opt_string_view(row.updated_at) == opt_fmt(fm.updated_at)
    &&& row.is_task == (if fm.task is Some { 1i32 } else { 0i32 })
    &&& opt_string_view(row.task_status) == (match fm.task {
        Some(t) => t.status,
        None => None,
    })
    &&& opt_string_view(row.task_due) == (match fm.task {
        Some(t) => opt_fmt(t.due),
        None => None,
    })
    &&& opt_string_view(row.task_closed_at) == (match fm.task {
        Some(t) => opt_fmt(t.closed_at),
        None => None,
    })
    &&& row.is_event == (if fm.event is Some { 1i32 } else { 0i32 })
    &&& opt_string_view(row.event_start) == (match fm.event {
        Some(e) => opt_fmt(e.start),
        None => None,
    })
    &&& opt_string_view(row.event_end) == (match fm.event {
        Some(e) => opt_fmt(e.end),
        None => None,
    })
    &&& row.body@ == body
    &&& strings_view(row.tags@) == fm.tags
}

fn fmt_opt(t: Option<Timestamp>) -> (r: Option<String>)
    requires
        t matches Some(x) ==> x.wf(),
    ensures
        opt_string_view(r) == opt_fmt(t),
{
    match t {
        Some(x) => Some(format_ymd_hm(x)),
        None => None,
    }
}

fn copy_strings(v: &Vec<String>) -> (r: Vec<String>)
    ensures
        strings_view(r@) == strings_view(v@),
{
    let mut out: Vec<String> = Vec::new();
    let mut i: usize = 0;
    while i < v.len()
        invariant
            i <= v@.len(),
            strings_view(out@) == strings_view(v@.subrange(0, i as int)),
        decreases v@.len() - i,
    {
        let ghost before = out@;
        let c = crate::text::copy_string(&v[i]);
        out.push(c);
        proof {
            let a = strings_view(out@);
            let b = strings_view(v@.subrange(0, i + 1));
            assert(strings_view(before).len() == strings_view(v@.subrange(0, i as int)).len());
            assert(a.len() == b.len());
            assert forall|k: int| 0 <= k < a.len() implies a[k] == b[k] by {
                if k < i {
                    assert(strings_view(before)[k] == strings_view(v@.subrange(0, i as int))[k]);
                }
            };
            assert(a =~= b);
        }
        i += 1;
    }
    assert(v@.subrange(0, v@.len() as int) =~= v@);
    out
}

/// Builds the cache row of an entry.
pub fn cache_row(entry: &Entry, mtime: i64) -> (r: CacheRow)
    requires
        entry.frontmatter@.wf(),
    ensures
        row_matches(r, entry.frontmatter@, entry.path@, entry.body@, mtime),
{
    let fm = &entry.frontmatter;
    let (is_task, task_status, task_due, task_closed_at) = match &fm.task {
        Some(t) => (1i32, copy_opt_string(&t.status), fmt_opt(t.due), fmt_opt(t.closed_at)),
        None => (0i32, None, None, None),
    };
    let (is_event, event_start, event_end) = match &fm.event {
        Some(e) => (1i32, fmt_opt(e.start), fmt_opt(e.end)),
        None => (0i32, None, None),
    };
    CacheRow {
        id: fm.id,
        path: entry.path.clone(),
        file_mtime: mtime,
        title: copy_opt_string(&fm.title),
        created_at: fmt_opt(fm.created_at),
        updated_at: fmt_opt(fm.updated_at),
        is_task,
        task_status,
        task_due,
        task_closed_at,
        is_event,
        event_start,
        event_end,
        body: entry.body.clone(),
        tags: copy_strings(&fm.tags),
    }
}

} // verus!
