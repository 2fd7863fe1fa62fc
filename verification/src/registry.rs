//! The task registry: a map from task id to progress snapshot.  Reads
//! hand out copies, never live references; updates are silent no-ops on
//! absent ids; removal is idempotent; and no update leaves a terminal
//! status.  The caller serializes access (the surrounding application
//! holds it behind a lock that is never held across I/O).

use vstd::prelude::*;

use crate::task::{
    spec_initial_progress, spec_percent, DownloadProgress, ProgressModel, TaskStatus,
};
use crate::text::str_eq;
use crate::timestamp::{rfc3339, spec_rfc3339, UtcTime};

verus! {

/// Why a task could not be registered.
#[derive(Clone, Copy, Debug, PartialEq, Eq, Structural)]
pub enum RegistryError {
    DuplicateTask,
}

/// The first position whose snapshot carries the id, from `i` on, or
/// -1.
pub open spec fn find_from(s: Seq<DownloadProgress>, id: Seq<char>, i: int) -> int
    decreases s.len() - i,
{
    if i < 0 || i >= s.len() {
        -1
    } else if s[i]@.task_id == id {
        i
    } else {
        find_from(s, id, i + 1)
    }
}

/// The registry of every live task's progress.
pub struct TaskRegistry {
    entries: Vec<DownloadProgress>,
}

impl View for TaskRegistry {
    type V = Map<Seq<char>, ProgressModel>;

    closed spec fn view(&self) -> Map<Seq<char>, ProgressModel> {
        Map::new(
            |id: Seq<char>| find_from(self.entries@, id, 0) >= 0,
            |id: Seq<char>| self.entries@[find_from(self.entries@, id, 0)]@,
        )
    }
}

impl TaskRegistry {
    /// No two snapshots share an id.
    pub closed spec fn wf(&self) -> bool {
        forall|i: int, j: int|
            0 <= i < j < self.entries@.len() ==> #[trigger] self.entries@[i]@.task_id
                != #[trigger] self.entries@[j]@.task_id
    }

    pub fn new() -> (r: TaskRegistry)
        ensures
            r.wf(),
            r@ == Map::<Seq<char>, ProgressModel>::empty(),
    {
        let r = TaskRegistry { entries: Vec::new() };
        proof {
            assert(r@ =~= Map::<Seq<char>, ProgressModel>::empty());
        }
        r
    }

    fn find(&self, task_id: &str) -> (r: Option<usize>)
        ensures
            r is Some <==> find_from(self.entries@, task_id@, 0) >= 0,
            r matches Some(k) ==> find_from(self.entries@, task_id@, 0) == k && k
                < self.entries@.len() && self.entries@[k as int]@.task_id == task_id@,
    {
        let n = self.entries.len();
        let mut i: usize = 0;
        while i < n
            invariant
                n == self.entries@.len(),
                i <= n,
                forall|k: int| 0 <= k < i ==> #[trigger] self.entries@[k]@.task_id != task_id@,
            decreases n - i,
        {
            if str_eq(self.entries[i].task_id.as_str(), task_id) {
                proof {
                    lemma_find_prefix(self.entries@, task_id@, i as int);
                }
                return Some(i);
            }
            i = i + 1;
        }
        proof {
            lemma_find_prefix(self.entries@, task_id@, n as int);
        }
        None
    }

    /// Registers a new task in the `Pending` state with nothing
    /// transferred; a second registration under a live id is refused.
    pub fn create(&mut self, task_id: &str, now: &UtcTime) -> (r: Result<(), RegistryError>)
        requires
            old(self).wf(),
            now.wf(),
        ensures
            final(self).wf(),
            old(self)@.contains_key(task_id@) ==> r == Result::<(), RegistryError>::Err(
                RegistryError::DuplicateTask,
            ) && final(self)@ == old(self)@,
            !old(self)@.contains_key(task_id@) ==> r is Ok && final(self)@ == old(self)@.insert(
                task_id@,
                spec_initial_progress(task_id@, spec_rfc3339(*now)),
            ),
    {
        if self.find(task_id).is_some() {
            return Err(RegistryError::DuplicateTask);
        }
        let started = rfc3339(now);
        let entry = DownloadProgress {
            task_id: task_id.to_owned(),
            status: TaskStatus::Pending,
            percent: 0,
            total_size: 0,
            transferred_size: 0,
            current_file: None,
            total_files: None,
            completed_files: None,
            error_message: None,
            started_at: Some(started),
            completed_at: None,
        };
        proof {
            assert(entry@ == spec_initial_progress(task_id@, spec_rfc3339(*now)));
        }
        let ghost prev = self.entries@;
        self.entries.push(entry);
        proof {
            lemma_push_view(prev, entry);
            lemma_find_absent(prev, task_id@);
            assert forall|i: int, j: int|
                0 <= i < j < self.entries@.len() implies #[trigger] self.entries@[i]@.task_id
                != #[trigger] self.entries@[j]@.task_id by {
                if j < prev.len() {
                    assert(self.entries@[i]@ == prev[i]@);
                    assert(self.entries@[j]@ == prev[j]@);
                } else {
                    assert(self.entries@[j]@ == entry@);
                    assert(self.entries@[i]@ == prev[i]@);
                }
            }
            assert(self@ =~= old(self)@.insert(
                task_id@,
                spec_initial_progress(task_id@, spec_rfc3339(*now)),
            ));
        }
        Ok(())
    }

    /// A snapshot copy of one task, when it is registered.
    pub fn read(&self, task_id: &str) -> (r: Option<DownloadProgress>)
        ensures
            r is Some <==> self@.contains_key(task_id@),
            r matches Some(p) ==> p@ == self@[task_id@],
    {
        match self.find(task_id) {
            Some(k) => Some(clone_progress(&self.entries[k])),
            None => None,
        }
    }

    /// Snapshot copies of every registered task.
    pub fn read_all(&self) -> (r: Vec<DownloadProgress>)
        requires
            self.wf(),
        ensures
            forall|k: int|
                0 <= k < r@.len() ==> self@.contains_key(#[trigger] r@[k]@.task_id) && r@[k]@
                    == self@[r@[k]@.task_id],
            forall|id: Seq<char>|
                self@.contains_key(id) ==> exists|k: int| 0 <= k < r@.len() && #[trigger] r@[k]@.task_id == id,
    {
        let n = self.entries.len();
        let mut out: Vec<DownloadProgress> = Vec::new();
        let mut i: usize = 0;
        while i < n
            invariant
                self.wf(),
                n == self.entries@.len(),
                i <= n,
                out@.len() == i,
                forall|k: int| 0 <= k < i ==> #[trigger] out@[k]@ == self.entries@[k]@,
            decreases n - i,
        {
            out.push(clone_progress(&self.entries[i]));
            i = i + 1;
        }
        proof {
            assert forall|k: int|
                0 <= k < out@.len() implies self@.contains_key(#[trigger] out@[k]@.task_id)
                && out@[k]@ == self@[out@[k]@.task_id] by {
                lemma_find_self(self.entries@, k);
            }
            assert forall|id: Seq<char>| self@.contains_key(id) implies exists|k: int|
                0 <= k < out@.len() && #[trigger] out@[k]@.task_id == id by {
                let j = find_from(self.entries@, id, 0);
                lemma_find_found(self.entries@, id, 0);
                assert(out@[j]@.task_id == id);
            }
        }
        out
    }

    /// Replaces the snapshot at `k` with one carrying the same id.
    fn put_at(&mut self, k: usize, e: DownloadProgress)
        requires
            old(self).wf(),
            k < old(self).entries@.len(),
            e@.task_id == old(self).entries@[k as int]@.task_id,
            find_from(old(self).entries@, e@.task_id, 0) == k,
        ensures
            final(self).wf(),
            final(self)@ == old(self)@.insert(e@.task_id, e@),
    {
        let ghost prev = self.entries@;
        self.entries[k] = e;
        proof {
            let cur = self.entries@;
            assert(cur == prev.update(k as int, e));
            assert forall|id: Seq<char>, i: int|
                0 <= i implies #[trigger] find_from(cur, id, i) == find_from(prev, id, i) by {
                lemma_same_ids_find(prev, cur, id, i);
            }
            assert forall|i: int, j: int|
                0 <= i < j < cur.len() implies #[trigger] cur[i]@.task_id
                != #[trigger] cur[j]@.task_id by {
                assert(cur[i]@.task_id == prev[i]@.task_id);
                assert(cur[j]@.task_id == prev[j]@.task_id);
            }
            assert forall|id: Seq<char>|
                #[trigger] old(self)@.insert(e@.task_id, e@).contains_key(id) implies self@[id]
                == old(self)@.insert(e@.task_id, e@)[id] by {
                if id == e@.task_id {
                    assert(find_from(cur, id, 0) == k);
                } else {
                    let j = find_from(prev, id, 0);
                    lemma_find_found(prev, id, 0);
                    assert(j != k) by {
                        assert(prev[k as int]@.task_id == e@.task_id);
                    }
                    assert(cur[j]@ == prev[j]@);
                }
            }
            assert(self@ =~= old(self)@.insert(e@.task_id, e@));
        }
    }

    /// Marks the listing phase; a no-op on an absent id, and on a task
    /// already in a terminal state.
    pub fn mark_listing(&mut self, task_id: &str)
        requires
            old(self).wf(),
        ensures
            final(self).wf(),
            !old(self)@.contains_key(task_id@) ==> final(self)@ == old(self)@,
            old(self)@.contains_key(task_id@) ==> final(self)@ == old(self)@.insert(
                task_id@,
                spec_mark_listing(old(self)@[task_id@]),
            ),
    {
        match self.find(task_id) {
            None => (),
            Some(k) => {
                let mut e = clone_progress(&self.entries[k]);
                if !e.status.is_terminal() {
                    e.status = TaskStatus::Listing;
                }
                self.put_at(k, e);
            },
        }
    }

    /// Records the manifest totals and begins the transfer phase; the
    /// total size is set only once and never reduced.
    pub fn begin_transfer(&mut self, task_id: &str, total: u64, files: u32)
        requires
            old(self).wf(),
        ensures
            final(self).wf(),
            !old(self)@.contains_key(task_id@) ==> final(self)@ == old(self)@,
            old(self)@.contains_key(task_id@) ==> final(self)@ == old(self)@.insert(
                task_id@,
                spec_begin_transfer(old(self)@[task_id@], total, files),
            ),
    {
        match self.find(task_id) {
            None => (),
            Some(k) => {
                let mut e = clone_progress(&self.entries[k]);
                if !e.status.is_terminal() {
                    e.status = TaskStatus::Transferring;
                    if e.total_size == 0 {
                        e.total_size = total;
                    }
                    e.total_files = Some(files);
                }
                self.put_at(k, e);
            },
        }
    }

    /// Notes the entry being worked on.
    pub fn set_current_file(&mut self, task_id: &str, file: &str)
        requires
            old(self).wf(),
        ensures
            final(self).wf(),
            !old(self)@.contains_key(task_id@) ==> final(self)@ == old(self)@,
            old(self)@.contains_key(task_id@) ==> final(self)@ == old(self)@.insert(
                task_id@,
                spec_set_current_file(old(self)@[task_id@], file@),
            ),
    {
        match self.find(task_id) {
            None => (),
            Some(k) => {
                let mut e = clone_progress(&self.entries[k]);
                if !e.status.is_terminal() {
                    e.current_file = Some(file.to_owned());
                }
                self.put_at(k, e);
            },
        }
    }

    /// Accumulates one finished entry into the snapshot.
    pub fn record_entry(&mut self, task_id: &str, bytes: u64, file: &str)
        requires
            old(self).wf(),
        ensures
            final(self).wf(),
            !old(self)@.contains_key(task_id@) ==> final(self)@ == old(self)@,
            old(self)@.contains_key(task_id@) ==> final(self)@ == old(self)@.insert(
                task_id@,
                spec_record_entry(old(self)@[task_id@], bytes, file@),
            ),
    {
        match self.find(task_id) {
            None => (),
            Some(k) => {
                let mut e = clone_progress(&self.entries[k]);
                if !e.status.is_terminal() {
                    let t = e.transferred_size.saturating_add(bytes);
                    let c: u32 = match e.completed_files {
                        None => 1,
                        Some(c0) => if c0 == u32::MAX {
                            c0
                        } else {
                            c0 + 1
                        },
                    };
                    e.transferred_size = t;
                    e.percent = crate::task::percent_of(t, e.total_size);
                    e.completed_files = Some(c);
                    e.current_file = Some(file.to_owned());
                    proof {
                        crate::task::lemma_percent_bounds(t as int, e.total_size as int);
                    }
                }
                self.put_at(k, e);
            },
        }
    }

    /// Marks terminal success.
    pub fn mark_completed(&mut self, task_id: &str, now: &UtcTime)
        requires
            old(self).wf(),
            now.wf(),
        ensures
            final(self).wf(),
            !old(self)@.contains_key(task_id@) ==> final(self)@ == old(self)@,
            old(self)@.contains_key(task_id@) ==> final(self)@ == old(self)@.insert(
                task_id@,
                spec_mark_completed(old(self)@[task_id@], spec_rfc3339(*now)),
            ),
    {
        match self.find(task_id) {
            None => (),
            Some(k) => {
                let mut e = clone_progress(&self.entries[k]);
                if !e.status.is_terminal() {
                    e.status = TaskStatus::Completed;
                    e.percent = 100;
                    e.completed_at = Some(rfc3339(now));
                }
                self.put_at(k, e);
            },
        }
    }

    /// Marks terminal failure, with the reason and the completion
    /// timestamp.
    pub fn mark_failed(&mut self, task_id: &str, msg: &str, now: &UtcTime)
        requires
            old(self).wf(),
            now.wf(),
        ensures
            final(self).wf(),
            !old(self)@.contains_key(task_id@) ==> final(self)@ == old(self)@,
            old(self)@.contains_key(task_id@) ==> final(self)@ == old(self)@.insert(
                task_id@,
                spec_mark_failed(old(self)@[task_id@], msg@, spec_rfc3339(*now)),
            ),
    {
        match self.find(task_id) {
            None => (),
            Some(k) => {
                let mut e = clone_progress(&self.entries[k]);
                if !e.status.is_terminal() {
                    e.status = TaskStatus::Failed;
                    e.error_message = Some(msg.to_owned());
                    e.completed_at = Some(rfc3339(now));
                }
                self.put_at(k, e);
            },
        }
    }

    /// Advisory cancellation: a live task becomes `Cancelled`; a task
    /// already terminal is left unchanged.
    pub fn cancel(&mut self, task_id: &str, now: &UtcTime)
        requires
            old(self).wf(),
            now.wf(),
        ensures
            final(self).wf(),
            !old(self)@.contains_key(task_id@) ==> final(self)@ == old(self)@,
            old(self)@.contains_key(task_id@) ==> final(self)@ == old(self)@.insert(
                task_id@,
                spec_cancel(old(self)@[task_id@], spec_rfc3339(*now)),
            ),
    {
        match self.find(task_id) {
            None => (),
            Some(k) => {
                let mut e = clone_progress(&self.entries[k]);
                if !e.status.is_terminal() {
                    e.status = TaskStatus::Cancelled;
                    e.completed_at = Some(rfc3339(now));
                }
                self.put_at(k, e);
            },
        }
    }

    /// Removes a task; removing an absent id changes nothing.
    pub fn remove(&mut self, task_id: &str)
        requires
            old(self).wf(),
        ensures
            final(self).wf(),
            final(self)@ == old(self)@.remove(task_id@),
    {
        match self.find(task_id) {
            Some(k) => {
                let ghost prev = self.entries@;
                self.entries.remove(k);
                proof {
                    lemma_remove_view(prev, k as int);
                    assert(self@ =~= old(self)@.remove(task_id@));
                }
            },
            None => {
                proof {
                    assert(!old(self)@.contains_key(task_id@));
                    assert(self@ =~= old(self)@.remove(task_id@));
                }
            },
        }
    }
}

/// The listing phase has begun.
pub open spec fn spec_mark_listing(m: ProgressModel) -> ProgressModel {
    if m.status.spec_is_terminal() {
        m
    } else {
        ProgressModel { status: TaskStatus::Listing, ..m }
    }
}

/// The manifest is known: the total size is set, once and never
/// reduced, with the file count, and transfers begin.
pub open spec fn spec_begin_transfer(m: ProgressModel, total: u64, files: u32) -> ProgressModel {
    if m.status.spec_is_terminal() {
        m
    } else {
        ProgressModel {
            status: TaskStatus::Transferring,
            total_size: if m.total_size == 0 {
                total
            } else {
                m.total_size
            },
            total_files: Option::Some(files),
            ..m
        }
    }
}

/// A new entry is being worked on.
pub open spec fn spec_set_current_file(m: ProgressModel, file: Seq<char>) -> ProgressModel {
    if m.status.spec_is_terminal() {
        m
    } else {
        ProgressModel { current_file: Option::Some(file), ..m }
    }
}

/// One entry finished: bytes accumulate (saturating), the completed
/// count steps, and the percentage is recomputed from the fixed total.
pub open spec fn spec_record_entry(m: ProgressModel, bytes: u64, file: Seq<char>) -> ProgressModel {
    if m.status.spec_is_terminal() {
        m
    } else {
        let t: u64 = if m.transferred_size + bytes <= u64::MAX {
            (m.transferred_size + bytes) as u64
        } else {
            u64::MAX
        };
        let c: u32 = match m.completed_files {
            Option::None => 1u32,
            Option::Some(c0) => if c0 == u32::MAX {
                c0
            } else {
                (c0 + 1) as u32
            },
        };
        ProgressModel {
            transferred_size: t,
            percent: spec_percent(t as int, m.total_size as int) as u64,
            completed_files: Option::Some(c),
            current_file: Option::Some(file),
            ..m
        }
    }
}

/// The whole manifest went through: terminal success.
pub open spec fn spec_mark_completed(m: ProgressModel, now: Seq<char>) -> ProgressModel {
    if m.status.spec_is_terminal() {
        m
    } else {
        ProgressModel {
            status: TaskStatus::Completed,
            percent: 100,
            completed_at: Option::Some(now),
            ..m
        }
    }
}

/// The task failed: terminal, with the reason and the completion
/// timestamp recorded.
pub open spec fn spec_mark_failed(m: ProgressModel, msg: Seq<char>, now: Seq<char>) -> ProgressModel {
    if m.status.spec_is_terminal() {
        m
    } else {
        ProgressModel {
            status: TaskStatus::Failed,
            error_message: Option::Some(msg),
            completed_at: Option::Some(now),
            ..m
        }
    }
}

/// Advisory cancellation: marks a live task `Cancelled`; a task already
/// in a terminal state is left exactly as it is.
pub open spec fn spec_cancel(m: ProgressModel, now: Seq<char>) -> ProgressModel {
    if m.status.spec_is_terminal() {
        m
    } else {
        ProgressModel {
            status: TaskStatus::Cancelled,
            completed_at: Option::Some(now),
            ..m
        }
    }
}

/// A fresh snapshot is `Pending` with nothing transferred and no
/// total: what `create` registers and `read` then reports.
pub proof fn lemma_initial_snapshot(task_id: Seq<char>, started_at: Seq<char>)
    ensures
        spec_initial_progress(task_id, started_at).status == TaskStatus::Pending,
        spec_initial_progress(task_id, started_at).transferred_size == 0,
        spec_initial_progress(task_id, started_at).total_size == 0,
        spec_initial_progress(task_id, started_at).percent == 0,
{
}

/// The total size is set at most once and no update ever reduces it:
/// every registry transform leaves `total_size` at or above its old
/// value, and `begin_transfer` changes it only from zero.
pub proof fn lemma_total_size_never_reduced(
    m: ProgressModel,
    total: u64,
    files: u32,
    bytes: u64,
    text: Seq<char>,
    now: Seq<char>,
)
    ensures
        spec_mark_listing(m).total_size == m.total_size,
        spec_begin_transfer(m, total, files).total_size >= m.total_size,
        m.total_size != 0 ==> spec_begin_transfer(m, total, files).total_size == m.total_size,
        spec_set_current_file(m, text).total_size == m.total_size,
        spec_record_entry(m, bytes, text).total_size == m.total_size,
        spec_mark_completed(m, now).total_size == m.total_size,
        spec_mark_failed(m, text, now).total_size == m.total_size,
        spec_cancel(m, now).total_size == m.total_size,
{
}

/// Cancelling a task that already reached a terminal state changes
/// nothing at all: terminal states are never left.
pub proof fn lemma_cancel_terminal(m: ProgressModel, now: Seq<char>)
    requires
        m.status.spec_is_terminal(),
    ensures
        spec_cancel(m, now) == m,
{
}

/// No transform moves a snapshot out of a terminal state, and the
/// only terminal states entered are the three terminal ones.
pub proof fn lemma_terminal_states_stick(
    m: ProgressModel,
    total: u64,
    files: u32,
    bytes: u64,
    text: Seq<char>,
    now: Seq<char>,
)
    requires
        m.status.spec_is_terminal(),
    ensures
        spec_mark_listing(m) == m,
        spec_begin_transfer(m, total, files) == m,
        spec_set_current_file(m, text) == m,
        spec_record_entry(m, bytes, text) == m,
        spec_mark_completed(m, now) == m,
        spec_mark_failed(m, text, now) == m,
        spec_cancel(m, now) == m,
{
}

/// A field-by-field copy of a snapshot.
pub fn clone_progress(p: &DownloadProgress) -> (r: DownloadProgress)
    ensures
        r@ == p@,
{
    DownloadProgress {
        task_id: p.task_id.clone(),
        status: p.status,
        percent: p.percent,
        total_size: p.total_size,
        transferred_size: p.transferred_size,
        current_file: match &p.current_file {
            Some(s) => Some(s.clone()),
            None => None,
        },
        total_files: p.total_files,
        completed_files: p.completed_files,
        error_message: match &p.error_message {
            Some(s) => Some(s.clone()),
            None => None,
        },
        started_at: match &p.started_at {
            Some(s) => Some(s.clone()),
            None => None,
        },
        completed_at: match &p.completed_at {
            Some(s) => Some(s.clone()),
            None => None,
        },
    }
}

/// Two snapshot lists with the same ids position for position find
/// every id at the same place.
proof fn lemma_same_ids_find(s1: Seq<DownloadProgress>, s2: Seq<DownloadProgress>, id: Seq<char>, i: int)
    requires
        s1.len() == s2.len(),
        forall|q: int| 0 <= q < s1.len() ==> #[trigger] s1[q]@.task_id == #[trigger] s2[q]@.task_id,
        0 <= i,
    ensures
        find_from(s1, id, i) == find_from(s2, id, i),
    decreases s1.len() - i,
{
    if i < s1.len() {
        lemma_same_ids_find(s1, s2, id, i + 1);
    }
}

/// A search that fails reports exactly -1.
proof fn lemma_find_neg(s: Seq<DownloadProgress>, id: Seq<char>, i: int)
    requires
        find_from(s, id, i) < 0,
    ensures
        find_from(s, id, i) == -1,
    decreases s.len() - i,
{
    if 0 <= i && i < s.len() && !(s[i]@.task_id == id) {
        lemma_find_neg(s, id, i + 1);
    }
}

/// A search that fails means the id is at no position.
proof fn lemma_find_absent(s: Seq<DownloadProgress>, id: Seq<char>)
    requires
        find_from(s, id, 0) < 0,
    ensures
        forall|k: int| 0 <= k < s.len() ==> #[trigger] s[k]@.task_id != id,
{
    assert forall|k: int| 0 <= k < s.len() implies #[trigger] s[k]@.task_id != id by {
        if s[k]@.task_id == id {
            lemma_find_exists(s, id, k);
        }
    }
}

proof fn lemma_find_prefix(s: Seq<DownloadProgress>, id: Seq<char>, i: int)
    requires
        0 <= i <= s.len(),
        forall|k: int| 0 <= k < i ==> #[trigger] s[k]@.task_id != id,
    ensures
        find_from(s, id, 0) == find_from(s, id, i),
    decreases i,
{
    if i > 0 {
        lemma_find_prefix(s, id, i - 1);
    }
}

/// A found id really is at the reported position.
proof fn lemma_find_found(s: Seq<DownloadProgress>, id: Seq<char>, i: int)
    requires
        0 <= i,
        find_from(s, id, i) >= 0,
    ensures
        i <= find_from(s, id, i) < s.len(),
        s[find_from(s, id, i)]@.task_id == id,
    decreases s.len() - i,
{
    if i < s.len() && !(s[i]@.task_id == id) {
        lemma_find_found(s, id, i + 1);
    }
}

/// Under unique ids, the id at position `k` is found at `k`.
proof fn lemma_find_self(s: Seq<DownloadProgress>, k: int)
    requires
        0 <= k < s.len(),
        forall|i: int, j: int|
            0 <= i < j < s.len() ==> #[trigger] s[i]@.task_id != #[trigger] s[j]@.task_id,
    ensures
        find_from(s, s[k]@.task_id, 0) == k,
{
    assert forall|q: int| 0 <= q < k implies #[trigger] s[q]@.task_id != s[k]@.task_id by {}
    lemma_find_prefix_ne(s, s[k]@.task_id, 0, k);
}

proof fn lemma_find_prefix_ne(s: Seq<DownloadProgress>, id: Seq<char>, i: int, k: int)
    requires
        0 <= i <= k < s.len(),
        s[k]@.task_id == id,
        forall|q: int| i <= q < k ==> #[trigger] s[q]@.task_id != id,
    ensures
        find_from(s, id, i) == k,
    decreases k - i,
{
    if i < k {
        lemma_find_prefix_ne(s, id, i + 1, k);
    }
}

/// Appending a snapshot with a fresh id inserts it into the view.
proof fn lemma_push_view(s: Seq<DownloadProgress>, e: DownloadProgress)
    requires
        find_from(s, e@.task_id, 0) < 0,
    ensures
        forall|id: Seq<char>|
            id != e@.task_id ==> #[trigger] find_from(s.push(e), id, 0) == find_from(s, id, 0),
        find_from(s.push(e), e@.task_id, 0) == s.len(),
        forall|id: Seq<char>|
            find_from(s, id, 0) >= 0 ==> #[trigger] s.push(e)[find_from(s.push(e), id, 0)]@
                == s[find_from(s, id, 0)]@,
{
    assert forall|id: Seq<char>|
        id != e@.task_id implies #[trigger] find_from(s.push(e), id, 0) == find_from(
        s,
        id,
        0,
    ) by {
        lemma_push_find(s, e, id, 0);
        if find_from(s, id, 0) < 0 {
            lemma_find_neg(s, id, 0);
        }
    }
    lemma_push_find(s, e, e@.task_id, 0);
    assert forall|id: Seq<char>|
        find_from(s, id, 0) >= 0 implies #[trigger] s.push(e)[find_from(s.push(e), id, 0)]@
        == s[find_from(s, id, 0)]@ by {
        lemma_push_find(s, e, id, 0);
        lemma_find_found(s, id, 0);
    }
}

proof fn lemma_push_find(s: Seq<DownloadProgress>, e: DownloadProgress, id: Seq<char>, i: int)
    requires
        0 <= i <= s.len(),
    ensures
        find_from(s.push(e), id, i) == if find_from(s, id, i) >= 0 {
            find_from(s, id, i)
        } else if e@.task_id == id {
            s.len() as int
        } else {
            -1
        },
    decreases s.len() - i,
{
    if i < s.len() {
        assert(s.push(e)[i] == s[i]);
        lemma_push_find(s, e, id, i + 1);
    } else {
        assert(s.push(e)[i] == e);
        assert(find_from(s, id, i) == -1);
        if e@.task_id != id {
            assert(find_from(s.push(e), id, i + 1) == -1);
        }
    }
}

/// Removing the snapshot that holds an id removes it from the view.
proof fn lemma_remove_view(s: Seq<DownloadProgress>, k: int)
    requires
        0 <= k < s.len(),
        forall|i: int, j: int|
            0 <= i < j < s.len() ==> #[trigger] s[i]@.task_id != #[trigger] s[j]@.task_id,
    ensures
        find_from(s.remove(k), s[k]@.task_id, 0) < 0,
        forall|id: Seq<char>|
            id != s[k]@.task_id ==> (#[trigger] find_from(s.remove(k), id, 0) >= 0 <==> find_from(
                s,
                id,
                0,
            ) >= 0),
        forall|id: Seq<char>|
            id != s[k]@.task_id && find_from(s, id, 0) >= 0 ==> #[trigger] s.remove(k)[find_from(
                s.remove(k),
                id,
                0,
            )]@ == s[find_from(s, id, 0)]@,
        forall|i: int, j: int|
            0 <= i < j < s.remove(k).len() ==> #[trigger] s.remove(k)[i]@.task_id
                != #[trigger] s.remove(k)[j]@.task_id,
{
    let t = s.remove(k);
    assert(t.len() == s.len() - 1);
    assert forall|q: int| 0 <= q < t.len() implies #[trigger] t[q]@ == (if q < k {
        s[q]@
    } else {
        s[q + 1]@
    }) by {}
    if find_from(t, s[k]@.task_id, 0) >= 0 {
        lemma_find_found(t, s[k]@.task_id, 0);
        let j = find_from(t, s[k]@.task_id, 0);
        if j < k {
            assert(s[j]@.task_id == s[k]@.task_id);
        } else {
            assert(s[j + 1]@.task_id == s[k]@.task_id);
        }
    }
    assert forall|id: Seq<char>|
        id != s[k]@.task_id implies (#[trigger] find_from(t, id, 0) >= 0 <==> find_from(s, id, 0)
        >= 0) by {
        if find_from(t, id, 0) >= 0 {
            lemma_find_found(t, id, 0);
            let j = find_from(t, id, 0);
            if j < k {
                lemma_find_exists(s, id, j);
            } else {
                lemma_find_exists(s, id, j + 1);
            }
        }
        if find_from(s, id, 0) >= 0 {
            lemma_find_found(s, id, 0);
            let j = find_from(s, id, 0);
            if j < k {
                lemma_find_exists(t, id, j);
            } else {
                assert(j != k);
                lemma_find_exists(t, id, j - 1);
            }
        }
    }
    assert forall|id: Seq<char>|
        id != s[k]@.task_id && find_from(s, id, 0) >= 0 implies #[trigger] t[find_from(
        t,
        id,
        0,
    )]@ == s[find_from(s, id, 0)]@ by {
        lemma_find_found(s, id, 0);
        let j = find_from(t, id, 0);
        lemma_find_found(t, id, 0);
        let j2 = if j < k {
            j
        } else {
            j + 1
        };
        assert(s[j2]@.task_id == id);
        lemma_find_is_unique_pos(s, id, j2);
    }
}

/// A position holding a searched id is the found position, under
/// unique ids.
proof fn lemma_find_is_unique_pos(s: Seq<DownloadProgress>, id: Seq<char>, j: int)
    requires
        0 <= j < s.len(),
        s[j]@.task_id == id,
        forall|i: int, q: int|
            0 <= i < q < s.len() ==> #[trigger] s[i]@.task_id != #[trigger] s[q]@.task_id,
    ensures
        find_from(s, id, 0) == j,
{
    lemma_find_prefix_ne(s, id, 0, j);
}

/// An id present at some position is found.
proof fn lemma_find_exists(s: Seq<DownloadProgress>, id: Seq<char>, j: int)
    requires
        0 <= j < s.len(),
        s[j]@.task_id == id,
    ensures
        find_from(s, id, 0) >= 0,
    decreases j,
{
    lemma_find_exists_from(s, id, 0, j);
}

proof fn lemma_find_exists_from(s: Seq<DownloadProgress>, id: Seq<char>, i: int, j: int)
    requires
        0 <= i <= j < s.len(),
        s[j]@.task_id == id,
    ensures
        find_from(s, id, i) >= 0,
    decreases j - i,
{
    if i < j && !(s[i]@.task_id == id) {
        lemma_find_exists_from(s, id, i + 1, j);
    }
}

} // verus!
