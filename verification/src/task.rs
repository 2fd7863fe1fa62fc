//! The per-task state: the closed status enumeration, the progress
//! snapshot that the registry stores and hands out, and the percentage
//! arithmetic with its bounds.

use vstd::prelude::*;

use vstd::arithmetic::div_mod::lemma_div_is_ordered;

verus! {

/// The closed set of task states.  `Completed`, `Failed` and
/// `Cancelled` are terminal: no transition leaves them.
#[derive(Clone, Copy, Debug, PartialEq, Eq, Structural)]
pub enum TaskStatus {
    Pending,
    Listing,
    Transferring,
    Completed,
    Failed,
    Cancelled,
}

impl TaskStatus {
    /// Whether no further transition may leave this state.
    pub open spec fn spec_is_terminal(&self) -> bool {
        self is Completed || self is Failed || self is Cancelled
    }

    pub fn is_terminal(&self) -> (r: bool)
        ensures
            r == self.spec_is_terminal(),
    {
        match self {
            TaskStatus::Completed => true,
            TaskStatus::Failed => true,
            TaskStatus::Cancelled => true,
            _ => false,
        }
    }

    /// The status tag carried in progress events and shown to
    /// subscribers.
    pub fn label(&self) -> (r: String)
        ensures
            self is Pending ==> r@ == "pending"@,
            self is Listing ==> r@ == "listing"@,
            self is Transferring ==> r@ == "transferring"@,
            self is Completed ==> r@ == "completed"@,
            self is Failed ==> r@ == "failed"@,
            self is Cancelled ==> r@ == "cancelled"@,
    {
        match self {
            TaskStatus::Pending => String::from_str("pending"),
            TaskStatus::Listing => String::from_str("listing"),
            TaskStatus::Transferring => String::from_str("transferring"),
            TaskStatus::Completed => String::from_str("completed"),
            TaskStatus::Failed => String::from_str("failed"),
            TaskStatus::Cancelled => String::from_str("cancelled"),
        }
    }
}

/// The view of an optional string.
pub open spec fn opt_str_view(o: Option<String>) -> Option<Seq<char>> {
    match o {
        Option::None => Option::None,
        Option::Some(s) => Option::Some(s@),
    }
}

/// One task's progress snapshot.  The registry stores these and hands
/// out copies, never live references.
#[derive(Clone, Debug)]
pub struct DownloadProgress {
    pub task_id: String,
    pub status: TaskStatus,
    pub percent: u64,
    pub total_size: u64,
    pub transferred_size: u64,
    pub current_file: Option<String>,
    pub total_files: Option<u32>,
    pub completed_files: Option<u32>,
    pub error_message: Option<String>,
    pub started_at: Option<String>,
    pub completed_at: Option<String>,
}

/// The mathematical shadow of a progress snapshot.
pub ghost struct ProgressModel {
    pub task_id: Seq<char>,
    pub status: TaskStatus,
    pub percent: u64,
    pub total_size: u64,
    pub transferred_size: u64,
    pub current_file: Option<Seq<char>>,
    pub total_files: Option<u32>,
    pub completed_files: Option<u32>,
    pub error_message: Option<Seq<char>>,
    pub started_at: Option<Seq<char>>,
    pub completed_at: Option<Seq<char>>,
}

impl View for DownloadProgress {
    type V = ProgressModel;

    open spec fn view(&self) -> ProgressModel {
        ProgressModel {
            task_id: self.task_id@,
            status: self.status,
            percent: self.percent,
            total_size: self.total_size,
            transferred_size: self.transferred_size,
            current_file: opt_str_view(self.current_file),
            total_files: self.total_files,
            completed_files: self.completed_files,
            error_message: opt_str_view(self.error_message),
            started_at: opt_str_view(self.started_at),
            completed_at: opt_str_view(self.completed_at),
        }
    }
}

/// The freshly created snapshot of a task: pending, nothing moved yet,
/// only the start timestamp set.
pub open spec fn spec_initial_progress(task_id: Seq<char>, started_at: Seq<char>) -> ProgressModel {
    ProgressModel {
        task_id: task_id,
        status: TaskStatus::Pending,
        percent: 0,
        total_size: 0,
        transferred_size: 0,
        current_file: Option::None,
        total_files: Option::None,
        completed_files: Option::None,
        error_message: Option::None,
        started_at: Option::Some(started_at),
        completed_at: Option::None,
    }
}

/// The transferred share of the total, in whole percent, clamped to
/// the range 0 to 100; a task with no known total reads as zero.
pub open spec fn spec_percent(transferred: int, total: int) -> int {
    if total <= 0 {
        0
    } else if transferred * 100 / total > 100 {
        100
    } else {
        transferred * 100 / total
    }
}

pub fn percent_of(transferred: u64, total: u64) -> (r: u64)
    ensures
        r == spec_percent(transferred as int, total as int),
{
    if total == 0 {
        return 0;
    }
    let p: u128 = (transferred as u128) * 100 / (total as u128);
    proof {
        assert((transferred as u128) * 100 == transferred as int * 100) by (nonlinear_arith)
            requires
                transferred <= u64::MAX,
        ;
    }
    if p > 100 {
        100
    } else {
        p as u64
    }
}

/// The percentage never leaves the range 0 to 100.
pub proof fn lemma_percent_bounds(transferred: int, total: int)
    requires
        transferred >= 0,
    ensures
        0 <= spec_percent(transferred, total) <= 100,
{
    if total > 0 {
        assert(transferred * 100 >= 0) by (nonlinear_arith)
            requires
                transferred >= 0,
        ;
        assert(transferred * 100 / total >= 0) by {
            lemma_div_is_ordered(0, transferred * 100, total);
        }
    }
}

/// The percentage never decreases as bytes accumulate under a fixed
/// total.
pub proof fn lemma_percent_monotonic(t1: int, t2: int, total: int)
    requires
        0 <= t1 <= t2,
    ensures
        spec_percent(t1, total) <= spec_percent(t2, total),
{
    if total > 0 {
        assert(t1 * 100 <= t2 * 100) by (nonlinear_arith)
            requires
                t1 <= t2,
        ;
        lemma_div_is_ordered(t1 * 100, t2 * 100, total);
        lemma_percent_bounds(t1, total);
        lemma_percent_bounds(t2, total);
    }
}

} // verus!
