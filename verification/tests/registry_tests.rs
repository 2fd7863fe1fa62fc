use dataset_transfer::registry::{RegistryError, TaskRegistry};
use dataset_transfer::task::TaskStatus;
use dataset_transfer::timestamp::UtcTime;

fn t0() -> UtcTime {
    UtcTime { year: 2024, month: 1, day: 2, hour: 3, minute: 4, second: 5 }
}

#[test]
fn create_then_read_is_pending_with_zero_bytes() {
    let mut reg = TaskRegistry::new();
    reg.create("task-1", &t0()).unwrap();
    let p = reg.read("task-1").unwrap();
    assert_eq!(p.status, TaskStatus::Pending);
    assert_eq!(p.transferred_size, 0);
    assert_eq!(p.total_size, 0);
    assert_eq!(p.percent, 0);
    assert_eq!(p.started_at.as_deref(), Some("2024-01-02T03:04:05+00:00"));
    assert_eq!(p.completed_at, None);
}

#[test]
fn duplicate_create_is_refused() {
    let mut reg = TaskRegistry::new();
    reg.create("task-1", &t0()).unwrap();
    assert_eq!(reg.create("task-1", &t0()), Err(RegistryError::DuplicateTask));
}

#[test]
fn total_size_is_set_once_and_never_reduced() {
    let mut reg = TaskRegistry::new();
    reg.create("task-1", &t0()).unwrap();
    reg.begin_transfer("task-1", 1000, 3);
    assert_eq!(reg.read("task-1").unwrap().total_size, 1000);
    // A later update with a smaller figure does not reduce it.
    reg.begin_transfer("task-1", 10, 3);
    assert_eq!(reg.read("task-1").unwrap().total_size, 1000);
}

#[test]
fn update_on_absent_id_is_a_silent_no_op() {
    let mut reg = TaskRegistry::new();
    reg.begin_transfer("ghost-task", 1000, 3);
    reg.record_entry("ghost-task", 10, "a");
    reg.mark_failed("ghost-task", "boom", &t0());
    assert!(reg.read("ghost-task").is_none());
    assert_eq!(reg.read_all().len(), 0);
}

#[test]
fn record_entry_accumulates() {
    let mut reg = TaskRegistry::new();
    reg.create("task-1", &t0()).unwrap();
    reg.begin_transfer("task-1", 100, 2);
    reg.record_entry("task-1", 25, "one");
    let p = reg.read("task-1").unwrap();
    assert_eq!(p.transferred_size, 25);
    assert_eq!(p.percent, 25);
    assert_eq!(p.completed_files, Some(1));
    assert_eq!(p.current_file.as_deref(), Some("one"));
    reg.record_entry("task-1", 75, "two");
    let p = reg.read("task-1").unwrap();
    assert_eq!(p.transferred_size, 100);
    assert_eq!(p.percent, 100);
    assert_eq!(p.completed_files, Some(2));
}

#[test]
fn listing_phase_is_recorded() {
    let mut reg = TaskRegistry::new();
    reg.create("task-1", &t0()).unwrap();
    reg.mark_listing("task-1");
    assert_eq!(reg.read("task-1").unwrap().status, TaskStatus::Listing);
}

#[test]
fn current_file_is_noted() {
    let mut reg = TaskRegistry::new();
    reg.create("task-1", &t0()).unwrap();
    reg.begin_transfer("task-1", 10, 1);
    reg.set_current_file("task-1", "sub-01/anat.nii");
    assert_eq!(
        reg.read("task-1").unwrap().current_file.as_deref(),
        Some("sub-01/anat.nii")
    );
}

#[test]
fn cancel_live_task_is_advisory_terminal() {
    let mut reg = TaskRegistry::new();
    reg.create("task-1", &t0()).unwrap();
    reg.cancel("task-1", &t0());
    let p = reg.read("task-1").unwrap();
    assert_eq!(p.status, TaskStatus::Cancelled);
    assert!(p.completed_at.is_some());
}

#[test]
fn cancel_terminal_task_leaves_it_unchanged() {
    let mut reg = TaskRegistry::new();
    reg.create("task-1", &t0()).unwrap();
    reg.begin_transfer("task-1", 10, 1);
    reg.record_entry("task-1", 10, "a");
    reg.mark_completed("task-1", &t0());
    let before = reg.read("task-1").unwrap();
    assert_eq!(before.status, TaskStatus::Completed);
    let later = UtcTime { year: 2030, month: 12, day: 31, hour: 23, minute: 59, second: 59 };
    reg.cancel("task-1", &later);
    let after = reg.read("task-1").unwrap();
    assert_eq!(after.status, TaskStatus::Completed);
    assert_eq!(after.completed_at, before.completed_at);
}

#[test]
fn failed_is_terminal_with_message_and_timestamp() {
    let mut reg = TaskRegistry::new();
    reg.create("task-1", &t0()).unwrap();
    reg.begin_transfer("task-1", 10, 1);
    reg.mark_failed("task-1", "the destination refused", &t0());
    let p = reg.read("task-1").unwrap();
    assert_eq!(p.status, TaskStatus::Failed);
    assert_eq!(p.error_message.as_deref(), Some("the destination refused"));
    assert!(p.completed_at.is_some());
    // Later success cannot leave the terminal state.
    reg.mark_completed("task-1", &t0());
    assert_eq!(reg.read("task-1").unwrap().status, TaskStatus::Failed);
}

#[test]
fn remove_is_idempotent() {
    let mut reg = TaskRegistry::new();
    reg.create("task-1", &t0()).unwrap();
    reg.remove("task-1");
    assert!(reg.read("task-1").is_none());
    reg.remove("task-1");
    assert!(reg.read("task-1").is_none());
}

#[test]
fn read_all_returns_every_snapshot() {
    let mut reg = TaskRegistry::new();
    reg.create("a", &t0()).unwrap();
    reg.create("b", &t0()).unwrap();
    let all = reg.read_all();
    let mut ids: Vec<String> = all.iter().map(|p| p.task_id.clone()).collect();
    ids.sort();
    assert_eq!(ids, vec!["a".to_string(), "b".to_string()]);
}
