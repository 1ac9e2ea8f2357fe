use todotui::calendar::{ClockTime, Date, DateTime, ScheduleError};
use todotui::overdue::{is_overdue_given, overdue_positions, update_overdue, update_overdue_at, InvalidTask};
use todotui::task::{Task, TaskStatus};

fn task(id: u128, date: &str, time: &str, status: TaskStatus) -> Task {
    let mut t = Task::from(id);
    t.title = format!("task {}", id);
    t.date = date.to_string();
    t.time = time.to_string();
    t.status = status;
    t
}

fn at(year: i32, month: u32, day: u32, hour: u32, minute: u32) -> DateTime {
    DateTime {
        date: Date { year, month, day },
        time: ClockTime { hour, minute, second: 0, nanosecond: 0 },
    }
}

#[test]
fn from_gives_blank_pending_task() {
    let t = Task::from(42);
    assert_eq!(t.id, 42);
    assert!(t.title.is_empty() && t.date.is_empty() && t.time.is_empty());
    assert!(t.description.is_empty());
    assert_eq!(t.status, TaskStatus::Pending);
}

#[test]
fn new_tasks_get_increasing_ids() {
    let a = Task::new();
    let b = Task::new();
    assert!(a.id < b.id);
    for id in [a.id, b.id] {
        assert_eq!((id >> 76) & 0xf, 7);
        assert_eq!((id >> 62) & 0x3, 2);
    }
    assert_eq!(a.status, TaskStatus::Pending);
    assert!(a.title.is_empty());
}

#[test]
fn clone_keeps_every_field() {
    let t = task(7, "01 02 2024", "09 15", TaskStatus::Completed);
    assert_eq!(t.clone(), t);
}

#[test]
fn schedule_reads_date_then_time() {
    let t = task(1, "05 03 2024", "14 30", TaskStatus::Pending);
    assert_eq!(t.schedule(), Ok(at(2024, 3, 5, 14, 30)));
}

#[test]
fn schedule_rejects_bad_date_and_time() {
    assert_eq!(task(1, "31 02 2024", "14 30", TaskStatus::Pending).schedule(), Err(ScheduleError::BadDate));
    assert_eq!(task(1, "2024-03-05", "14 30", TaskStatus::Pending).schedule(), Err(ScheduleError::BadDate));
    assert_eq!(task(1, "05 03 2024", "25 00", TaskStatus::Pending).schedule(), Err(ScheduleError::BadTime));
    assert_eq!(task(1, "", "14 30", TaskStatus::Pending).schedule(), Err(ScheduleError::BadDate));
}

#[test]
fn instants_compare_chronologically() {
    assert!(at(2023, 12, 31, 23, 59).is_before(&at(2024, 1, 1, 0, 0)));
    assert!(at(2024, 1, 1, 8, 0).is_before(&at(2024, 1, 1, 8, 1)));
    assert!(!at(2024, 1, 1, 8, 0).is_before(&at(2024, 1, 1, 8, 0)));
    let mut later = at(2024, 1, 1, 8, 0);
    later.time.second = 1;
    assert!(at(2024, 1, 1, 8, 0).is_before(&later));
}

#[test]
fn overdue_only_pending_past_or_marked() {
    let now = at(2024, 3, 5, 12, 0);
    assert_eq!(task(1, "05 03 2024", "11 59", TaskStatus::Pending).is_overdue(&now), Ok(true));
    assert_eq!(task(1, "05 03 2024", "12 00", TaskStatus::Pending).is_overdue(&now), Ok(false));
    assert_eq!(task(1, "01 01 2020", "00 00", TaskStatus::Completed).is_overdue(&now), Ok(false));
    assert_eq!(task(1, "01 01 2030", "00 00", TaskStatus::OverDue).is_overdue(&now), Ok(true));
    assert_eq!(task(1, "xx", "00 00", TaskStatus::Pending).is_overdue(&now), Err(ScheduleError::BadDate));
}

#[test]
fn update_overdue_promotes_past_pending_tasks() {
    let now = at(2024, 3, 5, 12, 0);
    let mut tasks = vec![
        task(1, "04 03 2024", "10 00", TaskStatus::Pending),
        task(2, "06 03 2024", "10 00", TaskStatus::Pending),
        task(3, "01 03 2024", "10 00", TaskStatus::Completed),
        task(4, "01 03 2024", "10 00", TaskStatus::OverDue),
    ];
    assert_eq!(update_overdue_at(&mut tasks, &now), Ok(()));
    let statuses: Vec<TaskStatus> = tasks.iter().map(|t| t.status).collect();
    assert_eq!(
        statuses,
        vec![TaskStatus::OverDue, TaskStatus::Pending, TaskStatus::Completed, TaskStatus::OverDue]
    );
    assert_eq!(tasks[0].title, "task 1");
}

#[test]
fn update_overdue_twice_equals_once() {
    let now = at(2024, 3, 5, 12, 0);
    let mut once = vec![
        task(1, "04 03 2024", "10 00", TaskStatus::Pending),
        task(2, "05 03 2024", "12 30", TaskStatus::Pending),
        task(3, "01 03 2024", "10 00", TaskStatus::Completed),
    ];
    update_overdue_at(&mut once, &now).unwrap();
    let mut twice = once.clone();
    update_overdue_at(&mut twice, &now).unwrap();
    assert_eq!(once, twice);
}

#[test]
fn update_overdue_reports_first_bad_task_and_changes_nothing() {
    let now = at(2024, 3, 5, 12, 0);
    let mut tasks = vec![
        task(1, "04 03 2024", "10 00", TaskStatus::Pending),
        task(2, "04 03 2024", "later", TaskStatus::Pending),
        task(3, "bad", "10 00", TaskStatus::Pending),
    ];
    let before = tasks.clone();
    assert_eq!(
        update_overdue_at(&mut tasks, &now),
        Err(InvalidTask { position: 1, error: ScheduleError::BadTime })
    );
    assert_eq!(tasks, before);
}

#[test]
fn update_overdue_uses_the_clock() {
    let mut tasks = vec![
        task(1, "01 01 2000", "10 00", TaskStatus::Pending),
        task(2, "01 01 2999", "10 00", TaskStatus::Pending),
    ];
    assert_eq!(update_overdue(&mut tasks), Ok(()));
    assert_eq!(tasks[0].status, TaskStatus::OverDue);
    assert_eq!(tasks[1].status, TaskStatus::Pending);
}

#[test]
fn overdue_positions_sorted_by_due() {
    let now = at(2024, 3, 5, 12, 0);
    let tasks = vec![
        task(1, "04 03 2024", "10 00", TaskStatus::Pending),
        task(2, "06 03 2024", "10 00", TaskStatus::Pending),
        task(3, "02 03 2024", "18 00", TaskStatus::Pending),
        task(4, "04 03 2024", "10 00", TaskStatus::OverDue),
        task(5, "02 03 2024", "09 00", TaskStatus::Completed),
    ];
    assert_eq!(overdue_positions(&tasks, &now), Ok(vec![2, 0, 3]));
    assert_eq!(overdue_positions(&Vec::new(), &now), Ok(vec![]));
}

#[test]
fn overdue_decision_from_given_instants() {
    let due = at(2024, 3, 5, 10, 0);
    assert!(is_overdue_given(TaskStatus::Pending, &due, &at(2024, 3, 5, 10, 1)));
    assert!(!is_overdue_given(TaskStatus::Pending, &due, &at(2024, 3, 5, 10, 0)));
    assert!(!is_overdue_given(TaskStatus::Completed, &due, &at(2025, 1, 1, 0, 0)));
    assert!(is_overdue_given(TaskStatus::OverDue, &due, &at(2000, 1, 1, 0, 0)));
}
