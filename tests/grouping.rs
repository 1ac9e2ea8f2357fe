use todotui::calendar::{ClockTime, Date, DateTime, ScheduleError};
use todotui::index::{display_tasks, find_task, group, group_by_schedule, ScrollDirection};
use todotui::overdue::InvalidTask;
use todotui::search::{filter_tasks, parse_range};
use todotui::task::{Task, TaskStatus};

fn task(id: u128, title: &str, date: &str, time: &str) -> Task {
    let mut t = Task::from(id);
    t.title = title.to_string();
    t.date = date.to_string();
    t.time = time.to_string();
    t
}

/// Three days holding 2, 1 and 2 tasks, listed out of order.
fn three_days() -> Vec<Task> {
    vec![
        task(10, "late", "03 01 2024", "18 00"),
        task(11, "b", "01 01 2024", "12 00"),
        task(12, "a", "01 01 2024", "08 00"),
        task(13, "mid", "02 01 2024", "09 00"),
        task(14, "early", "03 01 2024", "07 30"),
    ]
}

#[test]
fn groups_days_in_order_and_tasks_by_time() {
    let g = group(&three_days()).unwrap();
    let days: Vec<Date> = g.groups.iter().map(|d| d.date).collect();
    assert_eq!(
        days,
        vec![
            Date { year: 2024, month: 1, day: 1 },
            Date { year: 2024, month: 1, day: 2 },
            Date { year: 2024, month: 1, day: 3 },
        ]
    );
    assert_eq!(g.groups[0].members, vec![2, 1]);
    assert_eq!(g.groups[1].members, vec![3]);
    assert_eq!(g.groups[2].members, vec![4, 0]);
    assert_eq!(g.selectable, vec![(1, 12), (2, 11), (4, 13), (6, 14), (7, 10)]);
    assert_eq!(g.total, 8);
}

#[test]
fn equal_times_keep_collection_order() {
    let tasks = vec![
        task(1, "x", "01 01 2024", "10 00"),
        task(2, "y", "01 01 2024", "09 00"),
        task(3, "z", "01 01 2024", "10 00"),
    ];
    let g = group(&tasks).unwrap();
    assert_eq!(g.groups[0].members, vec![1, 0, 2]);
    assert_eq!(g.selectable, vec![(1, 2), (2, 1), (3, 3)]);
    assert_eq!(g.total, 4);
}

#[test]
fn grouping_twice_gives_the_same_result() {
    let tasks = three_days();
    let a = group(&tasks).unwrap();
    let b = group(&tasks).unwrap();
    assert_eq!(a.selectable, b.selectable);
    assert_eq!(a.total, b.total);
    assert_eq!(a.groups.len(), b.groups.len());
    for (x, y) in a.groups.iter().zip(b.groups.iter()) {
        assert_eq!(x.date, y.date);
        assert_eq!(x.members, y.members);
    }
}

#[test]
fn empty_collection_groups_to_nothing() {
    let g = group(&Vec::new()).unwrap();
    assert!(g.groups.is_empty());
    assert!(g.selectable.is_empty());
    assert_eq!(g.total, 0);
    assert_eq!(g.scroll(None, ScrollDirection::Down), None);
    assert_eq!(g.scroll(Some(3), ScrollDirection::Up), Some(3));
}

#[test]
fn grouping_fails_on_unreadable_date() {
    let mut tasks = three_days();
    tasks[3].date = "2024-01-02".to_string();
    assert_eq!(
        group(&tasks).unwrap_err(),
        InvalidTask { position: 3, error: ScheduleError::BadDate }
    );
}

#[test]
fn navigation_skips_headers_and_wraps() {
    let g = group(&three_days()).unwrap();
    // Down from nothing selected lands on the first task row.
    assert_eq!(g.scroll(None, ScrollDirection::Down), Some(1));
    assert_eq!(g.scroll(Some(1), ScrollDirection::Down), Some(2));
    assert_eq!(g.scroll(Some(2), ScrollDirection::Down), Some(4));
    assert_eq!(g.scroll(Some(4), ScrollDirection::Down), Some(6));
    assert_eq!(g.scroll(Some(6), ScrollDirection::Down), Some(7));
    // From the last task row, down wraps to the first.
    assert_eq!(g.scroll(Some(7), ScrollDirection::Down), Some(1));
    // From the first task row, up wraps to the last.
    assert_eq!(g.scroll(Some(1), ScrollDirection::Up), Some(7));
    assert_eq!(g.scroll(Some(6), ScrollDirection::Up), Some(4));
    assert_eq!(g.scroll(Some(4), ScrollDirection::Up), Some(2));
    assert_eq!(g.scroll(None, ScrollDirection::Up), Some(7));
}

#[test]
fn walking_down_visits_every_task_row_once() {
    let g = group(&three_days()).unwrap();
    let mut row = None;
    let mut seen = Vec::new();
    for _ in 0..5 {
        row = g.scroll(row, ScrollDirection::Down);
        seen.push(g.task_at_row(row.unwrap()).unwrap());
    }
    assert_eq!(seen, vec![12, 11, 13, 14, 10]);
    assert_eq!(g.scroll(row, ScrollDirection::Down), Some(1));
}

#[test]
fn rows_and_ids_map_both_ways() {
    let g = group(&three_days()).unwrap();
    assert_eq!(g.task_at_row(4), Some(13));
    assert_eq!(g.task_at_row(0), None);
    assert_eq!(g.task_at_row(3), None);
    assert_eq!(g.task_at_row(8), None);
    assert_eq!(g.row_of(10), Some(7));
    assert_eq!(g.row_of(99), None);
}

#[test]
fn display_filter_keeps_matching_status() {
    let mut tasks = three_days();
    tasks[1].status = TaskStatus::Completed;
    tasks[4].status = TaskStatus::Completed;
    tasks[2].status = TaskStatus::OverDue;
    let done: Vec<u128> = display_tasks(&tasks, Some(TaskStatus::Completed)).iter().map(|t| t.id).collect();
    assert_eq!(done, vec![11, 14]);
    let pending: Vec<u128> = display_tasks(&tasks, Some(TaskStatus::Pending)).iter().map(|t| t.id).collect();
    assert_eq!(pending, vec![10, 13]);
    assert_eq!(display_tasks(&tasks, None), tasks);
}

#[test]
fn find_task_gives_first_position() {
    let tasks = three_days();
    assert_eq!(find_task(&tasks, 13), Some(3));
    assert_eq!(find_task(&tasks, 77), None);
}

#[test]
fn search_by_title() {
    let tasks = three_days();
    let ids: Vec<u128> = filter_tasks(&tasks, "a").iter().map(|t| t.id).collect();
    assert_eq!(ids, vec![10, 12, 14]);
    assert!(filter_tasks(&tasks, "zzz").is_empty());
    assert_eq!(filter_tasks(&tasks, ""), tasks);
}

#[test]
fn search_by_date_range() {
    let tasks = three_days();
    let ids: Vec<u128> = filter_tasks(&tasks, "02 01 2024 - 03 01 2024").iter().map(|t| t.id).collect();
    assert_eq!(ids, vec![10, 13, 14]);
    let ids: Vec<u128> = filter_tasks(&tasks, " 01 01 2024 -  01 01 2024 ").iter().map(|t| t.id).collect();
    assert_eq!(ids, vec![11, 12]);
}

#[test]
fn range_needs_exactly_two_dates() {
    assert_eq!(
        parse_range("01 01 2024 - 02 01 2024"),
        Some((Date { year: 2024, month: 1, day: 1 }, Date { year: 2024, month: 1, day: 2 }))
    );
    assert_eq!(parse_range("01 01 2024 - 02 01 2024 - 03 01 2024"), None);
    assert_eq!(parse_range("01 01 2024"), None);
    assert_eq!(parse_range("a - b"), None);
    // Not a range, so it is a title search, which matches nothing here.
    assert!(filter_tasks(&three_days(), "01 01 2024 - nope").is_empty());
}

#[test]
fn grouping_from_given_instants() {
    let at = |day: u32, hour: u32| DateTime {
        date: Date { year: 2030, month: 6, day },
        time: ClockTime { hour, minute: 0, second: 0, nanosecond: 0 },
    };
    // The text fields are not read: only the instants given are.
    let tasks = vec![Task::from(1), Task::from(2), Task::from(3), Task::from(4)];
    let due = vec![at(2, 9), at(1, 17), at(2, 8), at(1, 17)];
    let g = group_by_schedule(&tasks, &due);
    assert_eq!(g.groups.len(), 2);
    assert_eq!(g.groups[0].date, Date { year: 2030, month: 6, day: 1 });
    assert_eq!(g.groups[0].members, vec![1, 3]);
    assert_eq!(g.groups[1].members, vec![2, 0]);
    assert_eq!(g.selectable, vec![(1, 2), (2, 4), (4, 3), (5, 1)]);
    assert_eq!(g.total, 6);
}

#[test]
fn range_sides_lose_unicode_white_space() {
    let tasks = three_days();
    let ids: Vec<u128> = filter_tasks(&tasks, "\t02 01 2024\u{a0} - \u{3000}02 01 2024\n").iter().map(|t| t.id).collect();
    assert_eq!(ids, vec![13]);
}
