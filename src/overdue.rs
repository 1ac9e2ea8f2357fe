use vstd::prelude::*;

use crate::calendar::{instant_lt, schedule_of, DateTime, ScheduleError};
use crate::index::{due_seq, in_slot_order, insert_in_order};
use crate::task::{Task, TaskStatus};

verus! {

/// The first task of a collection whose schedule cannot be read.
#[derive(Clone, Copy, Debug, PartialEq, Eq, Structural)]
pub struct InvalidTask {
    pub position: usize,
    pub error: ScheduleError,
}

/// Every task of `s` has a readable date and time.
pub open spec fn all_scheduled(s: Seq<Task>) -> bool {
    forall|i: int| 0 <= i < s.len() ==> (#[trigger] schedule_of(s[i])) is Ok
}

/// `e` names the first task of `s` without a readable schedule.
pub open spec fn first_unscheduled(s: Seq<Task>, e: InvalidTask) -> bool {
    &&& e.position < s.len()
    &&& schedule_of(s[e.position as int]) == Err::<DateTime, ScheduleError>(e.error)
    &&& all_scheduled(s.take(e.position as int))
}

/// Whether a task due at `due` counts as overdue at `now`: it was already
/// marked so, or it is still pending and its instant has passed. A completed
/// task never does.
pub open spec fn overdue_given(status: TaskStatus, due: DateTime, now: DateTime) -> bool {
    status == TaskStatus::OverDue || (status == TaskStatus::Pending && instant_lt(due, now))
}

/// Whether a task with `status`, due at `due`, is overdue at `now`.
pub fn is_overdue_given(status: TaskStatus, due: &DateTime, now: &DateTime) -> (r: bool)
    ensures
        r == overdue_given(status, *due, *now),
{
    status == TaskStatus::OverDue || (status == TaskStatus::Pending && due.is_before(now))
}

/// Whether `t` is overdue at `now`; a task without a schedule is not.
pub open spec fn overdue_at(t: Task, now: DateTime) -> bool {
    schedule_of(t) is Ok && overdue_given(t.status, schedule_of(t)->Ok_0, now)
}

/// `t` with its status recomputed at `now`.
pub open spec fn refreshed(t: Task, now: DateTime) -> Task {
    if overdue_at(t, now) {
        Task { status: TaskStatus::OverDue, ..t }
    } else {
        t
    }
}

/// Every task of `s` with its status recomputed at `now`.
pub open spec fn refreshed_all(s: Seq<Task>, now: DateTime) -> Seq<Task> {
    s.map_values(|t: Task| refreshed(t, now))
}

/// The due instant of every task, in collection order, or the first task
/// whose date or time cannot be read.
pub fn schedules(tasks: &Vec<Task>) -> (r: Result<Vec<DateTime>, InvalidTask>)
    ensures
        match r {
            Ok(v) => {
                &&& all_scheduled(tasks@)
                &&& v@.len() == tasks@.len()
                &&& forall|i: int|
                    0 <= i < v@.len() ==> schedule_of(#[trigger] tasks@[i]) == Ok::<
                        DateTime,
                        ScheduleError,
                    >(v@[i])
            },
            Err(e) => first_unscheduled(tasks@, e),
        },
{
    let mut out: Vec<DateTime> = Vec::new();
    let mut i: usize = 0;
    while i < tasks.len()
        invariant
            i <= tasks@.len(),
            out@.len() == i,
            forall|j: int|
                0 <= j < i ==> schedule_of(#[trigger] tasks@[j]) == Ok::<DateTime, ScheduleError>(
                    out@[j],
                ),
        decreases tasks@.len() - i,
    {
        match tasks[i].schedule() {
            Ok(due) => out.push(due),
            Err(error) => {
                let e = InvalidTask { position: i, error };
                assert(all_scheduled(tasks@.take(i as int))) by {
                    assert forall|j: int| 0 <= j < i implies (#[trigger] schedule_of(
                        tasks@.take(i as int)[j],
                    )) is Ok by {
                        assert(tasks@.take(i as int)[j] == tasks@[j]);
                    }
                }
                return Err(e);
            },
        }
        i += 1;
    }
    Ok(out)
}

impl Task {
    /// Whether the task is overdue at `now`: already marked overdue, or
    /// pending with its due instant before `now`. Fails when the task's
    /// date or time cannot be read.
    pub fn is_overdue(&self, now: &DateTime) -> (r: Result<bool, ScheduleError>)
        ensures
            r == match schedule_of(*self) {
                Ok(due) => Ok::<bool, ScheduleError>(overdue_given(self.status, due, *now)),
                Err(e) => Err(e),
            },
    {
        match self.schedule() {
            Ok(due) => Ok(is_overdue_given(self.status, &due, now)),
            Err(e) => Err(e),
        }
    }
}

/// Marks every pending task whose due instant is before `now` as overdue.
/// When some task's schedule cannot be read, nothing changes and the first
/// such task is reported.
pub fn update_overdue_at(tasks: &mut Vec<Task>, now: &DateTime) -> (r: Result<(), InvalidTask>)
    ensures
        match r {
            Ok(()) => all_scheduled(old(tasks)@) && final(tasks)@ == refreshed_all(old(tasks)@, *now),
            Err(e) => first_unscheduled(old(tasks)@, e) && final(tasks)@ == old(tasks)@,
        },
{
    let due = match schedules(tasks) {
        Ok(v) => v,
        Err(e) => return Err(e),
    };
    let ghost orig = tasks@;
    let mut i: usize = 0;
    while i < tasks.len()
        invariant
            orig == old(tasks)@,
            all_scheduled(orig),
            tasks@.len() == orig.len(),
            due@.len() == orig.len(),
            i <= orig.len(),
            forall|j: int|
                0 <= j < orig.len() ==> schedule_of(#[trigger] orig[j]) == Ok::<
                    DateTime,
                    ScheduleError,
                >(due@[j]),
            forall|j: int| 0 <= j < i ==> #[trigger] tasks@[j] == refreshed(orig[j], *now),
            forall|j: int| i <= j < orig.len() ==> #[trigger] tasks@[j] == orig[j],
        decreases orig.len() - i,
    {
        assert(schedule_of(orig[i as int]) is Ok);
        if is_overdue_given(tasks[i].status, &due[i], now) {
            let mut t = tasks[i].clone();
            t.status = TaskStatus::OverDue;
            tasks.set(i, t);
        }
        i += 1;
    }
    assert(tasks@ =~= refreshed_all(orig, *now));
    Ok(())
}

/// Marks every pending task whose due instant has passed, at the local
/// time now, as overdue. When some task's schedule cannot be read, nothing
/// changes and the first such task is reported.
pub fn update_overdue(tasks: &mut Vec<Task>) -> (r: Result<(), InvalidTask>)
    ensures
        match r {
            Ok(()) => all_scheduled(old(tasks)@) && exists|now: DateTime|
                final(tasks)@ == refreshed_all(old(tasks)@, now),
            Err(e) => first_unscheduled(old(tasks)@, e) && final(tasks)@ == old(tasks)@,
        },
{
    let now = DateTime::now();
    update_overdue_at(tasks, &now)
}

/// Recomputing overdue statuses a second time at the same instant changes
/// nothing: the first pass already marked every task that is due.
pub proof fn lemma_refresh_idempotent(s: Seq<Task>, now: DateTime)
    ensures
        refreshed_all(refreshed_all(s, now), now) == refreshed_all(s, now),
{
    let once = refreshed_all(s, now);
    assert forall|i: int| 0 <= i < s.len() implies #[trigger] refreshed(once[i], now)
        == once[i] by {
        let t = s[i];
        assert(schedule_of(refreshed(t, now)) == schedule_of(t));
    }
    assert(refreshed_all(once, now) =~= once);
}

/// The positions of the tasks overdue at `now`, earliest due first, ties
/// in collection order. Fails on the first task whose date or time cannot
/// be read.
pub fn overdue_positions(tasks: &Vec<Task>, now: &DateTime) -> (r: Result<Vec<usize>, InvalidTask>)
    ensures
        match r {
            Ok(v) => {
                &&& all_scheduled(tasks@)
                &&& in_slot_order(due_seq(tasks@), v@)
                &&& forall|j: usize| v@.contains(j) <==> j < tasks@.len() && overdue_at(tasks@[j as int], *now)
            },
            Err(e) => first_unscheduled(tasks@, e),
        },
{
    let due = match schedules(tasks) {
        Ok(v) => v,
        Err(e) => return Err(e),
    };
    let ghost n = tasks@.len() as int;
    assert(due@ =~= due_seq(tasks@)) by {
        assert forall|i: int| 0 <= i < n implies due@[i] == #[trigger] due_seq(tasks@)[i] by {
            assert(schedule_of(tasks@[i]) == Ok::<DateTime, ScheduleError>(due@[i]));
        }
    }
    let mut out: Vec<usize> = Vec::new();
    let mut i: usize = 0;
    while i < tasks.len()
        invariant
            n == tasks@.len(),
            due@ == due_seq(tasks@),
            all_scheduled(tasks@),
            i <= n,
            in_slot_order(due@, out@),
            forall|j: usize| out@.contains(j) <==> j < i && overdue_at(tasks@[j as int], *now),
        decreases n - i,
    {
        assert(schedule_of(tasks@[i as int]) is Ok);
        if is_overdue_given(tasks[i].status, &due[i], now) {
            let ghost before = out@;
            assert forall|x: int| 0 <= x < before.len() implies #[trigger] before[x] < i by {
                assert(before.contains(before[x]));
            }
            insert_in_order(&mut out, &due, i);
            proof {
                let k = choose|k: int| 0 <= k <= before.len() && out@ == before.insert(k, i);
                before.insert_ensures(k, i);
                assert forall|j: usize| out@.contains(j) <==> j < i + 1 && overdue_at(
                    tasks@[j as int],
                    *now,
                ) by {
                    if out@.contains(j) {
                        let x = choose|x: int| 0 <= x < out@.len() && out@[x] == j;
                        if x < k {
                            assert(before.contains(j));
                        } else if x > k {
                            assert(before[x - 1] == j);
                            assert(before.contains(j));
                        }
                    }
                    if j < i + 1 && overdue_at(tasks@[j as int], *now) {
                        if j == i {
                            assert(out@[k] == i);
                        } else {
                            assert(before.contains(j));
                            let x = choose|x: int| 0 <= x < before.len() && before[x] == j;
                            if x < k {
                                assert(out@[x] == j);
                            } else {
                                assert(out@[x + 1] == j);
                            }
                        }
                    }
                }
            }
        } else {
            assert(!overdue_at(tasks@[i as int], *now));
            assert forall|j: usize| out@.contains(j) <==> j < i + 1 && overdue_at(
                tasks@[j as int],
                *now,
            ) by {}
        }
        i += 1;
    }
    Ok(out)
}

} // verus!
