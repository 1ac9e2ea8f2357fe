use vstd::prelude::*;

use crate::calendar::{instant_lt, schedule_of, DateTime, ScheduleError};
use crate::index::{display_tasks, find_task, group, shown_tasks, Grouping};
use crate::overdue::{all_scheduled, first_unscheduled, schedules, InvalidTask};
use crate::task::{Task, TaskStatus};

verus! {

/// A task collection together with the status filter it is shown under and
/// the grouping of the shown tasks, rebuilt on every change.
#[derive(Debug)]
pub struct TaskList {
    pub tasks: Vec<Task>,
    pub filter: Option<TaskStatus>,
    pub view: Grouping,
}

/// `t` with its completion toggled at `now`: a completed task goes back to
/// overdue when its due instant has passed, else to pending; any other
/// task becomes completed.
pub open spec fn toggled(t: Task, now: DateTime) -> Task {
    if t.status == TaskStatus::Completed {
        Task {
            status: if instant_lt(schedule_of(t)->Ok_0, now) {
                TaskStatus::OverDue
            } else {
                TaskStatus::Pending
            },
            ..t
        }
    } else {
        Task { status: TaskStatus::Completed, ..t }
    }
}

/// The position of the first task of `s` with identifier `id`, if any.
pub open spec fn first_with_id(s: Seq<Task>, id: u128, k: int) -> bool {
    0 <= k < s.len() && s[k].id == id && forall|j: int| 0 <= j < k ==> (#[trigger] s[j]).id != id
}

proof fn lemma_filter_scheduled(s: Seq<Task>, p: spec_fn(Task) -> bool)
    requires
        all_scheduled(s),
    ensures
        all_scheduled(s.filter(p)),
{
    let f = s.filter(p);
    assert forall|i: int| 0 <= i < f.len() implies (#[trigger] schedule_of(f[i])) is Ok by {
        assert(f.contains(f[i]));
        s.lemma_filter_contains_rev(p, f[i]);
        let j = choose|j: int| 0 <= j < s.len() && s[j] == f[i];
        assert(schedule_of(s[j]) is Ok);
    }
}

/// The grouping of the tasks of a fully scheduled collection shown under
/// `filter`.
fn view_of(tasks: &Vec<Task>, filter: Option<TaskStatus>) -> (r: Grouping)
    requires
        all_scheduled(tasks@),
        tasks@.len() <= usize::MAX / 2,
    ensures
        r.describes(shown_tasks(tasks@, filter)),
        r.wf(),
{
    let shown = display_tasks(tasks, filter);
    proof {
        lemma_filter_scheduled(tasks@, |t: Task| crate::index::shown(t, filter));
        tasks@.lemma_filter_len(|t: Task| crate::index::shown(t, filter));
    }
    match group(&shown) {
        Ok(g) => g,
        Err(e) => {
            // Unreachable: every shown task has a schedule.
            proof {
                assert(schedule_of(shown@[e.position as int]) is Ok);
                assert(false);
            }
            Grouping { groups: Vec::new(), selectable: Vec::new(), total: 0 }
        },
    }
}

impl TaskList {
    /// The tasks on show.
    pub open spec fn shown(&self) -> Seq<Task> {
        shown_tasks(self.tasks@, self.filter)
    }

    /// Every task has a schedule and `view` is the grouping of the tasks
    /// on show.
    pub open spec fn wf(&self) -> bool {
        &&& all_scheduled(self.tasks@)
        &&& self.tasks@.len() <= usize::MAX / 2
        &&& self.view.describes(self.shown())
        &&& self.view.wf()
    }

    /// The list of `tasks` under `filter`. Fails on the first task whose
    /// date or time cannot be read.
    pub fn new(tasks: Vec<Task>, filter: Option<TaskStatus>) -> (r: Result<TaskList, InvalidTask>)
        requires
            tasks@.len() <= usize::MAX / 2,
        ensures
            match r {
                Ok(l) => l.wf() && l.tasks@ == tasks@ && l.filter == filter,
                Err(e) => first_unscheduled(tasks@, e),
            },
    {
        match schedules(&tasks) {
            Err(e) => Err(e),
            Ok(_) => {
                let view = view_of(&tasks, filter);
                Ok(TaskList { tasks, filter, view })
            },
        }
    }

    /// Shows the tasks with status `filter` (every task for `None`).
    pub fn set_filter(&mut self, filter: Option<TaskStatus>)
        requires
            old(self).wf(),
        ensures
            final(self).wf(),
            final(self).tasks@ == old(self).tasks@,
            final(self).filter == filter,
    {
        self.filter = filter;
        self.view = view_of(&self.tasks, filter);
    }

    /// Replaces the first task with `task`'s identifier by `task`, or adds
    /// `task` at the end when there is none. A task whose date or time
    /// cannot be read is refused and nothing changes.
    pub fn add_or_modify(&mut self, task: Task) -> (r: Result<(), ScheduleError>)
        requires
            old(self).wf(),
            old(self).tasks@.len() < usize::MAX / 2,
        ensures
            final(self).wf(),
            final(self).filter == old(self).filter,
            match r {
                Ok(()) => schedule_of(task) is Ok && if exists|k: int|
                    first_with_id(old(self).tasks@, task.id, k) {
                    final(self).tasks@ == old(self).tasks@.update(
                        choose|k: int| first_with_id(old(self).tasks@, task.id, k),
                        task,
                    )
                } else {
                    final(self).tasks@ == old(self).tasks@.push(task)
                },
                Err(e) => {
                    &&& schedule_of(task) == Err::<DateTime, ScheduleError>(e)
                    &&& final(self).tasks@ == old(self).tasks@
                },
            },
    {
        if let Err(e) = task.schedule() {
            return Err(e);
        }
        let ghost before = self.tasks@;
        match find_task(&self.tasks, task.id) {
            Some(k) => {
                proof {
                    assert(first_with_id(before, task.id, k as int));
                    let c = choose|c: int| first_with_id(before, task.id, c);
                    if c < k {
                        assert(before[c].id != task.id);
                    } else if k < c {
                        assert(before[k as int].id != task.id);
                    }
                }
                self.tasks.set(k, task);
            },
            None => {
                self.tasks.push(task);
            },
        }
        proof {
            assert forall|i: int| 0 <= i < self.tasks@.len() implies (#[trigger] schedule_of(
                self.tasks@[i],
            )) is Ok by {
                if i < before.len() && self.tasks@[i] == before[i] {
                    assert(schedule_of(before[i]) is Ok);
                }
            }
        }
        self.view = view_of(&self.tasks, self.filter);
        Ok(())
    }

    /// Removes every task with identifier `id`.
    pub fn delete(&mut self, id: u128)
        requires
            old(self).wf(),
        ensures
            final(self).wf(),
            final(self).filter == old(self).filter,
            final(self).tasks@ == old(self).tasks@.filter(|t: Task| t.id != id),
    {
        let ghost pred = |t: Task| t.id != id;
        let mut kept: Vec<Task> = Vec::new();
        let mut i: usize = 0;
        while i < self.tasks.len()
            invariant
                pred == (|t: Task| t.id != id),
                i <= self.tasks@.len(),
                kept@ == self.tasks@.take(i as int).filter(pred),
            decreases self.tasks@.len() - i,
        {
            let keep = self.tasks[i].id != id;
            if keep {
                let t = self.tasks[i].clone();
                kept.push(t);
            }
            proof {
                let next = self.tasks@.take(i + 1);
                assert(next.drop_last() =~= self.tasks@.take(i as int));
                assert(next.last() == self.tasks@[i as int]);
                reveal_with_fuel(Seq::filter, 1);
                assert(next.filter(pred) == if pred(next.last()) {
                    next.drop_last().filter(pred).push(next.last())
                } else {
                    next.drop_last().filter(pred)
                });
            }
            i += 1;
        }
        proof {
            assert(self.tasks@.take(self.tasks@.len() as int) =~= self.tasks@);
            lemma_filter_scheduled(self.tasks@, pred);
            self.tasks@.lemma_filter_len(pred);
        }
        self.tasks = kept;
        self.view = view_of(&self.tasks, self.filter);
    }

    /// Toggles the completion of the first task with identifier `id`, at
    /// `now`, as `toggled` says; nothing changes when there is none.
    pub fn toggle_completed(&mut self, id: u128, now: &DateTime)
        requires
            old(self).wf(),
        ensures
            final(self).wf(),
            final(self).filter == old(self).filter,
            if exists|k: int| first_with_id(old(self).tasks@, id, k) {
                final(self).tasks@ == old(self).tasks@.update(
                    choose|k: int| first_with_id(old(self).tasks@, id, k),
                    toggled(old(self).tasks@[choose|k: int| first_with_id(old(self).tasks@, id, k)], *now),
                )
            } else {
                final(self).tasks@ == old(self).tasks@
            },
    {
        let ghost before = self.tasks@;
        match find_task(&self.tasks, id) {
            None => {},
            Some(k) => {
                proof {
                    assert(first_with_id(before, id, k as int));
                    let c = choose|c: int| first_with_id(before, id, c);
                    if c < k {
                        assert(before[c].id != id);
                    } else if k < c {
                        assert(before[k as int].id != id);
                    }
                    assert(schedule_of(before[k as int]) is Ok);
                }
                let mut t = self.tasks[k].clone();
                if let Ok(due) = t.schedule() {
                    t.status = if t.status == TaskStatus::Completed {
                        if due.is_before(now) {
                            TaskStatus::OverDue
                        } else {
                            TaskStatus::Pending
                        }
                    } else {
                        TaskStatus::Completed
                    };
                }
                self.tasks.set(k, t);
                proof {
                    assert forall|i: int| 0 <= i < self.tasks@.len() implies (#[trigger] schedule_of(
                        self.tasks@[i],
                    )) is Ok by {
                        assert(schedule_of(before[i]) is Ok);
                    }
                }
                self.view = view_of(&self.tasks, self.filter);
            },
        }
    }
}

} // verus!
