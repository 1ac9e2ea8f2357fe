use vstd::prelude::*;

use crate::calendar::{date_lt, instant_lt, schedule_of, Date, DateTime};
use crate::overdue::{all_scheduled, first_unscheduled, schedules, InvalidTask};
use crate::task::{Task, TaskStatus};

verus! {

/// `a` comes before `b` when the instants at those positions of `due` are
/// in order, or equal with `a` first in the collection.
pub open spec fn slot_lt(due: Seq<DateTime>, a: usize, b: usize) -> bool {
    instant_lt(due[a as int], due[b as int]) || (due[a as int] == due[b as int] && a < b)
}

/// The positions of `m` stand in strictly increasing `slot_lt` order.
pub open spec fn in_slot_order(due: Seq<DateTime>, m: Seq<usize>) -> bool {
    forall|x: int, y: int| 0 <= x < y < m.len() ==> #[trigger] slot_lt(due, m[x], m[y])
}

proof fn lemma_instant_order(a: DateTime, b: DateTime, c: DateTime)
    ensures
        instant_lt(a, b) ==> !instant_lt(b, a),
        !instant_lt(a, a),
        instant_lt(a, b) && instant_lt(b, c) ==> instant_lt(a, c),
        a == b || instant_lt(a, b) || instant_lt(b, a),
{
}

/// Inserts position `i` into `members`, kept in `slot_lt` order, after every
/// member due no later than it.
pub(crate) fn insert_in_order(members: &mut Vec<usize>, due: &Vec<DateTime>, i: usize)
    requires
        i < due@.len(),
        in_slot_order(due@, old(members)@),
        forall|x: int| 0 <= x < old(members)@.len() ==> #[trigger] old(members)@[x] < i,
    ensures
        in_slot_order(due@, final(members)@),
        exists|k: int|
            0 <= k <= old(members)@.len() && final(members)@ == old(members)@.insert(k, i),
{
    let mut k: usize = 0;
    while k < members.len() && !due[i].is_before(&due[members[k]])
        invariant
            i < due@.len(),
            members@ == old(members)@,
            k <= members@.len(),
            forall|x: int| 0 <= x < members@.len() ==> #[trigger] members@[x] < i,
            forall|x: int| 0 <= x < k ==> !instant_lt(due@[i as int], due@[#[trigger] members@[x] as int]),
        decreases members@.len() - k,
    {
        k += 1;
    }
    let ghost before = members@;
    members.insert(k, i);
    proof {
        before.insert_ensures(k as int, i);
        let after = members@;
        assert forall|x: int, y: int| 0 <= x < y < after.len() implies #[trigger] slot_lt(
            due@,
            after[x],
            after[y],
        ) by {
            if y < k {
                assert(slot_lt(due@, before[x], before[y]));
            } else if y == k {
                lemma_instant_order(due@[before[x] as int], due@[i as int], due@[i as int]);
            } else if x < k {
                assert(slot_lt(due@, before[x], before[y - 1]));
            } else if x == k {
                let first = before[k as int];
                let other = before[y - 1];
                if y - 1 > k {
                    assert(slot_lt(due@, first, other));
                }
                lemma_instant_order(due@[i as int], due@[first as int], due@[other as int]);
            } else {
                assert(slot_lt(due@, before[x - 1], before[y - 1]));
            }
        }
    }
}

/// The tasks of one calendar day: their positions in the collection, in
/// order of time of day, ties kept in collection order.
#[derive(Debug)]
pub struct DateGroup {
    pub date: Date,
    pub members: Vec<usize>,
}

/// A day group as a value: its day and its member positions.
pub type DayView = (Date, Seq<usize>);

/// The value of each group of `gs`.
pub open spec fn day_views(gs: Seq<DateGroup>) -> Seq<DayView> {
    gs.map_values(|g: DateGroup| (g.date, g.members@))
}

/// How many member positions the groups hold together.
pub open spec fn members_total(gs: Seq<DayView>) -> nat
    decreases gs.len(),
{
    if gs.len() == 0 {
        0
    } else {
        members_total(gs.drop_last()) + gs.last().1.len()
    }
}

/// `gs` groups the first `n` positions of `due` by day: days strictly
/// increase, every group is non-empty and in `slot_lt` order, every member
/// is one of those positions and has the group's day, and every such
/// position belongs to the group of its day.
pub open spec fn grouped_upto(due: Seq<DateTime>, gs: Seq<DayView>, n: int) -> bool {
    &&& forall|a: int, b: int| 0 <= a < b < gs.len() ==> date_lt(#[trigger] gs[a].0, #[trigger] gs[b].0)
    &&& forall|k: int| 0 <= k < gs.len() ==> (#[trigger] gs[k]).1.len() > 0 && in_slot_order(due, gs[k].1)
    &&& forall|k: int, x: int|
        0 <= k < gs.len() && 0 <= x < gs[k].1.len() ==> {
            &&& (#[trigger] gs[k].1[x]) < n
            &&& due[gs[k].1[x] as int].date == gs[k].0
        }
    &&& forall|j: int| 0 <= j < n ==> #[trigger] placed(due, gs, j)
}

/// Position `j` belongs to a group of `gs` for its day.
pub open spec fn placed(due: Seq<DateTime>, gs: Seq<DayView>, j: int) -> bool {
    exists|k: int| 0 <= k < gs.len() && #[trigger] gs[k].0 == due[j].date && gs[k].1.contains(j as usize)
}

/// `gs` groups every position of `due` by day, as `grouped_upto` says.
pub open spec fn grouped(due: Seq<DateTime>, gs: Seq<DayView>) -> bool {
    grouped_upto(due, gs, due.len() as int)
}

proof fn lemma_total_update(gs: Seq<DayView>, k: int, g: DayView)
    requires
        0 <= k < gs.len(),
    ensures
        members_total(gs.update(k, g)) == members_total(gs) - gs[k].1.len() + g.1.len(),
    decreases gs.len(),
{
    let u = gs.update(k, g);
    if k == gs.len() - 1 {
        assert(u.drop_last() =~= gs.drop_last());
    } else {
        assert(u.drop_last() =~= gs.drop_last().update(k, g));
        lemma_total_update(gs.drop_last(), k, g);
    }
}

proof fn lemma_total_insert(gs: Seq<DayView>, k: int, g: DayView)
    requires
        0 <= k <= gs.len(),
    ensures
        members_total(gs.insert(k, g)) == members_total(gs) + g.1.len(),
    decreases gs.len(),
{
    let u = gs.insert(k, g);
    if k == gs.len() {
        assert(u.drop_last() =~= gs);
    } else {
        assert(u.drop_last() =~= gs.drop_last().insert(k, g));
        lemma_total_insert(gs.drop_last(), k, g);
    }
}

/// Adds position `i` to the group of its day, opening that group where
/// its day falls among the others when there is none yet.
fn place(groups: &mut Vec<DateGroup>, due: &Vec<DateTime>, i: usize)
    requires
        i < due@.len(),
        grouped_upto(due@, day_views(old(groups)@), i as int),
        members_total(day_views(old(groups)@)) == i,
        old(groups)@.len() <= i,
    ensures
        grouped_upto(due@, day_views(final(groups)@), i + 1),
        members_total(day_views(final(groups)@)) == i + 1,
        final(groups)@.len() <= i + 1,
{
    let ghost gv = day_views(groups@);
    let d = due[i].date;
    let mut k: usize = 0;
    while k < groups.len() && groups[k].date.is_before(&d)
        invariant
            gv == day_views(groups@),
            k <= groups@.len(),
            forall|x: int| 0 <= x < k ==> date_lt(#[trigger] gv[x].0, d),
        decreases groups@.len() - k,
    {
        k += 1;
    }
    if k < groups.len() && groups[k].date == d {
        let mut g = groups.remove(k);
        let ghost old_members = g.members@;
        proof {
            assert(gv[k as int] == (g.date, old_members));
            assert forall|x: int| 0 <= x < old_members.len() implies #[trigger] old_members[x] < i by {
                assert(gv[k as int].1[x] < i);
            }
        }
        insert_in_order(&mut g.members, due, i);
        let ghost new_view = (g.date, g.members@);
        groups.insert(k, g);
        proof {
            let p = choose|p: int|
                0 <= p <= old_members.len() && g.members@ == old_members.insert(p, i);
            old_members.insert_ensures(p, i);
            assert(day_views(groups@) =~= gv.update(k as int, new_view));
            lemma_total_update(gv, k as int, new_view);
            let nv = day_views(groups@);
            assert forall|a: int| 0 <= a < nv.len() implies #[trigger] nv[a].0 == gv[a].0 by {}
            assert forall|a: int, b: int| 0 <= a < b < nv.len() implies date_lt(
                #[trigger] nv[a].0,
                #[trigger] nv[b].0,
            ) by {
                assert(nv[a].0 == gv[a].0 && nv[b].0 == gv[b].0);
            }
            assert forall|kk: int| 0 <= kk < nv.len() implies (#[trigger] nv[kk]).1.len() > 0
                && in_slot_order(due@, nv[kk].1) by {
                if kk != k {
                    assert(nv[kk] == gv[kk]);
                }
            }
            assert forall|kk: int, x: int| 0 <= kk < nv.len() && 0 <= x < nv[kk].1.len() implies {
                &&& (#[trigger] nv[kk].1[x]) < i + 1
                &&& due@[nv[kk].1[x] as int].date == nv[kk].0
            } by {
                if kk == k {
                    if x < p {
                        assert(gv[kk].1[x] == nv[kk].1[x]);
                    } else if x > p {
                        assert(gv[kk].1[x - 1] == nv[kk].1[x]);
                    }
                }
            }
            assert forall|j: int| 0 <= j < i + 1 implies #[trigger] placed(due@, nv, j) by {
                if j == i {
                    assert(nv[k as int].1[p] == i);
                } else {
                    assert(placed(due@, gv, j));
                    let kk = choose|kk: int|
                        0 <= kk < gv.len() && #[trigger] gv[kk].0 == due@[j].date && gv[kk].1.contains(
                            j as usize,
                        );
                    if kk == k {
                        let x = choose|x: int| 0 <= x < old_members.len() && old_members[x] == j;
                        if x < p {
                            assert(nv[kk].1[x] == j);
                        } else {
                            assert(nv[kk].1[x + 1] == j);
                        }
                    } else {
                        assert(nv[kk] == gv[kk]);
                    }
                }
            }
        }
    } else {
        let mut members: Vec<usize> = Vec::new();
        members.push(i);
        let g = DateGroup { date: d, members };
        let ghost new_view = (d, g.members@);
        groups.insert(k, g);
        proof {
            gv.insert_ensures(k as int, new_view);
            assert(day_views(groups@) =~= gv.insert(k as int, new_view));
            lemma_total_insert(gv, k as int, new_view);
            let nv = day_views(groups@);
            if k < gv.len() {
                assert(date_lt(d, gv[k as int].0));
            }
            assert forall|a: int, b: int| 0 <= a < b < nv.len() implies date_lt(
                #[trigger] nv[a].0,
                #[trigger] nv[b].0,
            ) by {
                if b < k {
                    assert(date_lt(gv[a].0, gv[b].0));
                } else if b == k {
                    assert(date_lt(gv[a].0, d));
                } else if a < k {
                    assert(date_lt(gv[a].0, d));
                    assert(date_lt(d, gv[k as int].0));
                    if b - 1 > k {
                        assert(date_lt(gv[k as int].0, gv[b - 1].0));
                    }
                } else if a == k {
                    if b - 1 > k {
                        assert(date_lt(gv[k as int].0, gv[b - 1].0));
                    }
                } else {
                    assert(date_lt(gv[a - 1].0, gv[b - 1].0));
                }
            }
            assert forall|kk: int| 0 <= kk < nv.len() implies (#[trigger] nv[kk]).1.len() > 0
                && in_slot_order(due@, nv[kk].1) by {
                if kk < k {
                    assert(nv[kk] == gv[kk]);
                } else if kk > k {
                    assert(nv[kk] == gv[kk - 1]);
                }
            }
            assert forall|kk: int, x: int| 0 <= kk < nv.len() && 0 <= x < nv[kk].1.len() implies {
                &&& (#[trigger] nv[kk].1[x]) < i + 1
                &&& due@[nv[kk].1[x] as int].date == nv[kk].0
            } by {
                if kk < k {
                    assert(nv[kk] == gv[kk]);
                } else if kk > k {
                    assert(nv[kk] == gv[kk - 1]);
                }
            }
            assert forall|j: int| 0 <= j < i + 1 implies #[trigger] placed(due@, nv, j) by {
                if j == i {
                    assert(nv[k as int].1[0] == i);
                } else {
                    assert(placed(due@, gv, j));
                    let kk = choose|kk: int|
                        0 <= kk < gv.len() && #[trigger] gv[kk].0 == due@[j].date && gv[kk].1.contains(
                            j as usize,
                        );
                    if kk < k {
                        assert(nv[kk] == gv[kk]);
                    } else {
                        assert(nv[kk + 1] == gv[kk]);
                    }
                }
            }
        }
    }
}

/// The due instant of every task of a fully scheduled collection.
pub open spec fn due_seq(tasks: Seq<Task>) -> Seq<DateTime> {
    tasks.map_values(|t: Task| schedule_of(t)->Ok_0)
}

/// The identifier of every task.
pub open spec fn id_seq(tasks: Seq<Task>) -> Seq<u128> {
    tasks.map_values(|t: Task| t.id)
}

/// The rows that the groups take: one header row per day, then one row per
/// task.
pub open spec fn row_count(gs: Seq<DayView>) -> nat {
    gs.len() + members_total(gs)
}

/// The selectable rows of `gs`, as `(row, task id)`: each group's header
/// row is skipped, and its members follow it on consecutive rows.
pub open spec fn selectable_rows(gs: Seq<DayView>, ids: Seq<u128>) -> Seq<(usize, u128)>
    decreases gs.len(),
{
    if gs.len() == 0 {
        Seq::empty()
    } else {
        let init = gs.drop_last();
        selectable_rows(init, ids) + Seq::new(
            gs.last().1.len(),
            |m: int| ((row_count(init) + 1 + m) as usize, ids[gs.last().1[m] as int]),
        )
    }
}

/// The date-grouped view of a task collection, with the flat row layout
/// that a list of it takes.
#[derive(Debug)]
pub struct Grouping {
    /// One group per day that has tasks, days in increasing order.
    pub groups: Vec<DateGroup>,
    /// `(row, task id)` for every task row, rows in increasing order.
    pub selectable: Vec<(usize, u128)>,
    /// The number of rows, headers included.
    pub total: usize,
}

impl Grouping {
    /// The groups as values.
    pub open spec fn days(&self) -> Seq<DayView> {
        day_views(self.groups@)
    }

    /// `self` groups positions due at `due` and shows them under the
    /// identifiers `ids`.
    pub open spec fn lays_out(&self, due: Seq<DateTime>, ids: Seq<u128>) -> bool {
        &&& grouped(due, self.days())
        &&& self.selectable@ == selectable_rows(self.days(), ids)
        &&& self.total == row_count(self.days())
    }

    /// `self` is the grouping of `tasks`.
    pub open spec fn describes(&self, tasks: Seq<Task>) -> bool {
        all_scheduled(tasks) && self.lays_out(due_seq(tasks), id_seq(tasks))
    }
}

proof fn lemma_total_prefix(gs: Seq<DayView>, k: int)
    requires
        0 <= k <= gs.len(),
    ensures
        members_total(gs.take(k)) <= members_total(gs),
    decreases gs.len(),
{
    if k == gs.len() {
        assert(gs.take(k) =~= gs);
    } else {
        assert(gs.take(k) =~= gs.drop_last().take(k));
        lemma_total_prefix(gs.drop_last(), k);
    }
}

/// Groups `tasks` by day, each day's tasks by time of day (ties in
/// collection order), and lays the groups out as rows: a header row per
/// day followed by its task rows. Fails on the first task whose date or
/// time cannot be read.
pub fn group(tasks: &Vec<Task>) -> (r: Result<Grouping, InvalidTask>)
    requires
        tasks@.len() <= usize::MAX / 2,
    ensures
        match r {
            Ok(g) => g.describes(tasks@) && g.wf(),
            Err(e) => first_unscheduled(tasks@, e),
        },
{
    let due = match schedules(tasks) {
        Ok(v) => v,
        Err(e) => return Err(e),
    };
    assert(due@ =~= due_seq(tasks@)) by {
        assert forall|i: int| 0 <= i < tasks@.len() implies due@[i] == #[trigger] due_seq(tasks@)[i] by {
            assert(schedule_of(tasks@[i]) == Ok::<DateTime, crate::calendar::ScheduleError>(due@[i]));
        }
    }
    Ok(group_by_schedule(tasks, &due))
}

/// The grouping of `tasks` given the instant each is due (`due[i]` for
/// `tasks[i]`): groups by day in increasing order, each by time of day with
/// ties in collection order, laid out as header and task rows.
pub fn group_by_schedule(tasks: &Vec<Task>, due: &Vec<DateTime>) -> (r: Grouping)
    requires
        due@.len() == tasks@.len(),
        tasks@.len() <= usize::MAX / 2,
    ensures
        r.lays_out(due@, id_seq(tasks@)),
        r.wf(),
{
    let ghost n = tasks@.len() as int;
    let mut groups: Vec<DateGroup> = Vec::new();
    let mut i: usize = 0;
    assert(day_views(groups@) =~= Seq::<DayView>::empty());
    while i < tasks.len()
        invariant
            due@.len() == n,
            n == tasks@.len(),
            i <= n,
            grouped_upto(due@, day_views(groups@), i as int),
            members_total(day_views(groups@)) == i,
            groups@.len() <= i,
        decreases n - i,
    {
        place(&mut groups, &due, i);
        i += 1;
    }
    let ghost gs = day_views(groups@);
    let ghost ids = id_seq(tasks@);
    let mut selectable: Vec<(usize, u128)> = Vec::new();
    let mut row: usize = 0;
    let mut k: usize = 0;
    while k < groups.len()
        invariant
            gs == day_views(groups@),
            grouped(due@, gs),
            due@.len() == n,
            n == tasks@.len(),
            n <= usize::MAX / 2,
            members_total(gs) == n,
            gs.len() <= n,
            ids == id_seq(tasks@),
            k <= gs.len(),
            row == row_count(gs.take(k as int)),
            selectable@ == selectable_rows(gs.take(k as int), ids),
        decreases gs.len() - k,
    {
        let ghost start = row as int;
        proof {
            lemma_total_prefix(gs, k + 1);
            assert(gs.take(k + 1).drop_last() =~= gs.take(k as int));
        }
        row += 1;
        let mut m: usize = 0;
        while m < groups[k].members.len()
            invariant
                gs == day_views(groups@),
                grouped(due@, gs),
                due@.len() == n,
                n == tasks@.len(),
                ids == id_seq(tasks@),
                k < gs.len(),
                start == row_count(gs.take(k as int)),
                start + 1 + gs[k as int].1.len() == row_count(gs.take(k + 1)),
                row_count(gs.take(k + 1)) <= usize::MAX,
                m <= gs[k as int].1.len(),
                row == start + 1 + m,
                selectable@ == selectable_rows(gs.take(k as int), ids) + Seq::new(
                    m as nat,
                    |x: int| ((start + 1 + x) as usize, ids[gs[k as int].1[x] as int]),
                ),
            decreases gs[k as int].1.len() - m,
        {
            let pos = groups[k].members[m];
            assert(gs[k as int].1[m as int] == pos);
            assert(pos < n);
            let id = tasks[pos].id;
            assert(ids[pos as int] == id);
            selectable.push((row, id));
            row += 1;
            m += 1;
            proof {
                assert(selectable@ =~= selectable_rows(gs.take(k as int), ids) + Seq::new(
                    m as nat,
                    |x: int| ((start + 1 + x) as usize, ids[gs[k as int].1[x] as int]),
                ));
            }
        }
        proof {
            let tk = gs.take(k + 1);
            assert(tk.last() == gs[k as int]);
            assert(selectable@ =~= selectable_rows(tk, ids));
        }
        k += 1;
    }
    assert(gs.take(gs.len() as int) =~= gs);
    proof {
        lemma_rows_ordered(gs, ids);
    }
    Grouping { groups, selectable, total: row }
}

/// A cursor move through the rows of a grouping.
#[derive(Clone, Copy, Debug, PartialEq, Eq, Structural)]
pub enum ScrollDirection {
    Up,
    Down,
}

/// The rows of `sel` strictly increase, start after row 0 and stay below
/// `total`.
pub open spec fn rows_ordered(sel: Seq<(usize, u128)>, total: int) -> bool {
    &&& forall|i: int, j: int| 0 <= i < j < sel.len() ==> (#[trigger] sel[i]).0 < (#[trigger] sel[j]).0
    &&& forall|i: int| 0 <= i < sel.len() ==> 1 <= (#[trigger] sel[i]).0 < total
}

/// `sel` has a selectable row `r`.
pub open spec fn has_row(sel: Seq<(usize, u128)>, r: int) -> bool {
    exists|i: int| 0 <= i < sel.len() && (#[trigger] sel[i]).0 == r
}

/// `r` is where the cursor lands when it moves from row `cur` in
/// direction `dir` over the selectable rows `sel`: the nearest selectable
/// row past `cur` that way, or, when there is none, the selectable row at
/// the far end the other way.
pub open spec fn scroll_target(sel: Seq<(usize, u128)>, cur: int, dir: ScrollDirection, r: int) -> bool {
    match dir {
        ScrollDirection::Down => if exists|i: int| 0 <= i < sel.len() && (#[trigger] sel[i]).0 > cur {
            &&& has_row(sel, r)
            &&& r > cur
            &&& forall|i: int| 0 <= i < sel.len() && (#[trigger] sel[i]).0 > cur ==> sel[i].0 >= r
        } else {
            r == sel[0].0
        },
        ScrollDirection::Up => if exists|i: int| 0 <= i < sel.len() && (#[trigger] sel[i]).0 < cur {
            &&& has_row(sel, r)
            &&& r < cur
            &&& forall|i: int| 0 <= i < sel.len() && (#[trigger] sel[i]).0 < cur ==> sel[i].0 <= r
        } else {
            r == sel.last().0
        },
    }
}

proof fn lemma_rows_ordered(gs: Seq<DayView>, ids: Seq<u128>)
    requires
        row_count(gs) <= usize::MAX,
    ensures
        rows_ordered(selectable_rows(gs, ids), row_count(gs) as int),
        selectable_rows(gs, ids).len() == members_total(gs),
    decreases gs.len(),
{
    if gs.len() > 0 {
        let init = gs.drop_last();
        lemma_rows_ordered(init, ids);
        let s = selectable_rows(gs, ids);
        let a = selectable_rows(init, ids);
        let base = row_count(init);
        assert forall|i: int| 0 <= i < s.len() implies 1 <= (#[trigger] s[i]).0 < row_count(gs) by {
            if i >= a.len() {
                assert(s[i].0 == base + 1 + (i - a.len()));
            } else {
                assert(s[i] == a[i]);
            }
        }
        assert forall|i: int, j: int| 0 <= i < j < s.len() implies (#[trigger] s[i]).0 < (
        #[trigger] s[j]).0 by {
            if j >= a.len() {
                assert(s[j].0 == base + 1 + (j - a.len()));
                if i >= a.len() {
                    assert(s[i].0 == base + 1 + (i - a.len()));
                } else {
                    assert(s[i] == a[i]);
                }
            } else {
                assert(s[i] == a[i] && s[j] == a[j]);
            }
        }
    }
}

impl Grouping {
    /// The selectable rows are in order and inside the row range.
    pub open spec fn wf(&self) -> bool {
        rows_ordered(self.selectable@, self.total as int)
    }

    /// Where the cursor lands when it moves one step from `current` (no
    /// selection counts as row 0) in `direction`, skipping header rows and
    /// wrapping around the row range. With no task rows the cursor stays.
    pub fn scroll(&self, current: Option<usize>, direction: ScrollDirection) -> (r: Option<usize>)
        requires
            self.wf(),
        ensures
            self.selectable@.len() == 0 ==> r == current,
            self.selectable@.len() > 0 ==> r is Some && scroll_target(
                self.selectable@,
                match current {
                    Some(c) => c as int,
                    None => 0,
                },
                direction,
                r->Some_0 as int,
            ),
            self.selectable@.len() > 0 ==> has_row(self.selectable@, r->Some_0 as int),
    {
        let sel = &self.selectable;
        let n = sel.len();
        if n == 0 {
            return current;
        }
        let cur: usize = match current {
            Some(c) => c,
            None => 0,
        };
        match direction {
            ScrollDirection::Down => {
                let mut k: usize = 0;
                while k < n && sel[k].0 <= cur
                    invariant
                        n == sel@.len(),
                        k <= n,
                        forall|j: int| 0 <= j < k ==> (#[trigger] sel@[j]).0 <= cur,
                    decreases n - k,
                {
                    k += 1;
                }
                if k < n {
                    assert(has_row(sel@, sel@[k as int].0 as int));
                    assert forall|j: int| 0 <= j < n && (#[trigger] sel@[j]).0 > cur implies sel@[j].0
                        >= sel@[k as int].0 by {
                        if j > k {
                            assert(sel@[k as int].0 < sel@[j].0);
                        }
                    }
                    Some(sel[k].0)
                } else {
                    assert(has_row(sel@, sel@[0].0 as int));
                    Some(sel[0].0)
                }
            },
            ScrollDirection::Up => {
                let mut k: usize = n;
                while k > 0 && sel[k - 1].0 >= cur
                    invariant
                        n == sel@.len(),
                        k <= n,
                        forall|j: int| k <= j < n ==> (#[trigger] sel@[j]).0 >= cur,
                    decreases k,
                {
                    k -= 1;
                }
                if k > 0 {
                    assert(has_row(sel@, sel@[k - 1].0 as int));
                    assert forall|j: int| 0 <= j < n && (#[trigger] sel@[j]).0 < cur implies sel@[j].0
                        <= sel@[k - 1].0 by {
                        if j < k - 1 {
                            assert(sel@[j].0 < sel@[k - 1].0);
                        }
                    }
                    Some(sel[k - 1].0)
                } else {
                    assert(has_row(sel@, sel@[n - 1].0 as int));
                    Some(sel[n - 1].0)
                }
            },
        }
    }
}

/// Navigation wraps: moving down from the last selectable row lands on the
/// first, and moving up from the first lands on the last.
pub proof fn lemma_scroll_wraps(g: &Grouping, r: int)
    requires
        g.wf(),
        g.selectable@.len() > 0,
    ensures
        scroll_target(g.selectable@, g.selectable@.last().0 as int, ScrollDirection::Down, r) <==> r
            == g.selectable@[0].0,
        scroll_target(g.selectable@, g.selectable@[0].0 as int, ScrollDirection::Up, r) <==> r
            == g.selectable@.last().0,
{
    let sel = g.selectable@;
    let n = sel.len() as int;
    assert forall|i: int| 0 <= i < n implies (#[trigger] sel[i]).0 <= sel.last().0 by {
        if i < n - 1 {
            assert(sel[i].0 < sel[n - 1].0);
        }
    }
    assert forall|i: int| 0 <= i < n implies (#[trigger] sel[i]).0 >= sel[0].0 by {
        if i > 0 {
            assert(sel[0].0 < sel[i].0);
        }
    }
}

proof fn lemma_sorted_unique<T>(a: Seq<T>, b: Seq<T>, lt: spec_fn(T, T) -> bool)
    requires
        forall|i: int, j: int| 0 <= i < j < a.len() ==> lt(#[trigger] a[i], #[trigger] a[j]),
        forall|i: int, j: int| 0 <= i < j < b.len() ==> lt(#[trigger] b[i], #[trigger] b[j]),
        forall|x: T, y: T| #[trigger] lt(x, y) ==> !lt(y, x),
        forall|x: T| a.contains(x) <==> b.contains(x),
    ensures
        a == b,
    decreases a.len(),
{
    if a.len() == 0 {
        if b.len() > 0 {
            assert(b.contains(b[0]));
        }
        assert(a =~= b);
    } else {
        assert(a.contains(a[0]));
        let j = choose|j: int| 0 <= j < b.len() && b[j] == a[0];
        if j > 0 {
            assert(b.contains(b[0]));
            let i = choose|i: int| 0 <= i < a.len() && a[i] == b[0];
            assert(lt(b[0], b[j]));
            if i == 0 {
                assert(!lt(b[0], b[0]));
            } else {
                assert(lt(a[0], a[i]));
            }
        }
        let ra = a.drop_first();
        let rb = b.drop_first();
        assert forall|x: T| ra.contains(x) <==> rb.contains(x) by {
            if ra.contains(x) {
                let i = choose|i: int| 0 <= i < ra.len() && ra[i] == x;
                assert(lt(a[0], a[i + 1]));
                assert(a.contains(x));
                let k = choose|k: int| 0 <= k < b.len() && b[k] == x;
                assert(k != 0);
                assert(rb[k - 1] == x);
            }
            if rb.contains(x) {
                let i = choose|i: int| 0 <= i < rb.len() && rb[i] == x;
                assert(lt(b[0], b[i + 1]));
                assert(b.contains(x));
                let k = choose|k: int| 0 <= k < a.len() && a[k] == x;
                assert(k != 0);
                assert(ra[k - 1] == x);
            }
        }
        lemma_sorted_unique(ra, rb, lt);
        assert(a =~= b) by {
            assert forall|i: int| 0 <= i < a.len() implies a[i] == b[i] by {
                if i > 0 {
                    assert(ra[i - 1] == rb[i - 1]);
                }
            }
        }
    }
}

proof fn lemma_grouped_unique(due: Seq<DateTime>, g1: Seq<DayView>, g2: Seq<DayView>)
    requires
        grouped(due, g1),
        grouped(due, g2),
    ensures
        g1 == g2,
{
    let n = due.len() as int;
    let d1 = g1.map_values(|g: DayView| g.0);
    let d2 = g2.map_values(|g: DayView| g.0);
    let date_order = |x: Date, y: Date| date_lt(x, y);
    assert forall|x: Date| d1.contains(x) <==> d2.contains(x) by {
        if d1.contains(x) {
            let k = choose|k: int| 0 <= k < d1.len() && d1[k] == x;
            let j = g1[k].1[0];
            assert(due[j as int].date == x);
            assert(placed(due, g2, j as int));
            let kk = choose|kk: int|
                0 <= kk < g2.len() && #[trigger] g2[kk].0 == due[j as int].date && g2[kk].1.contains(
                    j,
                );
            assert(d2[kk] == x);
        }
        if d2.contains(x) {
            let k = choose|k: int| 0 <= k < d2.len() && d2[k] == x;
            let j = g2[k].1[0];
            assert(due[j as int].date == x);
            assert(placed(due, g1, j as int));
            let kk = choose|kk: int|
                0 <= kk < g1.len() && #[trigger] g1[kk].0 == due[j as int].date && g1[kk].1.contains(
                    j,
                );
            assert(d1[kk] == x);
        }
    }
    assert forall|x: Date, y: Date| #[trigger] date_order(x, y) implies !date_order(y, x) by {}
    assert forall|i: int, j: int| 0 <= i < j < d1.len() implies date_order(#[trigger] d1[i], #[trigger] d1[j]) by {
        assert(date_lt(g1[i].0, g1[j].0));
    }
    assert forall|i: int, j: int| 0 <= i < j < d2.len() implies date_order(#[trigger] d2[i], #[trigger] d2[j]) by {
        assert(date_lt(g2[i].0, g2[j].0));
    }
    lemma_sorted_unique(d1, d2, date_order);
    let slot_order = |x: usize, y: usize| slot_lt(due, x, y);
    assert forall|x: usize, y: usize| #[trigger] slot_order(x, y) implies !slot_order(y, x) by {
        lemma_instant_order(due[x as int], due[y as int], due[x as int]);
    }
    assert forall|k: int| 0 <= k < g1.len() implies g1[k] == g2[k] by {
        assert(d1[k] == d2[k]);
        let d = g1[k].0;
        let m1 = g1[k].1;
        let m2 = g2[k].1;
        assert forall|j: usize| m1.contains(j) <==> m2.contains(j) by {
            if m1.contains(j) {
                let x = choose|x: int| 0 <= x < m1.len() && m1[x] == j;
                assert(g1[k].1[x] < n);
                assert(placed(due, g2, j as int));
                let kk = choose|kk: int|
                    0 <= kk < g2.len() && #[trigger] g2[kk].0 == due[j as int].date
                        && g2[kk].1.contains(j);
                if kk != k {
                    if kk < k {
                        assert(date_lt(g2[kk].0, g2[k].0));
                    } else {
                        assert(date_lt(g2[k].0, g2[kk].0));
                    }
                }
            }
            if m2.contains(j) {
                let x = choose|x: int| 0 <= x < m2.len() && m2[x] == j;
                assert(g2[k].1[x] < n);
                assert(placed(due, g1, j as int));
                let kk = choose|kk: int|
                    0 <= kk < g1.len() && #[trigger] g1[kk].0 == due[j as int].date
                        && g1[kk].1.contains(j);
                if kk != k {
                    if kk < k {
                        assert(date_lt(g1[kk].0, g1[k].0));
                    } else {
                        assert(date_lt(g1[k].0, g1[kk].0));
                    }
                }
            }
        }
        assert(in_slot_order(due, m1) && in_slot_order(due, m2));
        assert forall|i: int, j: int| 0 <= i < j < m1.len() implies slot_order(#[trigger] m1[i], #[trigger] m1[j]) by {
            assert(slot_lt(due, m1[i], m1[j]));
        }
        assert forall|i: int, j: int| 0 <= i < j < m2.len() implies slot_order(#[trigger] m2[i], #[trigger] m2[j]) by {
            assert(slot_lt(due, m2[i], m2[j]));
        }
        lemma_sorted_unique(m1, m2, slot_order);
    }
    assert(g1 =~= g2);
}

/// Grouping is a function of the collection alone: two groupings of the
/// same tasks have the same groups, the same selectable rows and the same
/// row count.
pub proof fn lemma_group_deterministic(tasks: Seq<Task>, a: &Grouping, b: &Grouping)
    requires
        a.describes(tasks),
        b.describes(tasks),
    ensures
        a.days() == b.days(),
        a.selectable@ == b.selectable@,
        a.total == b.total,
{
    lemma_grouped_unique(due_seq(tasks), a.days(), b.days());
}

/// Whether a task is shown under a status filter (`None` shows every task).
pub open spec fn shown(t: Task, status: Option<TaskStatus>) -> bool {
    match status {
        None => true,
        Some(s) => t.status == s,
    }
}

/// The tasks of `tasks` shown under a status filter, in collection order.
pub open spec fn shown_tasks(tasks: Seq<Task>, status: Option<TaskStatus>) -> Seq<Task> {
    tasks.filter(|t: Task| shown(t, status))
}

/// The tasks shown under a status filter, in collection order.
pub fn display_tasks(tasks: &Vec<Task>, status: Option<TaskStatus>) -> (r: Vec<Task>)
    ensures
        r@ == shown_tasks(tasks@, status),
{
    let ghost pred = |t: Task| shown(t, status);
    let mut out: Vec<Task> = Vec::new();
    let mut i: usize = 0;
    while i < tasks.len()
        invariant
            pred == (|t: Task| shown(t, status)),
            i <= tasks@.len(),
            out@ == tasks@.take(i as int).filter(pred),
        decreases tasks@.len() - i,
    {
        let keep = match status {
            None => true,
            Some(s) => tasks[i].status == s,
        };
        let ghost before = out@;
        if keep {
            let t = tasks[i].clone();
            assert(t == tasks@[i as int]);
            out.push(t);
        }
        proof {
            let next = tasks@.take(i + 1);
            assert(next.drop_last() =~= tasks@.take(i as int));
            assert(next.last() == tasks@[i as int]);
            reveal_with_fuel(Seq::filter, 1);
            assert(next.filter(pred) == if pred(next.last()) {
                next.drop_last().filter(pred).push(next.last())
            } else {
                next.drop_last().filter(pred)
            });
            assert(keep == pred(tasks@[i as int]));
        }
        i += 1;
    }
    assert(tasks@.take(tasks@.len() as int) =~= tasks@);
    out
}

/// The position in the collection of the first task with identifier `id`.
pub fn find_task(tasks: &Vec<Task>, id: u128) -> (r: Option<usize>)
    ensures
        match r {
            Some(k) => k < tasks@.len() && tasks@[k as int].id == id && forall|j: int|
                0 <= j < k ==> (#[trigger] tasks@[j]).id != id,
            None => forall|j: int| 0 <= j < tasks@.len() ==> (#[trigger] tasks@[j]).id != id,
        },
{
    let mut i: usize = 0;
    while i < tasks.len()
        invariant
            i <= tasks@.len(),
            forall|j: int| 0 <= j < i ==> (#[trigger] tasks@[j]).id != id,
        decreases tasks@.len() - i,
    {
        if tasks[i].id == id {
            return Some(i);
        }
        i += 1;
    }
    None
}

impl Grouping {
    /// The identifier of the task on `row`, or `None` when `row` is a
    /// header row or outside the list.
    pub fn task_at_row(&self, row: usize) -> (r: Option<u128>)
        requires
            self.wf(),
        ensures
            match r {
                Some(id) => self.selectable@.contains((row, id)),
                None => forall|i: int|
                    0 <= i < self.selectable@.len() ==> (#[trigger] self.selectable@[i]).0 != row,
            },
    {
        let mut i: usize = 0;
        while i < self.selectable.len()
            invariant
                i <= self.selectable@.len(),
                forall|j: int| 0 <= j < i ==> (#[trigger] self.selectable@[j]).0 != row,
            decreases self.selectable@.len() - i,
        {
            let (pos, id) = self.selectable[i];
            if pos == row {
                assert(self.selectable@[i as int] == (row, id));
                return Some(id);
            }
            i += 1;
        }
        None
    }

    /// The row of the first task row showing identifier `id`.
    pub fn row_of(&self, id: u128) -> (r: Option<usize>)
        ensures
            match r {
                Some(row) => exists|k: int|
                    0 <= k < self.selectable@.len() && self.selectable@[k] == (row, id) && forall|
                        j: int,
                    | 0 <= j < k ==> (#[trigger] self.selectable@[j]).1 != id,
                None => forall|i: int|
                    0 <= i < self.selectable@.len() ==> (#[trigger] self.selectable@[i]).1 != id,
            },
    {
        let mut i: usize = 0;
        while i < self.selectable.len()
            invariant
                i <= self.selectable@.len(),
                forall|j: int| 0 <= j < i ==> (#[trigger] self.selectable@[j]).1 != id,
            decreases self.selectable@.len() - i,
        {
            let (pos, tid) = self.selectable[i];
            if tid == id {
                assert(self.selectable@[i as int] == (pos, id));
                return Some(pos);
            }
            i += 1;
        }
        None
    }
}

} // verus!
