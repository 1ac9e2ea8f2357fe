use vstd::prelude::*;

use crate::calendar::{chrono_date, date_lt, parse_date, Date};
use crate::task::Task;

verus! {

/// `needle` occurs in `hay` starting at `i`.
pub open spec fn occurs_at(hay: Seq<char>, needle: Seq<char>, i: int) -> bool {
    0 <= i && i + needle.len() <= hay.len() && hay.subrange(i, i + needle.len()) == needle
}

/// `needle` occurs somewhere in `hay`.
pub open spec fn occurs_in(hay: Seq<char>, needle: Seq<char>) -> bool {
    exists|i: int| #[trigger] occurs_at(hay, needle, i)
}

/// `i` is where `needle` first occurs in `hay`.
pub open spec fn first_occurrence(hay: Seq<char>, needle: Seq<char>, i: int) -> bool {
    occurs_at(hay, needle, i) && forall|j: int| 0 <= j < i ==> !#[trigger] occurs_at(hay, needle, j)
}

/// Characters with the Unicode White_Space property, the ones
/// `char::is_whitespace` accepts.
pub open spec fn is_white_space(c: char) -> bool {
    let n = c as u32;
    (0x9 <= n <= 0xd) || n == 0x20 || n == 0x85 || n == 0xa0 || n == 0x1680 || (0x2000 <= n
        <= 0x200a) || n == 0x2028 || n == 0x2029 || n == 0x202f || n == 0x205f || n == 0x3000
}

/// `s` without its leading white space.
pub open spec fn trim_start(s: Seq<char>) -> Seq<char>
    decreases s.len(),
{
    if s.len() > 0 && is_white_space(s[0]) {
        trim_start(s.drop_first())
    } else {
        s
    }
}

/// `s` without its trailing white space.
pub open spec fn trim_end(s: Seq<char>) -> Seq<char>
    decreases s.len(),
{
    if s.len() > 0 && is_white_space(s.last()) {
        trim_end(s.drop_last())
    } else {
        s
    }
}

/// `s` without its leading and trailing white space.
pub open spec fn trimmed(s: Seq<char>) -> Seq<char> {
    trim_end(trim_start(s))
}

/// Relies on `str::contains` with a string pattern: whether `needle`
/// occurs in `hay`.
#[verifier::external_body]
fn text_contains(hay: &str, needle: &str) -> (r: bool)
    ensures
        r == occurs_in(hay@, needle@),
{
    hay.contains(needle)
}

/// Relies on `str::split_once`: the text before and after the first
/// occurrence of `sep`, or `None` when it does not occur.
#[verifier::external_body]
fn split_first<'a>(s: &'a str, sep: &str) -> (r: Option<(&'a str, &'a str)>)
    ensures
        r is None <==> !occurs_in(s@, sep@),
        r is Some ==> first_occurrence(s@, sep@, r->Some_0.0@.len() as int) && s@ == r->Some_0.0@
            + sep@ + r->Some_0.1@,
{
    s.split_once(sep)
}

/// Relies on `str::trim`: the text without leading and trailing
/// characters that `char::is_whitespace` accepts.
#[verifier::external_body]
fn trim_text<'a>(s: &'a str) -> (r: &'a str)
    ensures
        r@ == trimmed(s@),
{
    s.trim()
}

/// The separator between the two days of a date-range query.
pub open spec fn range_sep() -> Seq<char> {
    seq![' ', '-', ' ']
}

proof fn lemma_first_unique(hay: Seq<char>, needle: Seq<char>, i: int, j: int)
    requires
        first_occurrence(hay, needle, i),
        first_occurrence(hay, needle, j),
    ensures
        i == j,
{
    if i < j {
        assert(!occurs_at(hay, needle, i));
    } else if j < i {
        assert(!occurs_at(hay, needle, j));
    }
}

/// The days a query asks for when it reads `DD MM YYYY - DD MM YYYY`:
/// the separator occurs exactly once, and the text on each side, trimmed,
/// is a date.
pub open spec fn query_range(q: Seq<char>) -> Option<(Date, Date)> {
    if exists|i: int| first_occurrence(q, range_sep(), i) {
        let i = choose|i: int| first_occurrence(q, range_sep(), i);
        let right = q.skip(i + range_sep().len());
        if occurs_in(right, range_sep()) {
            None
        } else {
            match (chrono_date(trimmed(q.take(i))), chrono_date(trimmed(right))) {
                (Some(a), Some(b)) => Some((a, b)),
                _ => None,
            }
        }
    } else {
        None
    }
}

/// Whether task `t` answers query `q`: an empty query keeps every task, a
/// date-range query the tasks whose day lies in the range (ends included),
/// and any other query the tasks whose title contains it.
pub open spec fn matches_query(t: Task, q: Seq<char>) -> bool {
    if q.len() == 0 {
        true
    } else {
        match query_range(q) {
            Some((a, b)) => match chrono_date(t.date@) {
                Some(d) => !date_lt(d, a) && !date_lt(b, d),
                None => false,
            },
            None => occurs_in(t.title@, q),
        }
    }
}

/// The date range a query asks for, if it reads as one.
pub fn parse_range(q: &str) -> (r: Option<(Date, Date)>)
    ensures
        r == query_range(q@),
{
    let sep = " - ";
    proof {
        reveal_strlit(" - ");
        assert(sep@ =~= range_sep());
    }
    match split_first(q, sep) {
        None => {
            assert(!exists|i: int| first_occurrence(q@, range_sep(), i));
            None
        },
        Some((left, right)) => {
            let ghost i = left@.len() as int;
            proof {
                let c = choose|c: int| first_occurrence(q@, range_sep(), c);
                lemma_first_unique(q@, range_sep(), i, c);
                assert(q@.take(i) =~= left@);
                assert(q@.skip(i + range_sep().len()) =~= right@);
            }
            if text_contains(right, sep) {
                None
            } else {
                let a = parse_date(trim_text(left));
                let b = parse_date(trim_text(right));
                match (a, b) {
                    (Some(a), Some(b)) => Some((a, b)),
                    _ => None,
                }
            }
        },
    }
}

/// The tasks that answer `query`, in collection order.
pub fn filter_tasks(tasks: &Vec<Task>, query: &str) -> (r: Vec<Task>)
    ensures
        r@ == tasks@.filter(|t: Task| matches_query(t, query@)),
{
    let ghost pred = |t: Task| matches_query(t, query@);
    let range = parse_range(query);
    let empty = query.is_empty();
    let mut out: Vec<Task> = Vec::new();
    let mut i: usize = 0;
    while i < tasks.len()
        invariant
            pred == (|t: Task| matches_query(t, query@)),
            range == query_range(query@),
            empty == (query@.len() == 0),
            i <= tasks@.len(),
            out@ == tasks@.take(i as int).filter(pred),
        decreases tasks@.len() - i,
    {
        let t = &tasks[i];
        let keep = if empty {
            true
        } else {
            match range {
                Some((a, b)) => match parse_date(t.date.as_str()) {
                    Some(d) => !d.is_before(&a) && !b.is_before(&d),
                    None => false,
                },
                None => text_contains(t.title.as_str(), query),
            }
        };
        if keep {
            let c = t.clone();
            out.push(c);
        }
        proof {
            let next = tasks@.take(i + 1);
            assert(next.drop_last() =~= tasks@.take(i as int));
            assert(next.last() == tasks@[i as int]);
            reveal_with_fuel(Seq::filter, 1);
            assert(next.filter(pred) == if pred(next.last()) {
                next.drop_last().filter(pred).push(next.last())
            } else {
                next.drop_last().filter(pred)
            });
            assert(keep == pred(tasks@[i as int]));
        }
        i += 1;
    }
    assert(tasks@.take(tasks@.len() as int) =~= tasks@);
    out
}

} // verus!
