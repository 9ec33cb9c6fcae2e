//! The filter engine: how one task compares against one clause, and how a
//! list of clauses narrows a list of tasks.

use vstd::prelude::*;
use crate::date::{date_less, date_text_of, parsed_date_of, DateView, TaskDate};
use crate::expression::{clause_view, ClauseView, LeftVar, Op};
use crate::task_model::{Task, TaskView};
use crate::text::{chars_of, contains, contains_exec, occurs_at};

verus! {

/// Lexicographic order of texts, character by character (by code point).
pub open spec fn text_less(a: Seq<char>, b: Seq<char>) -> bool
    decreases a.len(),
{
    if a.len() == 0 {
        b.len() > 0
    } else if b.len() == 0 {
        false
    } else if a[0] != b[0] {
        (a[0] as u32) < (b[0] as u32)
    } else {
        text_less(a.drop_first(), b.drop_first())
    }
}

/// `one OP other` on texts; `like` is containment of `other` in `one`.
pub open spec fn compare_text(one: Seq<char>, other: Seq<char>, op: Op) -> bool {
    match op {
        Op::Equals => one == other,
        Op::NotEquals => one != other,
        Op::Greater => text_less(other, one),
        Op::GrEquals => !text_less(one, other),
        Op::Less => text_less(one, other),
        Op::LeEquals => !text_less(other, one),
        Op::Like => contains(one, other),
    }
}

/// `one OP other` on date-times; `like` compares their text forms.
pub open spec fn compare_date(one: DateView, other: DateView, op: Op) -> bool {
    match op {
        Op::Equals => one == other,
        Op::NotEquals => one != other,
        Op::Greater => date_less(other, one),
        Op::GrEquals => !date_less(one, other),
        Op::Less => date_less(one, other),
        Op::LeEquals => !date_less(other, one),
        Op::Like => contains(date_text_of(one), date_text_of(other)),
    }
}

/// The text form of a flag.
pub open spec fn bool_text(b: bool) -> Seq<char> {
    if b {
        seq!['t', 'r', 'u', 'e']
    } else {
        seq!['f', 'a', 'l', 's', 'e']
    }
}

/// A date clause holds a value that reads as a date.
pub open spec fn clause_date_ok(c: ClauseView) -> bool {
    c.0 == LeftVar::Date ==> parsed_date_of(c.2) is Some
}

pub open spec fn dates_ok(cs: Seq<ClauseView>) -> bool {
    forall|i: int| 0 <= i < cs.len() ==> clause_date_ok(#[trigger] cs[i])
}

/// Whether a task meets a clause, its field compared by the field's type.
pub open spec fn task_matches(t: TaskView, c: ClauseView) -> bool {
    match c.0 {
        LeftVar::Name => compare_text(t.name, c.2, c.1),
        LeftVar::Description => compare_text(t.description, c.2, c.1),
        LeftVar::Category => compare_text(t.category, c.2, c.1),
        LeftVar::Done => compare_text(bool_text(t.done), c.2, c.1),
        LeftVar::Date => match parsed_date_of(c.2) {
            Some(d) => compare_date(t.date, d, c.1),
            None => false,
        },
    }
}

/// The tasks that meet the clause, in their order.
pub open spec fn keep_matching(ts: Seq<TaskView>, c: ClauseView) -> Seq<TaskView>
    decreases ts.len(),
{
    if ts.len() == 0 {
        seq![]
    } else {
        let r = keep_matching(ts.drop_last(), c);
        if task_matches(ts.last(), c) {
            r.push(ts.last())
        } else {
            r
        }
    }
}

/// The tasks narrowed by each clause in turn.
pub open spec fn filter_all(ts: Seq<TaskView>, cs: Seq<ClauseView>) -> Seq<TaskView>
    decreases cs.len(),
{
    if cs.len() == 0 {
        ts
    } else {
        keep_matching(filter_all(ts, cs.drop_last()), cs.last())
    }
}

pub open spec fn tasks_view(v: Seq<Task>) -> Seq<TaskView> {
    v.map_values(|t: Task| t@)
}

/// Whether `a` comes strictly before `b`.
pub fn text_less_exec(a: &Vec<char>, b: &Vec<char>) -> (r: bool)
    ensures
        r == text_less(a@, b@),
{
    let mut i: usize = 0;
    assert(a@.subrange(0, a@.len() as int) =~= a@);
    assert(b@.subrange(0, b@.len() as int) =~= b@);
    while i < a.len() && i < b.len() && a[i] == b[i]
        invariant
            i <= a.len(),
            i <= b.len(),
            text_less(a@, b@) == text_less(
                a@.subrange(i as int, a@.len() as int),
                b@.subrange(i as int, b@.len() as int),
            ),
        decreases a.len() - i,
    {
        assert(a@.subrange(i as int, a@.len() as int).drop_first() =~= a@.subrange(
            i + 1,
            a@.len() as int,
        ));
        assert(b@.subrange(i as int, b@.len() as int).drop_first() =~= b@.subrange(
            i + 1,
            b@.len() as int,
        ));
        i = i + 1;
    }
    if i == a.len() {
        i < b.len()
    } else if i == b.len() {
        false
    } else {
        (a[i] as u32) < (b[i] as u32)
    }
}

/// Whether `other` stands anywhere in `one`; the empty text stands everywhere.
pub fn text_contains(one: &Vec<char>, other: &Vec<char>) -> (r: bool)
    ensures
        r == contains(one@, other@),
{
    if other.len() == 0 {
        assert(one@.subrange(0, 0) =~= other@);
        assert(occurs_at(one@, other@, 0));
        return true;
    }
    contains_exec(one, other)
}

pub fn compare_text_exec(one: &Vec<char>, other: &Vec<char>, op: Op) -> (r: bool)
    ensures
        r == compare_text(one@, other@, op),
{
    match op {
        Op::Equals => equal_chars(one, other),
        Op::NotEquals => !equal_chars(one, other),
        Op::Greater => text_less_exec(other, one),
        Op::GrEquals => !text_less_exec(one, other),
        Op::Less => text_less_exec(one, other),
        Op::LeEquals => !text_less_exec(other, one),
        Op::Like => text_contains(one, other),
    }
}

pub fn equal_chars(a: &Vec<char>, b: &Vec<char>) -> (r: bool)
    ensures
        r == (a@ == b@),
{
    if a.len() != b.len() {
        return false;
    }
    let mut i: usize = 0;
    while i < a.len()
        invariant
            a.len() == b.len(),
            i <= a.len(),
            forall|j: int| 0 <= j < i ==> a@[j] == b@[j],
        decreases a.len() - i,
    {
        if a[i] != b[i] {
            return false;
        }
        i = i + 1;
    }
    assert(a@ =~= b@);
    true
}

pub fn compare_date_exec(one: &TaskDate, other: &TaskDate, op: Op) -> (r: bool)
    ensures
        r == compare_date(one@, other@, op),
{
    match op {
        Op::Equals => one.eq(other),
        Op::NotEquals => !one.eq(other),
        Op::Greater => other.less(one),
        Op::GrEquals => !one.less(other),
        Op::Less => one.less(other),
        Op::LeEquals => !other.less(one),
        Op::Like => {
            let a = one.to_text();
            let b = other.to_text();
            text_contains(&chars_of(a.as_str()), &chars_of(b.as_str()))
        },
    }
}

/// The text form of a flag, as characters.
fn bool_chars(b: bool) -> (r: Vec<char>)
    ensures
        r@ == bool_text(b),
{
    let mut r: Vec<char> = Vec::new();
    if b {
        r.push('t');
        r.push('r');
        r.push('u');
        r.push('e');
    } else {
        r.push('f');
        r.push('a');
        r.push('l');
        r.push('s');
        r.push('e');
    }
    assert(r@ =~= bool_text(b));
    r
}

/// Whether `t` meets the clause `c`; for a date clause `date` holds its
/// value read as a date.
pub fn match_field(c: &(LeftVar, Op, String), date: &Option<TaskDate>, t: &Task) -> (r: bool)
    requires
        c.0 == LeftVar::Date ==> date is Some && parsed_date_of(c.2@) == Some(date->0@),
    ensures
        r == task_matches(t@, clause_view(*c)),
{
    let value = chars_of(c.2.as_str());
    match c.0 {
        LeftVar::Name => compare_text_exec(&chars_of(t.name.as_str()), &value, c.1),
        LeftVar::Description => compare_text_exec(&chars_of(t.description.as_str()), &value, c.1),
        LeftVar::Category => compare_text_exec(&chars_of(t.category.as_str()), &value, c.1),
        LeftVar::Done => compare_text_exec(&bool_chars(t.done), &value, c.1),
        LeftVar::Date => match date {
            Some(d) => compare_date_exec(&t.date, d, c.1),
            None => false,
        },
    }
}

impl Task {
    /// A copy of the task.
    pub fn duplicate(&self) -> (r: Task)
        ensures
            r@ == self@,
    {
        Task {
            name: self.name.clone(),
            description: self.description.clone(),
            date: self.date,
            category: self.category.clone(),
            done: self.done,
        }
    }
}

/// The tasks of `ts` that meet the clause, in their order.
pub fn keep_matching_exec(ts: &Vec<Task>, c: &(LeftVar, Op, String), date: &Option<TaskDate>) -> (r:
    Vec<Task>)
    requires
        c.0 == LeftVar::Date ==> date is Some && parsed_date_of(c.2@) == Some(date->0@),
    ensures
        tasks_view(r@) == keep_matching(tasks_view(ts@), clause_view(*c)),
{
    let mut r: Vec<Task> = Vec::new();
    let mut i: usize = 0;
    while i < ts.len()
        invariant
            i <= ts.len(),
            c.0 == LeftVar::Date ==> date is Some && parsed_date_of(c.2@) == Some(date->0@),
            tasks_view(r@) == keep_matching(tasks_view(ts@.subrange(0, i as int)), clause_view(*c)),
        decreases ts.len() - i,
    {
        assert(tasks_view(ts@.subrange(0, i + 1)).drop_last() =~= tasks_view(
            ts@.subrange(0, i as int),
        ));
        assert(tasks_view(ts@.subrange(0, i + 1)).last() == ts@[i as int]@);
        if match_field(c, date, &ts[i]) {
            let ghost old_r = r@;
            r.push(ts[i].duplicate());
            assert(tasks_view(r@) =~= tasks_view(old_r).push(ts@[i as int]@));
        }
        i = i + 1;
    }
    assert(ts@.subrange(0, ts@.len() as int) =~= ts@);
    r
}

} // verus!
