//! The task store and the one-line commands that drive it.

use vstd::prelude::*;
use crate::date::{parsed_date_of, TaskDate};
use crate::errors::{ExpressionError, TaskError, TaskMgrError};
use crate::expression::{
    clause_view, clauses_view, command_equals, first_word, parse_args, parse_args_spec, word_end,
    ClauseView, LeftVar,
};
use crate::filter::{
    clause_date_ok, dates_ok, equal_chars, filter_all, keep_matching_exec, tasks_view,
};
use crate::task_model::{new_task_spec, task_date_spec, updated_view, Task, TaskView};
use crate::text::{
    chars_of, is_ws_char, range_is, range_views, split, split_ranges, trim,
    trim_left, trim_range,
};

verus! {

/// The index of the first task named `n` at or after `i`, or -1.
pub open spec fn first_named(ts: Seq<TaskView>, n: Seq<char>, i: int) -> int
    decreases ts.len() - i,
{
    if i < 0 || i >= ts.len() {
        -1
    } else if ts[i].name == n {
        i
    } else {
        first_named(ts, n, i + 1)
    }
}

/// The index of the first task named `n`, or -1.
pub open spec fn find_spec(ts: Seq<TaskView>, n: Seq<char>) -> int {
    first_named(ts, n, 0)
}

/// The store after deleting the first task named `n`, and the outcome.
pub open spec fn delete_spec(ts: Seq<TaskView>, n: Seq<char>) -> (
    Result<(), TaskMgrError>,
    Seq<TaskView>,
) {
    let i = find_spec(ts, n);
    if i < 0 {
        (Err(TaskMgrError::TaskNotFound), ts)
    } else {
        (Ok(()), ts.remove(i))
    }
}

/// The store after updating the first task named `task_name`, and the outcome.
pub open spec fn update_spec(
    ts: Seq<TaskView>,
    task_name: Seq<char>,
    name: Seq<char>,
    desc: Seq<char>,
    date: Seq<char>,
    cat: Seq<char>,
) -> (Result<(), TaskMgrError>, Seq<TaskView>) {
    let i = find_spec(ts, task_name);
    if i < 0 {
        (Err(TaskMgrError::TaskUpdateError), ts)
    } else {
        match task_date_spec(date) {
            Err(e) => (Err(TaskMgrError::TaskUpdateErrorPropTask(e)), ts),
            Ok(d) => (Ok(()), ts.update(i, updated_view(ts[i], name, desc, d, cat))),
        }
    }
}

/// The store after flipping the done flag of the first task named `n`.
pub open spec fn toggle_spec(ts: Seq<TaskView>, n: Seq<char>) -> Seq<TaskView> {
    let i = find_spec(ts, n);
    if i < 0 {
        ts
    } else {
        ts.update(i, TaskView { done: !ts[i].done, ..ts[i] })
    }
}

pub open spec fn select_all_text() -> Seq<char> {
    seq!['s', 'e', 'l', 'e', 'c', 't', ' ', '*']
}

pub open spec fn select_where_text() -> Seq<char> {
    seq!['s', 'e', 'l', 'e', 'c', 't', ' ', '*', ' ', 'w', 'h', 'e', 'r', 'e']
}

/// The filter of a query: what follows a leading `select * where`, or the
/// whole query where it does not start so.
pub open spec fn filter_text(q: Seq<char>) -> Seq<char> {
    let p = select_where_text();
    if q.len() >= p.len() && q.subrange(0, p.len() as int) == p {
        q.subrange(p.len() as int, q.len() as int)
    } else {
        q
    }
}

/// What a query gives on the tasks `ts`: all of them for `select *`, else the
/// tasks that meet every clause of the filter.
pub open spec fn select_spec(ts: Seq<TaskView>, query: Seq<char>) -> Result<
    Seq<TaskView>,
    TaskMgrError,
> {
    let q = trim(query);
    if q.len() == 0 {
        Err(TaskMgrError::WrongQuery)
    } else if q == select_all_text() {
        Ok(ts)
    } else {
        match parse_args_spec(filter_text(q)) {
            Err(e) => Err(TaskMgrError::WrongQueryPropExpr(e)),
            Ok(cs) => if dates_ok(cs) {
                Ok(filter_all(ts, cs))
            } else {
                Err(TaskMgrError::GeneralTaskError(TaskError::TaskDateParseError))
            },
        }
    }
}

/// What follows the leading keyword of a command, trimmed.
pub open spec fn command_rest(cmd: Seq<char>, kw: Seq<char>) -> Seq<char> {
    let t = trim_left(cmd);
    trim(t.subrange(kw.len() as int, t.len() as int))
}

pub open spec fn is_command(cmd: Seq<char>, kw: Seq<char>) -> bool {
    first_word(cmd) == Some(kw)
}

/// The names of the tasks, each on a line of its own after `- `.
pub open spec fn listing(ts: Seq<TaskView>) -> Seq<char>
    decreases ts.len(),
{
    if ts.len() == 0 {
        seq![]
    } else {
        listing(ts.drop_last()) + "\n- "@ + ts.last().name
    }
}

pub open spec fn selected_message(ts: Seq<TaskView>) -> Seq<char> {
    "Selected:"@ + listing(ts)
}

pub open spec fn done_message(t: TaskView) -> Seq<char> {
    "Task marked as done: "@ + t.name + ", done: "@ + if t.done {
        "true"@
    } else {
        "false"@
    }
}

/// What a command gives, and the store after it.
pub open spec fn command_spec(ts: Seq<TaskView>, cmd: Seq<char>) -> (
    Result<Seq<char>, TaskMgrError>,
    Seq<TaskView>,
) {
    if is_command(cmd, "add"@) {
        match new_task_spec(command_rest(cmd, "add"@)) {
            Ok(t) => (Ok("Task added"@), ts.push(t)),
            Err(e) => (Err(TaskMgrError::TaskCreationErrorProp(e)), ts),
        }
    } else if is_command(cmd, "delete"@) {
        match delete_spec(ts, command_rest(cmd, "delete"@)) {
            (Ok(_), ts2) => (Ok("Task deleted"@), ts2),
            (Err(e), ts2) => (Err(e), ts2),
        }
    } else if is_command(cmd, "select"@) {
        match select_spec(ts, cmd) {
            Ok(found) => if found.len() == 0 {
                (Err(TaskMgrError::TaskNotFound), ts)
            } else {
                (Ok(selected_message(found)), ts)
            },
            Err(e) => (Err(e), ts),
        }
    } else if is_command(cmd, "done"@) {
        let n = command_rest(cmd, "done"@);
        let i = find_spec(ts, n);
        if i < 0 {
            (Err(TaskMgrError::TaskNotFound), ts)
        } else {
            (Ok(done_message(toggle_spec(ts, n)[i])), toggle_spec(ts, n))
        }
    } else if is_command(cmd, "update"@) {
        let parts = split(command_rest(cmd, "update"@), seq![';']);
        if parts.len() != 5 {
            (Err(TaskMgrError::WrongQuery), ts)
        } else {
            match update_spec(
                ts,
                trim(parts[0]),
                trim(parts[1]),
                trim(parts[2]),
                trim(parts[3]),
                trim(parts[4]),
            ) {
                (Ok(_), ts2) => (Ok("Task updated"@), ts2),
                (Err(e), ts2) => (Err(e), ts2),
            }
        }
    } else {
        (Err(TaskMgrError::WrongCommand), ts)
    }
}

pub proof fn lemma_word_end_bound(t: Seq<char>, i: int)
    requires
        0 <= i <= t.len(),
    ensures
        i <= word_end(t, i) <= t.len(),
    decreases t.len() - i,
{
    if i < t.len() && !crate::text::is_ws(t[i]) {
        lemma_word_end_bound(t, i + 1);
    }
}

/// The trimmed text after the leading keyword of `command`.
fn rest_of_command(command: &str, kw: &str) -> (r: String)
    requires
        is_command(command@, kw@),
    ensures
        r@ == command_rest(command@, kw@),
{
    let s = chars_of(command);
    let mut x: usize = 0;
    assert(s@.subrange(0, s@.len() as int) =~= s@);
    while x < s.len() && is_ws_char(s[x])
        invariant
            x <= s.len(),
            trim_left(s@) == trim_left(s@.subrange(x as int, s@.len() as int)),
        decreases s.len() - x,
    {
        assert(s@.subrange(x as int, s@.len() as int).drop_first() =~= s@.subrange(
            x + 1,
            s@.len() as int,
        ));
        x = x + 1;
    }
    let ghost t = s@.subrange(x as int, s@.len() as int);
    assert(trim_left(t) == t);
    proof {
        lemma_word_end_bound(t, 0);
    }
    let k = kw.unicode_len();
    let (a, b) = trim_range(&s, x + k, s.len());
    assert(t.subrange(k as int, t.len() as int) =~= s@.subrange(x + k, s@.len() as int));
    String::from_str(command.substring_char(a, b))
}

fn command_is(command: &str, kw: &str) -> (r: bool)
    ensures
        r == is_command(command@, kw@),
{
    match command_equals(command, kw) {
        Ok(b) => b,
        Err(_) => false,
    }
}

/// Copies of the tasks, in order.
fn copy_all(v: &Vec<Task>) -> (r: Vec<Task>)
    ensures
        tasks_view(r@) == tasks_view(v@),
{
    let mut r: Vec<Task> = Vec::new();
    let mut i: usize = 0;
    while i < v.len()
        invariant
            i <= v.len(),
            tasks_view(r@) == tasks_view(v@.subrange(0, i as int)),
        decreases v.len() - i,
    {
        let ghost old_r = r@;
        r.push(v[i].duplicate());
        assert(tasks_view(r@) =~= tasks_view(old_r).push(v@[i as int]@));
        assert(tasks_view(v@.subrange(0, i + 1)) =~= tasks_view(v@.subrange(0, i as int)).push(
            v@[i as int]@,
        ));
        i = i + 1;
    }
    assert(v@.subrange(0, v@.len() as int) =~= v@);
    r
}

/// The owner of the tasks, in the order they were added.
#[derive(Debug)]
pub struct TaskManager {
    tasks: Vec<Task>,
}

impl View for TaskManager {
    type V = Seq<TaskView>;

    closed spec fn view(&self) -> Seq<TaskView> {
        tasks_view(self.tasks@)
    }
}

impl TaskManager {
    pub fn new() -> (r: Self)
        ensures
            r@ == Seq::<TaskView>::empty(),
    {
        let r = Self { tasks: Vec::new() };
        assert(r@ =~= Seq::<TaskView>::empty());
        r
    }

    pub fn get_tasks(&self) -> (r: &Vec<Task>)
        ensures
            tasks_view(r@) == self@,
    {
        &self.tasks
    }

    /// The index of the first task named `task_name`.
    fn position(&self, task_name: &str) -> (r: Option<usize>)
        ensures
            match r {
                Some(i) => i == find_spec(self@, task_name@) && i < self@.len(),
                None => find_spec(self@, task_name@) == -1,
            },
    {
        let n = chars_of(task_name);
        let mut i: usize = 0;
        while i < self.tasks.len()
            invariant
                i <= self.tasks.len(),
                n@ == task_name@,
                self@.len() == self.tasks.len(),
                find_spec(self@, task_name@) == first_named(self@, task_name@, i as int),
            decreases self.tasks.len() - i,
        {
            assert(self@[i as int] == self.tasks@[i as int]@);
            if equal_chars(&chars_of(self.tasks[i].name.as_str()), &n) {
                return Some(i);
            }
            i = i + 1;
        }
        None
    }

    /// The first task named `task_name`.
    pub fn find(&self, task_name: &str) -> (r: Result<&Task, TaskMgrError>)
        ensures
            find_spec(self@, task_name@) < 0 ==> r == Err::<&Task, TaskMgrError>(
                TaskMgrError::TaskNotFound,
            ),
            find_spec(self@, task_name@) >= 0 ==> r is Ok && r->Ok_0@ == self@[find_spec(
                self@,
                task_name@,
            )],
    {
        match self.position(task_name) {
            Some(i) => Ok(&self.tasks[i]),
            None => Err(TaskMgrError::TaskNotFound),
        }
    }

    /// Adds a task at the end.
    pub fn add(&mut self, task: Task) -> (r: Result<(), TaskMgrError>)
        ensures
            r is Ok,
            final(self)@ == old(self)@.push(task@),
    {
        self.tasks.push(task);
        assert(tasks_view(self.tasks@) =~= tasks_view(old(self).tasks@).push(task@));
        Ok(())
    }

    /// Updates the first task named `task_name`; fails, leaving the store as
    /// it was, where there is none or where the date does not read.
    pub fn update(&mut self, task_name: &str, name: &str, desc: &str, date: &str, cat: &str) -> (r:
        Result<(), TaskMgrError>)
        ensures
            (r, final(self)@) == update_spec(old(self)@, task_name@, name@, desc@, date@, cat@),
    {
        match self.position(task_name) {
            Some(i) => {
                let mut t = self.tasks[i].duplicate();
                match t.update(name, desc, date, cat) {
                    Ok(_) => {},
                    Err(e) => {
                        return Err(TaskMgrError::TaskUpdateErrorPropTask(e));
                    },
                }
                self.tasks.set(i, t);
                assert(tasks_view(self.tasks@) =~= tasks_view(old(self).tasks@).update(
                    i as int,
                    t@,
                ));
                Ok(())
            },
            None => Err(TaskMgrError::TaskUpdateError),
        }
    }

    /// Flips the done flag of the first task named `task_name`.
    pub fn check_done(&mut self, task_name: &str) -> (r: Result<&Task, TaskMgrError>)
        ensures
            final(self)@ == toggle_spec(old(self)@, task_name@),
            find_spec(old(self)@, task_name@) < 0 ==> r == Err::<&Task, TaskMgrError>(
                TaskMgrError::TaskNotFound,
            ),
            find_spec(old(self)@, task_name@) >= 0 ==> r is Ok && r->Ok_0@ == final(self)@[find_spec(
                old(self)@,
                task_name@,
            )],
    {
        match self.position(task_name) {
            Some(i) => {
                let mut t = self.tasks[i].duplicate();
                t.check_done();
                self.tasks.set(i, t);
                assert(tasks_view(self.tasks@) =~= tasks_view(old(self).tasks@).update(
                    i as int,
                    t@,
                ));
                Ok(&self.tasks[i])
            },
            None => Err(TaskMgrError::TaskNotFound),
        }
    }

    /// Removes the first task named `task_name`.
    pub fn delete(&mut self, task_name: &str) -> (r: Result<(), TaskMgrError>)
        ensures
            (r, final(self)@) == delete_spec(old(self)@, task_name@),
    {
        match self.position(task_name) {
            Some(i) => {
                self.tasks.remove(i);
                assert(tasks_view(self.tasks@) =~= tasks_view(old(self).tasks@).remove(i as int));
                Ok(())
            },
            None => Err(TaskMgrError::TaskNotFound),
        }
    }

    /// Runs a query: `select *` gives every task; `select * where <filter>`
    /// gives the tasks that meet every clause of the filter, in store order.
    pub fn select(&self, query: &String) -> (r: Result<Vec<Task>, TaskMgrError>)
        ensures
            match r {
                Ok(v) => select_spec(self@, query@) == Ok::<Seq<TaskView>, TaskMgrError>(
                    tasks_view(v@),
                ),
                Err(e) => select_spec(self@, query@) == Err::<Seq<TaskView>, TaskMgrError>(e),
            },
    {
        let full = query.as_str();
        let cs = chars_of(full);
        let (a, b) = trim_range(&cs, 0, cs.len());
        assert(cs@.subrange(0, cs@.len() as int) =~= cs@);
        if a == b {
            return Err(TaskMgrError::WrongQuery);
        }
        let q = full.substring_char(a, b);
        let qc = chars_of(q);
        proof {
            reveal_strlit("select *");
            reveal_strlit("select * where");
        }
        let all_text = chars_of("select *");
        assert(all_text@ =~= select_all_text());
        assert(qc@.subrange(0, qc@.len() as int) =~= qc@);
        if range_is(&qc, 0, qc.len(), &all_text) {
            return Ok(copy_all(&self.tasks));
        }
        let where_text = chars_of("select * where");
        assert(where_text@ =~= select_where_text());
        let n = where_text.len();
        let rest = if n <= qc.len() && range_is(&qc, 0, n, &where_text) {
            String::from_str(q.substring_char(n, qc.len()))
        } else {
            String::from_str(q)
        };
        assert(qc@ == trim(query@));
        assert(qc@ != select_all_text());
        assert(rest@ == filter_text(qc@));
        let clauses = match parse_args(rest.as_str()) {
            Ok(c) => c,
            Err(e) => {
                return Err(TaskMgrError::WrongQueryPropExpr(e));
            },
        };
        let ghost cv = clauses_view(clauses@);
        let mut dates: Vec<Option<TaskDate>> = Vec::new();
        let mut j: usize = 0;
        while j < clauses.len()
            invariant
                j <= clauses.len(),
                cv == clauses_view(clauses@),
                qc@ == trim(query@),
                qc@ != select_all_text(),
                qc@.len() > 0,
                parse_args_spec(filter_text(qc@)) == Ok::<Seq<ClauseView>, ExpressionError>(cv),
                dates.len() == j,
                forall|k: int|
                    0 <= k < j ==> (#[trigger] clauses@[k]).0 == LeftVar::Date ==> dates@[k] is Some
                        && parsed_date_of(clauses@[k].2@) == Some(dates@[k]->0@),
                forall|k: int| 0 <= k < j ==> clause_date_ok(#[trigger] cv[k]),
            decreases clauses.len() - j,
        {
            assert(cv[j as int] == clause_view(clauses@[j as int]));
            if clauses[j].0 == LeftVar::Date {
                match TaskDate::parse(clauses[j].2.as_str()) {
                    Some(d) => {
                        dates.push(Some(d));
                    },
                    None => {
                        assert(!clause_date_ok(cv[j as int]));
                        assert(!dates_ok(cv));

                        return Err(TaskMgrError::GeneralTaskError(TaskError::TaskDateParseError));
                    },
                }
            } else {
                dates.push(None);
            }
            j = j + 1;
        }
        assert(dates_ok(cv));
        let mut temp = copy_all(&self.tasks);
        let mut k: usize = 0;
        while k < clauses.len()
            invariant
                k <= clauses.len(),
                cv == clauses_view(clauses@),
                qc@ == trim(query@),
                qc@ != select_all_text(),
                qc@.len() > 0,
                parse_args_spec(filter_text(qc@)) == Ok::<Seq<ClauseView>, ExpressionError>(cv),
                dates.len() == clauses.len(),
                forall|m: int|
                    0 <= m < clauses.len() ==> (#[trigger] clauses@[m]).0 == LeftVar::Date
                        ==> dates@[m] is Some && parsed_date_of(clauses@[m].2@) == Some(
                        dates@[m]->0@,
                    ),
                tasks_view(temp@) == filter_all(self@, cv.subrange(0, k as int)),
            decreases clauses.len() - k,
        {
            assert(cv.subrange(0, k + 1).drop_last() =~= cv.subrange(0, k as int));
            assert(clauses@[k as int].0 == LeftVar::Date ==> dates@[k as int] is Some);
            temp = keep_matching_exec(&temp, &clauses[k], &dates[k]);
            k = k + 1;
        }
        assert(cv.subrange(0, cv.len() as int) =~= cv);
        Ok(temp)
    }

    /// Carries out one command line: `add`, `delete`, `select`, `done` or
    /// `update`, chosen by its first word.
    pub fn exec_command(&mut self, command: &str) -> (r: Result<String, TaskMgrError>)
        ensures
            (message_view(r), final(self)@) == command_spec(old(self)@, command@),
    {
        if command_is(command, "add") {
            let rest = rest_of_command(command, "add");
            return match Task::new(rest.as_str()) {
                Ok(t) => {
                    let _ = self.add(t);
                    Ok(String::from_str("Task added"))
                },
                Err(e) => Err(TaskMgrError::TaskCreationErrorProp(e)),
            };
        }
        if command_is(command, "delete") {
            let rest = rest_of_command(command, "delete");
            return match self.delete(rest.as_str()) {
                Ok(_) => Ok(String::from_str("Task deleted")),
                Err(e) => Err(e),
            };
        }
        if command_is(command, "select") {
            let query = String::from_str(command);
            return match self.select(&query) {
                Ok(found) => {
                    if found.len() == 0 {
                        Err(TaskMgrError::TaskNotFound)
                    } else {
                        Ok(selected_text(&found))
                    }
                },
                Err(e) => Err(e),
            };
        }
        if command_is(command, "done") {
            let rest = rest_of_command(command, "done");
            return match self.check_done(rest.as_str()) {
                Ok(t) => Ok(done_text(t)),
                Err(e) => Err(e),
            };
        }
        if command_is(command, "update") {
            let rest = rest_of_command(command, "update");
            let rc = chars_of(rest.as_str());
            let mut semi: Vec<char> = Vec::new();
            semi.push(';');
            assert(semi@ =~= seq![';']);
            let parts = split_ranges(&rc, &semi);
            if parts.len() != 5 {
                return Err(TaskMgrError::WrongQuery);
            }
            proof {
                let v = range_views(rc@, parts@);
                assert(v[0] == rc@.subrange(parts@[0].0 as int, parts@[0].1 as int));
                assert(v[1] == rc@.subrange(parts@[1].0 as int, parts@[1].1 as int));
                assert(v[2] == rc@.subrange(parts@[2].0 as int, parts@[2].1 as int));
                assert(v[3] == rc@.subrange(parts@[3].0 as int, parts@[3].1 as int));
                assert(v[4] == rc@.subrange(parts@[4].0 as int, parts@[4].1 as int));
            }
            let (a0, b0) = trim_range(&rc, parts[0].0, parts[0].1);
            let (a1, b1) = trim_range(&rc, parts[1].0, parts[1].1);
            let (a2, b2) = trim_range(&rc, parts[2].0, parts[2].1);
            let (a3, b3) = trim_range(&rc, parts[3].0, parts[3].1);
            let (a4, b4) = trim_range(&rc, parts[4].0, parts[4].1);
            let r = rest.as_str();
            return match self.update(
                r.substring_char(a0, b0),
                r.substring_char(a1, b1),
                r.substring_char(a2, b2),
                r.substring_char(a3, b3),
                r.substring_char(a4, b4),
            ) {
                Ok(_) => Ok(String::from_str("Task updated")),
                Err(e) => Err(e),
            };
        }
        Err(TaskMgrError::WrongCommand)
    }
}

pub open spec fn message_view(r: Result<String, TaskMgrError>) -> Result<Seq<char>, TaskMgrError> {
    match r {
        Ok(s) => Ok(s@),
        Err(e) => Err(e),
    }
}

/// The answer to a query that found `found`.
fn selected_text(found: &Vec<Task>) -> (r: String)
    ensures
        r@ == selected_message(tasks_view(found@)),
{
    let mut r = String::from_str("Selected:");
    let mut i: usize = 0;
    while i < found.len()
        invariant
            i <= found.len(),
            r@ == "Selected:"@ + listing(tasks_view(found@.subrange(0, i as int))),
        decreases found.len() - i,
    {
        assert(tasks_view(found@.subrange(0, i + 1)).drop_last() =~= tasks_view(
            found@.subrange(0, i as int),
        ));
        r.append("\n- ");
        r.append(found[i].name.as_str());
        i = i + 1;
        assert(r@ =~= "Selected:"@ + listing(tasks_view(found@.subrange(0, i as int))));
    }
    assert(found@.subrange(0, found@.len() as int) =~= found@);
    r
}

/// The answer to flipping the done flag of `t`.
fn done_text(t: &Task) -> (r: String)
    ensures
        r@ == done_message(t@),
{
    let mut r = String::from_str("Task marked as done: ");
    r.append(t.name.as_str());
    r.append(", done: ");
    if t.done {
        r.append("true");
    } else {
        r.append("false");
    }
    r
}

} // verus!
