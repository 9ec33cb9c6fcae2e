//! A single task and the textual record it is created from.

use vstd::prelude::*;
use crate::date::{parsed_date_of, DateView, TaskDate};
use crate::errors::TaskError;
use crate::text::{chars_of, range_views, split, split_ranges, trim, trim_range};

verus! {

/// A task in the model.
pub struct TaskView {
    pub name: Seq<char>,
    pub description: Seq<char>,
    pub date: DateView,
    pub category: Seq<char>,
    pub done: bool,
}

/// A task: its name is the key it is looked up by.
#[derive(Debug, Clone)]
pub struct Task {
    pub name: String,
    pub description: String,
    pub date: TaskDate,
    pub category: String,
    pub done: bool,
}

impl View for Task {
    type V = TaskView;

    open spec fn view(&self) -> TaskView {
        TaskView {
            name: self.name@,
            description: self.description@,
            date: self.date@,
            category: self.category@,
            done: self.done,
        }
    }
}

/// What reading a task date gives.
pub open spec fn task_date_spec(s: Seq<char>) -> Result<DateView, TaskError> {
    match parsed_date_of(s) {
        Some(d) => Ok(d),
        None => Err(TaskError::TaskDateParseError),
    }
}

/// What creating a task from `name, description, date, category` gives:
/// exactly four comma-separated fields, each trimmed, and a date that reads.
pub open spec fn new_task_spec(s: Seq<char>) -> Result<TaskView, TaskError> {
    let parts = split(s, seq![',']);
    if parts.len() != 4 {
        Err(TaskError::TaskCreationArgsError)
    } else {
        match task_date_spec(trim(parts[2])) {
            Err(e) => Err(e),
            Ok(d) => Ok(
                TaskView {
                    name: trim(parts[0]),
                    description: trim(parts[1]),
                    date: d,
                    category: trim(parts[3]),
                    done: false,
                },
            ),
        }
    }
}

/// A task with new name, description, date and category; the done flag stays.
pub open spec fn updated_view(
    t: TaskView,
    name: Seq<char>,
    description: Seq<char>,
    date: DateView,
    category: Seq<char>,
) -> TaskView {
    TaskView { name, description, date, category, done: t.done }
}

/// Reads a task date written `YYYY-MM-DD HH:MM`.
pub fn parse_task_date(date: &str) -> (r: Result<TaskDate, TaskError>)
    ensures
        match r {
            Ok(d) => task_date_spec(date@) == Ok::<DateView, TaskError>(d@),
            Err(e) => task_date_spec(date@) == Err::<DateView, TaskError>(e),
        },
{
    match TaskDate::parse(date) {
        Some(d) => Ok(d),
        None => Err(TaskError::TaskDateParseError),
    }
}

impl Task {
    /// Creates a task, not done, from `name, description, YYYY-MM-DD HH:MM, category`.
    pub fn new(task: &str) -> (r: Result<Self, TaskError>)
        ensures
            match r {
                Ok(t) => new_task_spec(task@) == Ok::<TaskView, TaskError>(t@),
                Err(e) => new_task_spec(task@) == Err::<TaskView, TaskError>(e),
            },
    {
        let s = chars_of(task);
        let mut comma: Vec<char> = Vec::new();
        comma.push(',');
        assert(comma@ =~= seq![',']);
        let parts = split_ranges(&s, &comma);
        if parts.len() != 4 {
            return Err(TaskError::TaskCreationArgsError);
        }
        proof {
            assert(range_views(s@, parts@)[0] == s@.subrange(parts@[0].0 as int, parts@[0].1 as int));
            assert(range_views(s@, parts@)[1] == s@.subrange(parts@[1].0 as int, parts@[1].1 as int));
            assert(range_views(s@, parts@)[2] == s@.subrange(parts@[2].0 as int, parts@[2].1 as int));
            assert(range_views(s@, parts@)[3] == s@.subrange(parts@[3].0 as int, parts@[3].1 as int));
        }
        let (da, db) = trim_range(&s, parts[2].0, parts[2].1);
        let date = match parse_task_date(task.substring_char(da, db)) {
            Ok(d) => d,
            Err(e) => {
                return Err(e);
            },
        };
        let (na, nb) = trim_range(&s, parts[0].0, parts[0].1);
        let (ea, eb) = trim_range(&s, parts[1].0, parts[1].1);
        let (ca, cb) = trim_range(&s, parts[3].0, parts[3].1);
        Ok(
            Task {
                name: String::from_str(task.substring_char(na, nb)),
                description: String::from_str(task.substring_char(ea, eb)),
                date,
                category: String::from_str(task.substring_char(ca, cb)),
                done: false,
            },
        )
    }

    /// Flips the done flag.
    pub fn check_done(&mut self)
        ensures
            final(self)@ == (TaskView { done: !old(self).done, ..old(self)@ }),
    {
        self.done = !self.done;
    }

    /// Replaces name, description, date and category; where the date does not
    /// read, fails and leaves the task as it was.
    pub fn update(&mut self, name: &str, description: &str, date: &str, cat: &str) -> (r: Result<
        &Self,
        TaskError,
    >)
        ensures
            match task_date_spec(date@) {
                Ok(d) => r is Ok && r->Ok_0@ == final(self)@ && final(self)@ == updated_view(
                    old(self)@,
                    name@,
                    description@,
                    d,
                    cat@,
                ),
                Err(e) => r == Err::<&Self, TaskError>(e) && final(self)@ == old(self)@,
            },
    {
        let parsed = match parse_task_date(date) {
            Ok(d) => d,
            Err(e) => {
                return Err(e);
            },
        };
        self.name = String::from_str(name);
        self.description = String::from_str(description);
        self.date = parsed;
        self.category = String::from_str(cat);
        Ok(self)
    }
}

} // verus!
