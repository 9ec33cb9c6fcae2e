//! An in-memory task manager driven by one-line text commands, with a small
//! query language for filtering tasks by field.

pub mod date;
pub mod errors;
pub mod expression;
pub mod filter;
pub mod task_manager;
pub mod task_model;
pub mod text;

pub use date::TaskDate;
pub use errors::{ExpressionError, TaskError, TaskMgrError};
pub use expression::{command_equals, parse_args, LeftVar, Op};
pub use task_manager::TaskManager;
pub use task_model::{parse_task_date, Task};
pub mod laws;
