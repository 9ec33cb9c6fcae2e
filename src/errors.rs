//! The errors of the library, by the layer that raises them.

use vstd::prelude::*;

verus! {

/// What a command on the task store can fail with.
#[derive(Debug, Clone, Copy, PartialEq, Eq, Structural)]
pub enum TaskMgrError {
    GeneralTaskError(TaskError),
    TaskCreationErrorProp(TaskError),
    TaskNotFound,
    TaskUpdateError,
    TaskUpdateErrorPropTask(TaskError),
    TaskDeleteError,
    WrongQuery,
    WrongQueryPropExpr(ExpressionError),
    WrongCommand,
}

/// What building or changing a single task can fail with.
#[derive(Debug, Clone, Copy, PartialEq, Eq, Structural)]
pub enum TaskError {
    TaskDateParseError,
    TaskUpdateError,
    TaskCreationArgsError,
}

/// What parsing a filter expression can fail with.
#[derive(Debug, Clone, Copy, PartialEq, Eq, Structural)]
pub enum ExpressionError {
    LikeParseError,
    ExprParseError,
    ArgParseError,
    OpParseError,
}

} // verus!
