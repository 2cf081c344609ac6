use vstd::prelude::*;

pub mod digits;
pub mod laws;
pub mod store;
pub mod tasks;

verus! {

/// The error cases of the task store: malformed add input, a duplicate
/// identifier on add, a missing identifier on complete or remove, and a
/// failure of the underlying storage (an I/O or parse fault).
#[derive(Clone, Copy, Debug, PartialEq, Eq, Structural)]
pub enum TaskError {
    InvalidFormat,
    AlreadyExists,
    NotFound,
    Storage,
}

impl TaskError {
    /// The message reported to the user for this error.
    pub fn message(&self) -> (r: &'static str)
        ensures
            r@ == match self {
                TaskError::InvalidFormat => "Invalid task format"@,
                TaskError::AlreadyExists => "Task already exists"@,
                TaskError::NotFound => "Task not found"@,
                TaskError::Storage => "Storage error"@,
            },
    {
        match self {
            TaskError::InvalidFormat => "Invalid task format",
            TaskError::AlreadyExists => "Task already exists",
            TaskError::NotFound => "Task not found",
            TaskError::Storage => "Storage error",
        }
    }
}

} // verus!
