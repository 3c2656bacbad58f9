use vstd::prelude::*;

verus! {

/// The error kinds that storage and service operations surface.
///
/// `ValidationError` reports bad user input, `NotFound` a missing
/// identifier, `IoError` a failed file read or write, and
/// `SerializationError` malformed persisted content. `StorageError`
/// is left for backends with failure modes of their own.
#[derive(Debug)]
pub enum TodoError {
    StorageError(String),
    ValidationError(String),
    NotFound(String),
    IoError(String),
    SerializationError(String),
}

impl TodoError {
    /// The human-readable text carried by the error.
    pub fn message(&self) -> (r: &str)
        ensures
            r@ == match self {
                TodoError::StorageError(m) => m@,
                TodoError::ValidationError(m) => m@,
                TodoError::NotFound(m) => m@,
                TodoError::IoError(m) => m@,
                TodoError::SerializationError(m) => m@,
            },
    {
        match self {
            TodoError::StorageError(m) => m.as_str(),
            TodoError::ValidationError(m) => m.as_str(),
            TodoError::NotFound(m) => m.as_str(),
            TodoError::IoError(m) => m.as_str(),
            TodoError::SerializationError(m) => m.as_str(),
        }
    }
}

/// An error a backend may surface on its own: an environment problem, never
/// a judgement on the user's input.
pub open spec fn env_error(e: TodoError) -> bool {
    e is StorageError || e is IoError || e is SerializationError
}

} // verus!
