use vstd::prelude::*;

verus! {

/// The failure taxonomy of the task-tracker core.
///
/// `NotFound`: no record matches a given id (targets of `complete`/`edit`).
/// `StoreError`: a constraint violation in the store, such as a duplicate id.
/// `DeserializationError`: a stored archival marker does not parse back to a
/// valid tri-state value; the row is treated as corrupt.
#[derive(Clone, Copy, Debug, PartialEq, Eq, Structural)]
pub enum TodoError {
    NotFound,
    StoreError,
    DeserializationError,
}

/// The fixed presentation text of each failure.
pub open spec fn error_text_spec(e: TodoError) -> Seq<char> {
    match e {
        TodoError::NotFound => "no record matches the given id"@,
        TodoError::StoreError => "the store refused the operation"@,
        TodoError::DeserializationError => "a stored value is corrupt"@,
    }
}

impl TodoError {
    /// A short text for presenting the failure to a user.
    pub fn text(&self) -> (r: String)
        ensures
            r@ == error_text_spec(*self),
    {
        match self {
            TodoError::NotFound => "no record matches the given id".to_owned(),
            TodoError::StoreError => "the store refused the operation".to_owned(),
            TodoError::DeserializationError => "a stored value is corrupt".to_owned(),
        }
    }
}

} // verus!
