use vstd::prelude::*;

verus! {

/// Why the archive refused a message or an operation.
#[derive(Debug, Clone, PartialEq, Eq)]
pub enum LetterError {
    /// The subject holds a `]` with no `[` before it, or a `[` with no `]` after it.
    UnmatchedBrackets,
    /// The subject's date is not `YEAR/MONTH[/DAY]`, or names no day of the calendar.
    InvalidDate,
    /// The subject asks for an action other than `edit`.
    UnknownAction(String),
    /// The matched allow-list entry carries a name that is neither role.
    UnknownRole(String),
    /// The sender's address is not in the sender allow-list.
    SenderNotAllowed(String),
    /// The recipient's address is not in the recipient allow-list.
    RecipientNotAllowed(String),
    /// A record with this file name exists and the message does not edit it.
    Conflict(String),
    /// A path to stage lies outside the repository.
    PathEscapesRepository(String),
    /// Every attempt to integrate the remote's changes, or every attempt to push, failed;
    /// the commits stay local.
    PushFailed,
}

} // verus!
