//! The error kinds that the operations of this crate report.

use vstd::prelude::*;
use vstd::string::StringExecFns;

verus! {

/// Which uniqueness rule a refused registration ran into.
#[derive(Clone, Copy, Debug, PartialEq, Eq, Structural)]
pub enum ConflictKind {
    /// The fast check before the insert found the name or the email in use.
    DuplicateLogin,
    /// The insert itself found the name or the email in use.
    NameExists,
}

/// What an operation looked for and did not find.
#[derive(Clone, Copy, Debug, PartialEq, Eq, Structural)]
pub enum Missing {
    /// No account has the given id.
    Account,
    /// No live session has the given token.
    Session,
}

/// Why an operation was refused.
#[derive(Clone, Copy, Debug, PartialEq, Eq, Structural)]
pub enum AuthError {
    /// The display name has no canonical form.
    InvalidInput,
    /// The registration would break a uniqueness rule.
    Conflict(ConflictKind),
    /// The login does not resolve or the password does not match.
    Unauthorized,
    /// The caller is authenticated but not entitled to the change.
    Forbidden,
    /// The session or the account does not exist.
    NotFound(Missing),
    /// A collaborator failed: identifiers ran out or no entropy could be had.
    StorageError,
}

impl AuthError {
    /// The text that goes with each error kind.
    pub open spec fn message_text(self) -> Seq<char> {
        match self {
            AuthError::InvalidInput => "invalid display name"@,
            AuthError::Conflict(ConflictKind::DuplicateLogin) => "duplicate login"@,
            AuthError::Conflict(ConflictKind::NameExists) => "name already exists"@,
            AuthError::Unauthorized => "invalid credentials"@,
            AuthError::Forbidden => "cannot delete someone else's account"@,
            AuthError::NotFound(Missing::Session) => "no such session"@,
            AuthError::NotFound(Missing::Account) => "no such account"@,
            AuthError::StorageError => "storage failure"@,
        }
    }

    /// A message for the caller. Every cause of `Unauthorized` gets the same
    /// text.
    pub fn message(&self) -> (text: String)
        ensures
            text@ == self.message_text(),
    {
        match self {
            AuthError::InvalidInput => String::from_str("invalid display name"),
            AuthError::Conflict(ConflictKind::DuplicateLogin) => String::from_str(
                "duplicate login",
            ),
            AuthError::Conflict(ConflictKind::NameExists) => String::from_str(
                "name already exists",
            ),
            AuthError::Unauthorized => String::from_str("invalid credentials"),
            AuthError::Forbidden => String::from_str("cannot delete someone else's account"),
            AuthError::NotFound(Missing::Session) => String::from_str("no such session"),
            AuthError::NotFound(Missing::Account) => String::from_str("no such account"),
            AuthError::StorageError => String::from_str("storage failure"),
        }
    }
}

} // verus!
