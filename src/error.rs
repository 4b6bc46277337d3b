//! The failures that a migration run reports.
use vstd::prelude::*;

verus! {

/// What went wrong, with the migration identifier or file name it concerns.
#[derive(Debug, Clone, PartialEq, Eq)]
pub enum MigrateError {
    /// A file name breaks the naming convention, or a file's up/down markers are
    /// missing or out of order.
    Format(String),
    /// The database rejected a batch of SQL.
    Execution(String),
    /// The ledger already held the name that was to be recorded, or a ledger
    /// write failed.
    Conflict(String),
    /// A migration file could not be read.
    Io(String),
}

/// The kind of a `MigrateError`, without its subject.
#[derive(PartialEq, Eq, Structural, Clone, Copy, Debug)]
pub enum ErrorKind {
    Format,
    Execution,
    Conflict,
    Io,
}

impl MigrateError {
    pub open spec fn kind_spec(&self) -> ErrorKind {
        match self {
            MigrateError::Format(_) => ErrorKind::Format,
            MigrateError::Execution(_) => ErrorKind::Execution,
            MigrateError::Conflict(_) => ErrorKind::Conflict,
            MigrateError::Io(_) => ErrorKind::Io,
        }
    }

    pub open spec fn subject(&self) -> Seq<char> {
        match self {
            MigrateError::Format(s) => s@,
            MigrateError::Execution(s) => s@,
            MigrateError::Conflict(s) => s@,
            MigrateError::Io(s) => s@,
        }
    }

    /// The kind of this error.
    pub fn kind(&self) -> (r: ErrorKind)
        ensures
            r == self.kind_spec(),
    {
        match self {
            MigrateError::Format(_) => ErrorKind::Format,
            MigrateError::Execution(_) => ErrorKind::Execution,
            MigrateError::Conflict(_) => ErrorKind::Conflict,
            MigrateError::Io(_) => ErrorKind::Io,
        }
    }

    /// The migration identifier or file name that the error concerns.
    pub fn subject_str(&self) -> (r: &str)
        ensures
            r@ == self.subject(),
    {
        match self {
            MigrateError::Format(s) => s.as_str(),
            MigrateError::Execution(s) => s.as_str(),
            MigrateError::Conflict(s) => s.as_str(),
            MigrateError::Io(s) => s.as_str(),
        }
    }
}

} // verus!
