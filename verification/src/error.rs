//! What storage operations fail with.

use crate::text::{and, decimal, decimal_text, Text};
use vstd::prelude::*;

verus! {

broadcast use vstd::string::group_string_axioms;

/// What an operating system call failed with.
#[derive(Debug, Clone, PartialEq, Eq)]
pub struct IoFailure {
    /// The file or directory does not exist.
    pub not_found: bool,
    /// What the system said.
    pub message: String,
}

/// Which storage quota a rejected write would exceed.
#[derive(Debug, Clone, Copy, PartialEq, Eq, Structural)]
pub enum QuotaScope {
    /// The cap of one repository.
    Repository,
    /// The cap of the whole registry.
    Total,
}

/// Errors surfaced by the storage layer.
#[derive(Debug, Clone, PartialEq, Eq)]
pub enum StorageError {
    NotFound,
    BadDigest(String),
    DigestMismatch { expected: String, actual: String },
    Io(IoFailure),
    BadPath(String),
    RangeNotSatisfiable { expected: u64, got: u64 },
    TooLarge { limit: u64, actual: u64 },
    /// Admitting a blob would push a quota past its cap.
    QuotaExceeded { scope: QuotaScope, limit: u64, requested: u64 },
    /// A blob that a manifest requires is absent.
    MissingReference(String),
    /// The cap on concurrent upload sessions is reached.
    TooManySessions { limit: usize },
}

/// The name of a scope.
pub open spec fn scope_name(scope: QuotaScope) -> Text {
    match scope {
        QuotaScope::Repository => "repository"@,
        QuotaScope::Total => "registry"@,
    }
}

/// The message of an error.
pub open spec fn error_text(e: StorageError) -> Text {
    match e {
        StorageError::NotFound => "not found"@,
        StorageError::BadDigest(d) => "malformed digest: "@ + d@,
        StorageError::DigestMismatch { expected, actual } => "digest mismatch: expected "@
            + expected@ + ", got "@ + actual@,
        StorageError::Io(f) => "io error: "@ + f.message@,
        StorageError::BadPath(p) => "unsafe path component: "@ + p@,
        StorageError::RangeNotSatisfiable { expected, got } => "content range start "@ + decimal(
            got as nat,
        ) + " does not match current offset "@ + decimal(expected as nat),
        StorageError::TooLarge { limit, actual } => "upload size "@ + decimal(actual as nat)
            + " exceeds maximum "@ + decimal(limit as nat),
        StorageError::QuotaExceeded { scope, limit, requested } => scope_name(scope)
            + " quota of "@ + decimal(limit as nat) + " bytes exceeded ("@ + decimal(
            requested as nat,
        ) + " bytes requested)"@,
        StorageError::MissingReference(b) => "referenced blob "@ + b@ + " is not present"@,
        StorageError::TooManySessions { limit } => "too many concurrent upload sessions (limit "@
            + decimal(limit as nat) + ")"@,
    }
}

impl QuotaScope {
    /// The scope's name.
    pub fn name(&self) -> (r: String)
        ensures
            r@ == scope_name(*self),
    {
        match self {
            QuotaScope::Repository => "repository".to_owned(),
            QuotaScope::Total => "registry".to_owned(),
        }
    }
}

impl StorageError {
    /// The error's message.
    pub fn message(&self) -> (r: String)
        ensures
            r@ == error_text(*self),
    {
        match self {
            StorageError::NotFound => "not found".to_owned(),
            StorageError::BadDigest(d) => and("malformed digest: ".to_owned(), d),
            StorageError::DigestMismatch { expected, actual } => and(
                and(and("digest mismatch: expected ".to_owned(), expected), ", got "),
                actual,
            ),
            StorageError::Io(f) => and("io error: ".to_owned(), f.message.as_str()),
            StorageError::BadPath(p) => and("unsafe path component: ".to_owned(), p),
            StorageError::RangeNotSatisfiable { expected, got } => and(
                and(
                    and("content range start ".to_owned(), decimal_text(*got).as_str()),
                    " does not match current offset ",
                ),
                decimal_text(*expected).as_str(),
            ),
            StorageError::TooLarge { limit, actual } => and(
                and(
                    and("upload size ".to_owned(), decimal_text(*actual).as_str()),
                    " exceeds maximum ",
                ),
                decimal_text(*limit).as_str(),
            ),
            StorageError::QuotaExceeded { scope, limit, requested } => and(
                and(
                    and(
                        and(and(scope.name(), " quota of "), decimal_text(*limit).as_str()),
                        " bytes exceeded (",
                    ),
                    decimal_text(*requested).as_str(),
                ),
                " bytes requested)",
            ),
            StorageError::MissingReference(b) => and(
                and("referenced blob ".to_owned(), b),
                " is not present",
            ),
            StorageError::TooManySessions { limit } => and(
                and(
                    "too many concurrent upload sessions (limit ".to_owned(),
                    decimal_text(*limit as u64).as_str(),
                ),
                ")",
            ),
        }
    }
}

/// A call that failed because the file does not exist found nothing; any other
/// failure is passed on.
pub fn map_not_found(e: IoFailure) -> (r: StorageError)
    ensures
        r == (if e.not_found {
            StorageError::NotFound
        } else {
            StorageError::Io(e)
        }),
{
    if e.not_found {
        StorageError::NotFound
    } else {
        StorageError::Io(e)
    }
}

/// Every error says what went wrong, with what it was asked and what it met.
pub proof fn errors_say_what_went_wrong(
    a: String,
    b: String,
    f: IoFailure,
    n: u64,
    m: u64,
    limit: usize,
)
    ensures
        error_text(StorageError::NotFound) == "not found"@,
        error_text(StorageError::BadDigest(a)) == "malformed digest: "@ + a@,
        error_text(StorageError::DigestMismatch { expected: a, actual: b })
            == "digest mismatch: expected "@ + a@ + ", got "@ + b@,
        error_text(StorageError::Io(f)) == "io error: "@ + f.message@,
        error_text(StorageError::BadPath(a)) == "unsafe path component: "@ + a@,
        error_text(StorageError::RangeNotSatisfiable { expected: n, got: m })
            == "content range start "@ + decimal(m as nat) + " does not match current offset "@
            + decimal(n as nat),
        error_text(StorageError::TooLarge { limit: n, actual: m }) == "upload size "@ + decimal(
            m as nat,
        ) + " exceeds maximum "@ + decimal(n as nat),
        error_text(
            StorageError::QuotaExceeded { scope: QuotaScope::Repository, limit: n, requested: m },
        ) == "repository"@ + " quota of "@ + decimal(n as nat) + " bytes exceeded ("@ + decimal(
            m as nat,
        ) + " bytes requested)"@,
        error_text(
            StorageError::QuotaExceeded { scope: QuotaScope::Total, limit: n, requested: m },
        ) == "registry"@ + " quota of "@ + decimal(n as nat) + " bytes exceeded ("@ + decimal(
            m as nat,
        ) + " bytes requested)"@,
        error_text(StorageError::MissingReference(a)) == "referenced blob "@ + a@
            + " is not present"@,
        error_text(StorageError::TooManySessions { limit })
            == "too many concurrent upload sessions (limit "@ + decimal(limit as nat) + ")"@,
{
}

} // verus!
