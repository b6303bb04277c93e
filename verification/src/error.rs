//! Errors of the collaboration engine.

use vstd::prelude::*;
use vstd::string::StringExecFns;

verus! {

/// Errors of CRDT, MLS and at-rest encryption operations.
#[derive(Debug, Clone, PartialEq, Eq)]
pub enum Error {
    /// Error from the CRDT library.
    Yrs(String),
    /// Error from MLS operations.
    Mls(String),
    /// Error during encryption or decryption.
    Encryption(String),
    /// Invalid state.
    InvalidState(String),
    /// A replayed message was detected and rejected: the MLS secret tree
    /// destroys each per-sender generation key after a single use.
    Replay,
}

/// `e` is an MLS error whose text is exactly `text`.
pub open spec fn is_mls(e: Error, text: Seq<char>) -> bool {
    e matches Error::Mls(m) && m@ == text
}

/// `r` failed with an MLS error whose text is exactly `text`.
pub open spec fn fails_mls<T>(r: Result<T, Error>, text: Seq<char>) -> bool {
    r matches Err(e) && is_mls(e, text)
}

/// `e` is an MLS error whose text starts with `prefix`.
pub open spec fn mls_failure(e: Error, prefix: Seq<char>) -> bool {
    e matches Error::Mls(m) && crate::text::is_prefix(prefix, m@)
}

/// An MLS error reading `prefix` followed by `detail`.
pub fn mls_error(prefix: &str, detail: &str) -> (e: Error)
    ensures
        is_mls(e, prefix@ + detail@),
        mls_failure(e, prefix@),
{
    let m = prefixed(prefix, detail);
    assert(m@.subrange(0, prefix@.len() as int) =~= prefix@);
    Error::Mls(m)
}

/// The text `prefix` followed by `detail`.
pub fn prefixed(prefix: &str, detail: &str) -> (s: String)
    ensures
        s@ == prefix@ + detail@,
{
    let s = prefix.to_owned();
    s.concat(detail)
}

/// The human-readable description of `e`.
pub open spec fn error_text(e: Error) -> Seq<char> {
    match e {
        Error::Yrs(m) => "Yrs error: "@ + m@,
        Error::Mls(m) => "MLS error: "@ + m@,
        Error::Encryption(m) => "Encryption error: "@ + m@,
        Error::InvalidState(m) => "Invalid state: "@ + m@,
        Error::Replay => "Replayed message rejected"@,
    }
}

impl Error {
    /// Human-readable description of the error.
    pub fn message(&self) -> (s: String)
        ensures
            s@ == error_text(*self),
    {
        match self {
            Error::Yrs(m) => prefixed("Yrs error: ", m.as_str()),
            Error::Mls(m) => prefixed("MLS error: ", m.as_str()),
            Error::Encryption(m) => prefixed("Encryption error: ", m.as_str()),
            Error::InvalidState(m) => prefixed("Invalid state: ", m.as_str()),
            Error::Replay => "Replayed message rejected".to_owned(),
        }
    }
}

} // verus!
