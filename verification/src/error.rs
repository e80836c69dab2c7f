use vstd::prelude::*;

verus! {

/// `std::io::Error`, carried through as an opaque value.
#[verifier::external_type_specification]
#[verifier::external_body]
pub struct ExIoError(std::io::Error);

/// Errors that can occur when using a lock.
#[derive(Debug)]
pub enum Error {
    /// The lock name is invalid.
    ///
    /// Names must be non-empty and must not contain `\0`, `/`, or `\`.
    InvalidName,
    /// The lock is currently held by another thread or process and a
    /// non-blocking acquire was requested.
    WouldBlock,
    /// An underlying I/O error occurred.
    Io(std::io::Error),
}

/// The description of `InvalidName`.
pub open spec fn invalid_name_text() -> Seq<char> {
    "invalid lock name: must be non-empty and contain no '\\0', '/', or '\\'"@
}

/// The description of `WouldBlock`.
pub open spec fn would_block_text() -> Seq<char> {
    "lock is currently held by another thread or process"@
}

/// What the description of `Io` starts with, before the I/O error's own text.
pub open spec fn io_prefix_text() -> Seq<char> {
    "I/O error: "@
}

/// Whether an I/O error's kind is `ErrorKind::WouldBlock`.
pub uninterp spec fn is_would_block(e: std::io::Error) -> bool;

/// Calls `std::io::Error::kind` and tells `ErrorKind::WouldBlock` apart from
/// every other kind; the result is named `is_would_block` of the error.
#[verifier::external_body]
fn io_error_would_block(e: &std::io::Error) -> (r: bool)
    ensures
        r == is_would_block(*e),
{
    matches!(e.kind(), std::io::ErrorKind::WouldBlock)
}

/// The error reported for a failed OS-level acquire.
pub open spec fn os_failure_error(e: std::io::Error) -> Error {
    if is_would_block(e) {
        Error::WouldBlock
    } else {
        Error::Io(e)
    }
}

impl Error {
    /// The error reported for a failed OS-level acquire: `WouldBlock` when the
    /// OS said the lock is held elsewhere, the I/O error itself otherwise.
    pub fn from_os_failure(e: std::io::Error, would_block: bool) -> (r: Error)
        ensures
            would_block ==> r == Error::WouldBlock,
            !would_block ==> r == Error::Io(e),
    {
        if would_block {
            Error::WouldBlock
        } else {
            Error::Io(e)
        }
    }

    /// Classifies a failed OS-level acquire by the error's kind.
    pub fn from_os_error(e: std::io::Error) -> (r: Error)
        ensures
            r == os_failure_error(e),
    {
        let would_block = io_error_would_block(&e);
        Error::from_os_failure(e, would_block)
    }

    /// The human-readable description of the error.
    pub fn to_string(&self) -> (s: String)
        ensures
            self is InvalidName ==> s@ == invalid_name_text(),
            self is WouldBlock ==> s@ == would_block_text(),
            self is Io ==> exists|t: String| s@ == io_prefix_text() + t@
                && vstd::string::to_string_from_display_ensures::<std::io::Error>(&self->Io_0, t),
    {
        match self {
            Error::InvalidName => String::from_str(
                "invalid lock name: must be non-empty and contain no '\\0', '/', or '\\'",
            ),
            Error::WouldBlock => String::from_str("lock is currently held by another thread or process"),
            Error::Io(e) => {
                let t = e.to_string();
                let s = String::from_str("I/O error: ").concat(t.as_str());
                s
            },
        }
    }

    /// The underlying I/O error, for the `Io` variant only.
    pub fn source(&self) -> (r: Option<&std::io::Error>)
        ensures
            match self {
                Error::Io(e) => r == Some(e),
                _ => r is None,
            },
    {
        match self {
            Error::Io(e) => Some(e),
            _ => None,
        }
    }
}

impl From<std::io::Error> for Error {
    fn from(e: std::io::Error) -> (r: Self) {
        Error::Io(e)
    }
}

impl vstd::std_specs::convert::FromSpecImpl<std::io::Error> for Error {
    open spec fn obeys_from_spec() -> bool {
        true
    }

    open spec fn from_spec(e: std::io::Error) -> Self {
        Error::Io(e)
    }
}

} // verus!
