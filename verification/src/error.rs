//! The errors of the program, and what to do on an error.
use vstd::prelude::*;

verus! {

#[verifier::external_type_specification]
#[verifier::external_body]
pub struct ExIoError(std::io::Error);

#[verifier::external_type_specification]
#[verifier::external_body]
pub struct ExParseIntError(std::num::ParseIntError);

/// The errors of the program.
pub enum Error {
    /// An I/O operation failed: what was being done, on which path, and why.
    Io { action: String, path: String, source: std::io::Error },
    /// The registry could not be written.
    RegistryError(std::io::Error),
    /// The permissions of a folder could not be read or changed.
    PermissionDenied { path: String, source: std::io::Error },
    /// A number could not be read.
    ParseInt(std::num::ParseIntError),
    /// A value was missing where one was expected.
    NoValue,
    /// The operation is only supported on Windows.
    UnsupportedOS,
}

/// What to do when an operation fails.
#[derive(Debug, Copy, Clone, PartialEq, Eq, Structural, Hash, PartialOrd, Ord)]
pub enum ErrorAction {
    /// Report the error and go on.
    Continue,
    /// Report the error and wait for the user before going on.
    Inquire,
    /// Go on without a word.
    SilentlyContinue,
    /// Stop at the error.
    Stop,
}

impl ErrorAction {
    /// Whether a failure that does not stop the program is reported.
    pub fn reports(self) -> (b: bool)
        ensures
            b <==> self == ErrorAction::Continue || self == ErrorAction::Inquire,
    {
        self != ErrorAction::Stop && self != ErrorAction::SilentlyContinue
    }

    /// Whether the program waits for the user after a failure that does not stop it.
    pub fn waits(self) -> (b: bool)
        ensures
            b <==> self == ErrorAction::Inquire,
    {
        self == ErrorAction::Inquire
    }
}

/// Results of the program.
pub type Result<T> = std::result::Result<T, Error>;

/// Turns an I/O error into an error of the program that says what was being
/// done and on which path.
pub trait IoReason: Sized {
    type Output;

    fn reason(self, action: &str, path: Option<&str>) -> Self::Output;
}

impl IoReason for std::io::Error {
    type Output = Error;

    /// The error `Io` with `action`, the path (empty where there is none) and this error.
    fn reason(self, action: &str, path: Option<&str>) -> (e: Error)
        ensures
            e matches Error::Io { action: a, path: p, source: src } && a@ == action@ && src == self
                && p@ == (match path {
                Some(q) => q@,
                None => Seq::<char>::empty(),
            }),
    {
        let path_str = match path {
            None => String::new(),
            Some(p) => p.to_string(),
        };
        Error::Io { action: action.to_string(), path: path_str, source: self }
    }
}

impl<T> IoReason for std::result::Result<T, std::io::Error> {
    type Output = Result<T>;

    /// The result with its error, where there is one, turned as for a single error.
    fn reason(self, action: &str, path: Option<&str>) -> (r: Result<T>)
        ensures
            self is Ok <==> r is Ok,
            self matches Ok(v) ==> r == Ok::<T, Error>(v),
            self matches Err(e0) ==> (r matches Err(Error::Io { action: a, path: p, source: src }) && a@
                == action@ && src == e0 && p@ == (match path {
                Some(q) => q@,
                None => Seq::<char>::empty(),
            })),
    {
        match self {
            Ok(v) => Ok(v),
            Err(e) => Err(e.reason(action, path)),
        }
    }
}

/// What a failure of an operation comes to under `error_action`: the value
/// where it succeeded; the error where the action is to stop; nothing, so that
/// the program goes on, otherwise.
pub open spec fn spec_decide<T>(r: Result<T>, error_action: ErrorAction) -> Result<Option<T>> {
    match r {
        Ok(v) => Ok(Some(v)),
        Err(e) => if error_action == ErrorAction::Stop {
            Err(e)
        } else {
            Ok(None)
        },
    }
}

/// Decides what a result comes to under an `ErrorAction`.
pub trait ResultHandle<T>: Sized {
    fn decide(self, error_action: ErrorAction) -> Result<Option<T>>;
}

impl<T> ResultHandle<T> for Result<T> {
    /// The result as `spec_decide` says.
    fn decide(self, error_action: ErrorAction) -> (r: Result<Option<T>>)
        ensures
            r == spec_decide(self, error_action),
    {
        match self {
            Ok(value) => Ok(Some(value)),
            Err(e) => {
                if error_action == ErrorAction::Stop {
                    return Err(e);
                }
                Ok(None)
            },
        }
    }
}

} // verus!
