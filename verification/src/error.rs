//! Errors of the library.

use vstd::prelude::*;
use vstd::string::*;

verus! {

/// What can go wrong, each kind with its reason.
#[derive(Debug, Clone)]
pub enum AppError {
    Capture(String),
    Parse(String),
    Engine(String),
    Io(String),
    ProtobufDecode(String),
    LockPoisoned(String),
}

/// A result of the library.
pub type AppResult<T> = Result<T, AppError>;

impl AppError {
    /// The text of the error.
    pub open spec fn text(self) -> Seq<char> {
        match self {
            AppError::Capture(reason) => "Capture error: "@ + reason@,
            AppError::Parse(reason) => "Parse error: "@ + reason@,
            AppError::Engine(reason) => "Engine error: "@ + reason@,
            AppError::Io(reason) => "IO error: "@ + reason@,
            AppError::ProtobufDecode(reason) => "Protobuf decode error: "@ + reason@,
            AppError::LockPoisoned(reason) => "Lock poisoned: "@ + reason@,
        }
    }

    /// The text of the error.
    pub fn message(&self) -> (message: String)
        ensures
            message@ == self.text(),
    {
        match self {
            AppError::Capture(reason) => String::from_str("Capture error: ").concat(reason.as_str()),
            AppError::Parse(reason) => String::from_str("Parse error: ").concat(reason.as_str()),
            AppError::Engine(reason) => String::from_str("Engine error: ").concat(reason.as_str()),
            AppError::Io(reason) => String::from_str("IO error: ").concat(reason.as_str()),
            AppError::ProtobufDecode(reason) => String::from_str("Protobuf decode error: ").concat(
                reason.as_str(),
            ),
            AppError::LockPoisoned(reason) => String::from_str("Lock poisoned: ").concat(
                reason.as_str(),
            ),
        }
    }
}

} // verus!
