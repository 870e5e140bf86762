//! What a request can be refused with.

use vstd::prelude::*;

use crate::text::decimal;
use crate::text::decimal_text;

verus! {

/// Why a request was refused.
#[derive(Debug)]
pub enum CaptureError {
    /// The session is active already.
    AlreadyStarted,
    /// The session is not active.
    NotStarted,
    /// Barriers were set for a zone set other than the current one.
    ZoneSetMismatch { expected: u32, got: u32 },
    /// The session cannot be enabled before it has an EIS connection.
    EisNotConnected,
    /// The session has handed out its EIS socket.
    EisAlreadyConnected,
    /// The EIS context did not reach the compositor.
    EisNotRegistered { cause: String },
    /// There is an object at the path of the new session.
    SessionPathTaken,
    /// The object of the new session could not be made.
    SessionNotCreated { cause: String },
    /// The text is not an object path.
    InvalidObjectPath,
    /// Scripts are not evaluated.
    EvalNotSupported,
    /// No session is both registered and active.
    NoSessions,
    /// A signal could not be sent.
    SignalNotEmitted { cause: String },
}

impl CaptureError {
    /// The text that tells a client what went wrong.
    pub open spec fn text(&self) -> Seq<char> {
        match self {
            CaptureError::AlreadyStarted => "Already started"@,
            CaptureError::NotStarted => "Session not started"@,
            CaptureError::ZoneSetMismatch { expected, got } => "Zone set mismatch: expected "@
                + decimal(*expected as nat) + ", got "@ + decimal(*got as nat),
            CaptureError::EisNotConnected => "Must call ConnectToEIS first"@,
            CaptureError::EisAlreadyConnected => "Already gave EIS socket"@,
            CaptureError::EisNotRegistered { cause } => "Failed to register EIS context: "@
                + cause@,
            CaptureError::SessionPathTaken => "session path already exists"@,
            CaptureError::SessionNotCreated { cause } => "error creating session object: "@
                + cause@,
            CaptureError::InvalidObjectPath => "Invalid object path"@,
            CaptureError::EvalNotSupported => "JavaScript evaluation not supported in niri"@,
            CaptureError::NoSessions => "No active InputCapture sessions found"@,
            CaptureError::SignalNotEmitted { cause } => "Signal emission failed: "@ + cause@,
        }
    }

    /// The text that tells a client what went wrong.
    pub fn message(&self) -> (message: String)
        ensures
            message@ == self.text(),
    {
        match self {
            CaptureError::AlreadyStarted => "Already started".to_owned(),
            CaptureError::NotStarted => "Session not started".to_owned(),
            CaptureError::ZoneSetMismatch { expected, got } => {
                let mut message = "Zone set mismatch: expected ".to_owned();
                message.append(decimal_text(*expected as u64).as_str());
                message.append(", got ");
                message.append(decimal_text(*got as u64).as_str());
                message
            },
            CaptureError::EisNotConnected => "Must call ConnectToEIS first".to_owned(),
            CaptureError::EisAlreadyConnected => "Already gave EIS socket".to_owned(),
            CaptureError::EisNotRegistered { cause } => {
                let mut message = "Failed to register EIS context: ".to_owned();
                message.append(cause.as_str());
                message
            },
            CaptureError::SessionPathTaken => "session path already exists".to_owned(),
            CaptureError::SessionNotCreated { cause } => {
                let mut message = "error creating session object: ".to_owned();
                message.append(cause.as_str());
                message
            },
            CaptureError::InvalidObjectPath => "Invalid object path".to_owned(),
            CaptureError::EvalNotSupported => {
                "JavaScript evaluation not supported in niri".to_owned()
            },
            CaptureError::NoSessions => "No active InputCapture sessions found".to_owned(),
            CaptureError::SignalNotEmitted { cause } => {
                let mut message = "Signal emission failed: ".to_owned();
                message.append(cause.as_str());
                message
            },
        }
    }
}

/// The words of errors that are always the same.
pub proof fn law_fixed_error_texts()
    ensures
        CaptureError::AlreadyStarted.text() == "Already started"@,
        CaptureError::NotStarted.text() == "Session not started"@,
        CaptureError::EisNotConnected.text() == "Must call ConnectToEIS first"@,
        CaptureError::EisAlreadyConnected.text() == "Already gave EIS socket"@,
        CaptureError::SessionPathTaken.text() == "session path already exists"@,
        CaptureError::EvalNotSupported.text() == "JavaScript evaluation not supported in niri"@,
        CaptureError::NoSessions.text() == "No active InputCapture sessions found"@,
{
}

/// Errors with a cause tell it in full at their end, and a wrong zone set is told
/// with the number that was expected first and the one that came second.
pub proof fn law_errors_tell_their_cause(cause: String, expected: u32, got: u32)
    ensures
        (CaptureError::EisNotRegistered { cause }).text() == "Failed to register EIS context: "@
            + cause@,
        (CaptureError::SessionNotCreated { cause }).text() == "error creating session object: "@
            + cause@,
        (CaptureError::SignalNotEmitted { cause }).text() == "Signal emission failed: "@ + cause@,
        (CaptureError::ZoneSetMismatch { expected, got }).text()
            == "Zone set mismatch: expected "@ + decimal(expected as nat) + ", got "@ + decimal(
            got as nat,
        ),
{
}

} // verus!
