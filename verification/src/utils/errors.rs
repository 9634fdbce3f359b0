//! The failures an engine operation can report.

use crate::fixed::Fixed;
use vstd::prelude::*;
use vstd::string::StringExecFns;

verus! {

#[derive(Debug)]
pub enum SimulationError {
    /// A process with this id is already registered.
    DuplicateProcess(String),
    /// A connection or an event names a port that the process does not declare.
    InvalidPort { process: String, port: String, port_type: String },
    /// A time step that is not positive.
    InvalidDt(Fixed),
    /// Nothing is left in the queue.
    NoEvents,
    /// Any other failure, with its description.
    Other(String),
    /// No process has this id.
    ProcessNotFound(String),
    /// No connection has this id.
    ConnectionNotFound(String),
}

/// The mathematical value of a `SimulationError`.
pub enum ErrorView {
    DuplicateProcess(Seq<char>),
    InvalidPort { process: Seq<char>, port: Seq<char>, port_type: Seq<char> },
    InvalidDt(int),
    NoEvents,
    Other(Seq<char>),
    ProcessNotFound(Seq<char>),
    ConnectionNotFound(Seq<char>),
}

impl View for SimulationError {
    type V = ErrorView;

    open spec fn view(&self) -> ErrorView {
        match self {
            SimulationError::DuplicateProcess(id) => ErrorView::DuplicateProcess(id@),
            SimulationError::InvalidPort { process, port, port_type } => ErrorView::InvalidPort {
                process: process@,
                port: port@,
                port_type: port_type@,
            },
            SimulationError::InvalidDt(dt) => ErrorView::InvalidDt(dt@),
            SimulationError::NoEvents => ErrorView::NoEvents,
            SimulationError::Other(message) => ErrorView::Other(message@),
            SimulationError::ProcessNotFound(id) => ErrorView::ProcessNotFound(id@),
            SimulationError::ConnectionNotFound(id) => ErrorView::ConnectionNotFound(id@),
        }
    }
}

/// A number would leave the bounds that the engine keeps: an amount would
/// be negative, a pool would rise above its capacity, or a value would not
/// fit the number type.
pub open spec fn out_of_bounds() -> ErrorView {
    ErrorView::Other("value out of bounds"@)
}

/// The configured behaviour is reserved and has no definition yet.
pub open spec fn not_implemented() -> ErrorView {
    ErrorView::Other("not implemented"@)
}

/// The scheduler's sequence numbers are used up.
pub open spec fn sequence_exhausted() -> ErrorView {
    ErrorView::Other("sequence numbers exhausted"@)
}

/// The text after the word "Invalid" in the description of a bad port.
pub open spec fn invalid_port_text(process: Seq<char>, port: Seq<char>, port_type: Seq<char>) -> Seq<
    char,
> {
    "Invalid "@ + port_type + " port '"@ + port + "' for process '"@ + process + "'"@
}

/// The decimal digits of an integer, with a leading minus sign when it is
/// negative, as `std::fmt` writes them.
pub uninterp spec fn integer_text(value: int) -> Seq<char>;

/// A fixed-point number in scientific notation: its count of billionths,
/// followed by the exponent.
pub open spec fn decimal_text(raw: int) -> Seq<char> {
    integer_text(raw) + "e-9"@
}

/// What `SimulationError::message` returns for an error.
pub open spec fn message_text(e: ErrorView) -> Seq<char> {
    match e {
        ErrorView::DuplicateProcess(id) => "Duplicate process ID: "@ + id,
        ErrorView::InvalidPort { process, port, port_type } => invalid_port_text(
            process,
            port,
            port_type,
        ),
        ErrorView::InvalidDt(dt) => "Invalid dt value: "@ + decimal_text(dt),
        ErrorView::NoEvents => "No events remaining in queue"@,
        ErrorView::Other(message) => message,
        ErrorView::ProcessNotFound(id) => "Process with ID '"@ + id + "' not found"@,
        ErrorView::ConnectionNotFound(id) => "Connection with ID '"@ + id + "' not found"@,
    }
}

/// Calls `i64::to_string`, which writes the integer in decimal. The contract
/// gives the text a name and claims nothing of its characters.
#[verifier::external_body]
pub(crate) fn integer_to_string(value: i64) -> (r: String)
    ensures
        r@ == integer_text(value as int),
{
    value.to_string()
}

impl SimulationError {
    pub fn out_of_bounds() -> (e: SimulationError)
        ensures
            e@ == out_of_bounds(),
    {
        SimulationError::Other("value out of bounds".to_owned())
    }

    pub fn not_implemented() -> (e: SimulationError)
        ensures
            e@ == not_implemented(),
    {
        SimulationError::Other("not implemented".to_owned())
    }

    pub fn sequence_exhausted() -> (e: SimulationError)
        ensures
            e@ == sequence_exhausted(),
    {
        SimulationError::Other("sequence numbers exhausted".to_owned())
    }

    /// A description of the error for people to read.
    pub fn message(&self) -> (r: String)
        ensures
            r@ == message_text(self@),
    {
        match self {
            SimulationError::DuplicateProcess(id) => {
                String::from_str("Duplicate process ID: ").concat(id.as_str())
            },
            SimulationError::InvalidPort { process, port, port_type } => {
                String::from_str("Invalid ").concat(port_type.as_str()).concat(" port '").concat(
                    port.as_str(),
                ).concat("' for process '").concat(process.as_str()).concat("'")
            },
            SimulationError::InvalidDt(dt) => {
                let digits = integer_to_string(dt.raw());
                String::from_str("Invalid dt value: ").concat(digits.as_str()).concat("e-9")
            },
            SimulationError::NoEvents => String::from_str("No events remaining in queue"),
            SimulationError::Other(message) => message.clone(),
            SimulationError::ProcessNotFound(id) => {
                String::from_str("Process with ID '").concat(id.as_str()).concat("' not found")
            },
            SimulationError::ConnectionNotFound(id) => {
                String::from_str("Connection with ID '").concat(id.as_str()).concat("' not found")
            },
        }
    }
}

} // verus!
