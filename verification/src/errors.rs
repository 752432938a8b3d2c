//! Error taxonomy of the backend, and its wire representation.
//!
//! Every failure is classified by an `ErrorType`; all kinds are recoverable
//! (reported in-band on the wire) except `PoisonedHandle`, which is fatal.

use vstd::prelude::*;
use vstd::string::StringExecFns;

verus! {

/// The exhaustive kinds of failure the backend can report.
#[derive(Clone, Copy, Debug, PartialEq, Eq, Structural)]
pub enum ErrorType {
    /// An input line is not a well-formed tagged request.
    Deserialize,
    /// A FEN/UCI/SAN string could not be parsed.
    Parse,
    /// A move is illegal, a position is invalid, or a line diverges from the tree.
    ChessRules,
    /// An identifier unknown to the state container.
    BadHandle,
    /// An identifier that refers to a closed (tombstoned) game.
    StaleHandle,
    /// Shared state was corrupted by a previous crash while held. Fatal.
    PoisonedHandle,
    /// Reading or writing the transport failed.
    IO,
}

/// An error together with an optional description of the underlying library
/// failure and the optional game identifier it concerns.
#[derive(Debug)]
pub struct Error {
    pub error_type: ErrorType,
    pub source: Option<String>,
    pub id: Option<String>,
}

impl Error {
    pub fn is_type(&self, error_type: ErrorType) -> (r: bool)
        ensures
            r == (self.error_type == error_type),
    {
        self.error_type == error_type
    }

    /// Every kind but `PoisonedHandle` is recoverable.
    pub fn is_recoverable(&self) -> (r: bool)
        ensures
            r == (self.error_type != ErrorType::PoisonedHandle),
    {
        !self.is_type(ErrorType::PoisonedHandle)
    }

    pub fn new(error_type: ErrorType) -> (r: Error)
        ensures
            r.error_type == error_type,
            r.source is None,
            r.id is None,
    {
        Error { error_type, source: None, id: None }
    }

    pub fn with_id(self, id: &String) -> (r: Error)
        ensures
            r.error_type == self.error_type,
            r.source == self.source,
            r.id matches Some(s) && s@ == id@,
    {
        Error { error_type: self.error_type, source: self.source, id: Some(id.clone()) }
    }

    /// Human-readable account of the error and of what it came from.
    pub fn describe(&self) -> (r: String)
        ensures
            r@ == spec_message(self.error_type) + " Comes from "@ + (match self.source {
                Some(s) => s@,
                None => "No underlying error"@,
            }),
    {
        let head = human_readable_message(&self.error_type).concat(" Comes from ");
        match &self.source {
            Some(s) => head.concat(s.as_str()),
            None => head.concat("No underlying error"),
        }
    }
}

/// Wire representation of an error, carried in a response.
#[derive(Debug)]
pub struct ErrorRepr {
    pub error_type: ErrorType,
    pub message: String,
    pub underlying_error: Option<String>,
    pub game_id: Option<String>,
}

impl ErrorRepr {
    pub fn from_error(e: Error) -> (r: ErrorRepr)
        ensures
            r.error_type == e.error_type,
            r.message@ == spec_message(e.error_type),
            r.underlying_error == e.source,
            r.game_id == e.id,
    {
        let message = human_readable_message(&e.error_type);
        ErrorRepr {
            error_type: e.error_type,
            message,
            underlying_error: e.source,
            game_id: e.id,
        }
    }
}

/// The fixed message that each error kind carries on the wire.
pub open spec fn spec_message(err_type: ErrorType) -> Seq<char> {
    match err_type {
        ErrorType::Deserialize => "Could not parse JSON from stdin."@,
        ErrorType::Parse => "Could not parse given input."@,
        ErrorType::ChessRules => "Unexpected illegal chess position. Unchecked chess information should be sent to a function expecting it."@,
        ErrorType::BadHandle => "Tried to use an invalid handle to a game or the inner state."@,
        ErrorType::StaleHandle => "Tried to use an expired handle to a game."@,
        ErrorType::PoisonedHandle => "Unrecoverable error: A thread crashed while holding a lock to the program state."@,
        ErrorType::IO => "IO operation failed."@,
    }
}

pub fn human_readable_message(err_type: &ErrorType) -> (r: String)
    ensures
        r@ == spec_message(*err_type),
{
    let message: &str = match err_type {
        ErrorType::Deserialize => "Could not parse JSON from stdin.",
        ErrorType::Parse => "Could not parse given input.",
        ErrorType::ChessRules => "Unexpected illegal chess position. Unchecked chess information should be sent to a function expecting it.",
        ErrorType::BadHandle => "Tried to use an invalid handle to a game or the inner state.",
        ErrorType::StaleHandle => "Tried to use an expired handle to a game.",
        ErrorType::PoisonedHandle => "Unrecoverable error: A thread crashed while holding a lock to the program state.",
        ErrorType::IO => "IO operation failed.",
    };
    message.to_owned()
}

} // verus!
