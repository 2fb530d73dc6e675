//! Codes exchanged with clients: outcomes of commands, rotations and
//! infrastructure kinds.
use vstd::prelude::*;

verus! {

/// The outcome of a command.
#[derive(Debug, Clone, Copy, PartialEq, Eq, Structural)]
pub enum ErrorCode {
    ErrorNone,
    ErrorOutOfBounds,
    ErrorCollision,
    ErrorCrossingNotAllowed,
    ErrorEmpty,
    ErrorInvalidTemplate,
    ErrorInsufficientFunds,
}

/// A rotation of a building's footprint, counterclockwise.
#[derive(Debug, Clone, Copy, PartialEq, Eq, Structural)]
pub enum Rotation {
    Deg0,
    Deg90,
    Deg180,
    Deg270,
}

/// The kinds of infrastructure a client can ask for.
#[derive(Debug, Clone, Copy, PartialEq, Eq, Structural)]
pub enum InfrastructureKind {
    Path,
    Ramp,
    Stairs,
}

/// The message that goes with an error code.
pub open spec fn spec_message_for(code: ErrorCode) -> Seq<char> {
    match code {
        ErrorCode::ErrorNone => "Action executed and registered by the engine"@,
        ErrorCode::ErrorOutOfBounds => "Target cell is out of bounds or on a locked level/parcel"@,
        ErrorCode::ErrorCollision => "Target cell is already occupied"@,
        ErrorCode::ErrorCrossingNotAllowed => "Crossing not allowed here"@,
        ErrorCode::ErrorEmpty => "Invalid or empty command"@,
        ErrorCode::ErrorInvalidTemplate => "Invalid template"@,
        ErrorCode::ErrorInsufficientFunds => "Not enough funds"@,
    }
}

/// The message that goes with an error code.
pub fn message_for(code: ErrorCode) -> (r: &'static str)
    ensures
        r@ == spec_message_for(code),
{
    match code {
        ErrorCode::ErrorNone => "Action executed and registered by the engine",
        ErrorCode::ErrorOutOfBounds => "Target cell is out of bounds or on a locked level/parcel",
        ErrorCode::ErrorCollision => "Target cell is already occupied",
        ErrorCode::ErrorCrossingNotAllowed => "Crossing not allowed here",
        ErrorCode::ErrorEmpty => "Invalid or empty command",
        ErrorCode::ErrorInvalidTemplate => "Invalid template",
        ErrorCode::ErrorInsufficientFunds => "Not enough funds",
    }
}

} // verus!
