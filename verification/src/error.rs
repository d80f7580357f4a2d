//! Why reading an instruction file stops.

use vstd::prelude::*;

verus! {

/// The reason for which a line is refused.
#[derive(Clone, Copy, Debug, PartialEq, Eq, Structural)]
pub enum ParseError {
    /// The text after `;TIME:` is no unsigned 32-bit integer.
    InvalidTime,
    /// The text after `;LAYER:` is no unsigned 32-bit integer.
    InvalidLayer,
    /// The value of an `X`, `Y` or `F` word of a move is no decimal
    /// number, or its magnitude is above a million millions.
    InvalidNumber,
    /// A move changes the position while the feed rate is zero.
    ZeroFeedrate,
    /// The distance or time of a layer has left the range that a layer
    /// record holds.
    TotalOutOfRange,
}

/// What to tell the user of each reason.
pub open spec fn message_text(error: ParseError) -> Seq<char> {
    match error {
        ParseError::InvalidTime => "gcode contains invalid ';TIME:' estimate"@,
        ParseError::InvalidLayer => "gcode contains invalid ';LAYER:' number"@,
        ParseError::InvalidNumber => "move has an X, Y or F word without a valid number"@,
        ParseError::ZeroFeedrate => "move changes the position at a feed rate of zero"@,
        ParseError::TotalOutOfRange => "distance or time of a layer is out of range"@,
    }
}

impl ParseError {
    /// What to tell the user of this reason.
    pub fn message(&self) -> (text: &'static str)
        ensures
            text@ == message_text(*self),
    {
        match self {
            ParseError::InvalidTime => "gcode contains invalid ';TIME:' estimate",
            ParseError::InvalidLayer => "gcode contains invalid ';LAYER:' number",
            ParseError::InvalidNumber => "move has an X, Y or F word without a valid number",
            ParseError::ZeroFeedrate => "move changes the position at a feed rate of zero",
            ParseError::TotalOutOfRange => "distance or time of a layer is out of range",
        }
    }
}

/// A refused line: its index among the lines, from zero, and the reason.
#[derive(Clone, Copy, Debug, PartialEq, Eq, Structural)]
pub struct ParseFailure {
    pub line: usize,
    pub error: ParseError,
}

} // verus!
