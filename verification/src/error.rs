//! The ways in which a parse fails.

use vstd::prelude::*;

verus! {

/// A token that has to stand between or inside the entries of a container.
#[derive(Debug, Clone, Copy, PartialEq, Eq, Structural)]
pub enum Separator {
    /// The `,` between two entries.
    Comma,
    /// The `]` that closes the key of a map entry.
    Bracket,
    /// The `=` between a key and its value.
    Equals,
}

/// Why a parse failed. Every failure ends the parse of the whole expression.
#[derive(Debug, Clone, Copy, PartialEq, Eq, Structural)]
pub enum ParseError {
    /// The text at the cursor begins no value.
    ExpectedValue,
    /// The input ended inside a string.
    UnterminatedString,
    /// A backslash stands before a character that names no escape.
    UnknownEscapeSequence,
    /// A comma stands before the first entry of a container.
    LeadingSeparator,
    /// The named token is absent where the syntax asks for it.
    MissingSeparator(Separator),
    /// An entry has another shape than the container's earlier entries.
    MixedContainerShape,
    /// A run of digits and decimal points that is no number.
    InvalidNumber,
}

impl ParseError {
    /// The failure in words.
    pub open spec fn describe(self) -> Seq<char> {
        match self {
            ParseError::ExpectedValue => "expected a value"@,
            ParseError::UnterminatedString => "missing closing \""@,
            ParseError::UnknownEscapeSequence => "unknown escape"@,
            ParseError::LeadingSeparator => ", not allowed before first item"@,
            ParseError::MissingSeparator(Separator::Comma) => "expected , after list item"@,
            ParseError::MissingSeparator(Separator::Bracket) => "expected a ]"@,
            ParseError::MissingSeparator(Separator::Equals) => "expected a = after key"@,
            ParseError::MixedContainerShape => "can't mix list and map"@,
            ParseError::InvalidNumber => "invalid number"@,
        }
    }

    /// The failure in words.
    pub fn message(&self) -> (text: String)
        ensures
            text@ == self.describe(),
    {
        let words = match self {
            ParseError::ExpectedValue => "expected a value",
            ParseError::UnterminatedString => "missing closing \"",
            ParseError::UnknownEscapeSequence => "unknown escape",
            ParseError::LeadingSeparator => ", not allowed before first item",
            ParseError::MissingSeparator(Separator::Comma) => "expected , after list item",
            ParseError::MissingSeparator(Separator::Bracket) => "expected a ]",
            ParseError::MissingSeparator(Separator::Equals) => "expected a = after key",
            ParseError::MixedContainerShape => "can't mix list and map",
            ParseError::InvalidNumber => "invalid number",
        };
        words.to_owned()
    }
}

} // verus!
