//! What can be wrong with a notation, and how it is put into words.

use crate::number::{decimal, push_decimal};
use vstd::prelude::*;
use vstd::string::StringExecFns;

verus! {

/// Why a notation names no die. Either way the notation is kept as `input`.
#[derive(Debug, PartialEq, Eq)]
pub enum ParseError {
    /// The notation is none of the codes of the narrative dice, and it is not
    /// a count and a number of sides with one `d` between them.
    MalformedNotation { input: String },
    /// The notation gives a count and a number of sides, and one of them is
    /// above `limit`.
    ValueTooLarge { input: String, limit: u16 },
}

/// A `ParseError` as contracts see it, with the notation as its characters.
pub enum ParseFailure {
    MalformedNotation { input: Seq<char> },
    ValueTooLarge { input: Seq<char>, limit: u16 },
}

impl ParseFailure {
    /// The notation that was refused.
    pub open spec fn input(self) -> Seq<char> {
        match self {
            ParseFailure::MalformedNotation { input } => input,
            ParseFailure::ValueTooLarge { input, .. } => input,
        }
    }

    /// The failure in words.
    pub open spec fn message(self) -> Seq<char> {
        match self {
            ParseFailure::MalformedNotation { input } => "Could not parse the input: "@ + input
                + " to form a dice"@,
            ParseFailure::ValueTooLarge { input, limit } => "Input: '"@ + input
                + "' too large to form a dice please use numbers <"@ + decimal(limit as nat),
        }
    }

    /// The failure in words for a developer: as `message`, with the notation
    /// always between quotes.
    pub open spec fn debug_message(self) -> Seq<char> {
        match self {
            ParseFailure::MalformedNotation { input } => "Could not parse the input: '"@ + input
                + "' to form a dice"@,
            ParseFailure::ValueTooLarge { .. } => self.message(),
        }
    }
}

impl View for ParseError {
    type V = ParseFailure;

    open spec fn view(&self) -> ParseFailure {
        match self {
            ParseError::MalformedNotation { input } => ParseFailure::MalformedNotation {
                input: input@,
            },
            ParseError::ValueTooLarge { input, limit } => ParseFailure::ValueTooLarge {
                input: input@,
                limit: *limit,
            },
        }
    }
}

impl Clone for ParseError {
    fn clone(&self) -> (copy: Self)
        ensures
            copy == *self,
    {
        match self {
            ParseError::MalformedNotation { input } => ParseError::MalformedNotation {
                input: input.clone(),
            },
            ParseError::ValueTooLarge { input, limit } => ParseError::ValueTooLarge {
                input: input.clone(),
                limit: *limit,
            },
        }
    }
}

impl ParseError {
    /// The notation that was refused.
    pub fn input(&self) -> (input: &str)
        ensures
            input@ == self@.input(),
    {
        match self {
            ParseError::MalformedNotation { input } => input.as_str(),
            ParseError::ValueTooLarge { input, .. } => input.as_str(),
        }
    }

    /// The error in words.
    pub fn message(&self) -> (text: String)
        ensures
            text@ == self@.message(),
    {
        match self {
            ParseError::MalformedNotation { input } => {
                let mut text = String::from_str("Could not parse the input: ");
                text.append(input.as_str());
                text.append(" to form a dice");
                text
            },
            ParseError::ValueTooLarge { input, limit } => {
                let mut text = String::from_str("Input: '");
                text.append(input.as_str());
                text.append("' too large to form a dice please use numbers <");
                push_decimal(&mut text, *limit as u32);
                text
            },
        }
    }

    /// The error in words for a developer.
    pub fn debug_message(&self) -> (text: String)
        ensures
            text@ == self@.debug_message(),
    {
        match self {
            ParseError::MalformedNotation { input } => {
                let mut text = String::from_str("Could not parse the input: '");
                text.append(input.as_str());
                text.append("' to form a dice");
                text
            },
            ParseError::ValueTooLarge { .. } => self.message(),
        }
    }
}

} // verus!
