//! The errors of identifier operations.

use vstd::prelude::*;

verus! {

/// What can go wrong when an identifier is parsed, built or incremented.
/// Each payload is the offending fragment of the input.
#[derive(Debug, Clone, PartialEq)]
pub enum IdError {
    /// A character outside the identifier alphabet, or components that do
    /// not alternate between numbers and letters.
    InvalidFormat(String),
    /// The input held no character, or no component.
    EmptyId,
    /// An alphabetic component that is empty or holds something other than
    /// the letters `a` to `z`.
    InvalidComponent(String),
    /// A numeric component at the largest value cannot be incremented.
    Overflow(String),
    /// A root identifier has no parent.
    NoParent(String),
    /// A run of digits whose value does not fit a numeric component.
    ParseError(String),
}

/// The mathematical model of an [`IdError`]: the same variants, with the
/// payload as a sequence of characters.
pub ghost enum Failure {
    InvalidFormat(Seq<char>),
    EmptyId,
    InvalidComponent(Seq<char>),
    Overflow(Seq<char>),
    NoParent(Seq<char>),
    ParseError(Seq<char>),
}

impl View for IdError {
    type V = Failure;

    open spec fn view(&self) -> Failure {
        match self {
            IdError::InvalidFormat(s) => Failure::InvalidFormat(s@),
            IdError::EmptyId => Failure::EmptyId,
            IdError::InvalidComponent(s) => Failure::InvalidComponent(s@),
            IdError::Overflow(s) => Failure::Overflow(s@),
            IdError::NoParent(s) => Failure::NoParent(s@),
            IdError::ParseError(s) => Failure::ParseError(s@),
        }
    }
}

impl IdError {
    /// The fragment of the input that the error is about; empty for
    /// [`IdError::EmptyId`].
    pub fn fragment(&self) -> (r: String)
        ensures
            r@ == match self@ {
                Failure::InvalidFormat(s) => s,
                Failure::EmptyId => Seq::<char>::empty(),
                Failure::InvalidComponent(s) => s,
                Failure::Overflow(s) => s,
                Failure::NoParent(s) => s,
                Failure::ParseError(s) => s,
            },
    {
        match self {
            IdError::InvalidFormat(s) => s.clone(),
            IdError::EmptyId => String::new(),
            IdError::InvalidComponent(s) => s.clone(),
            IdError::Overflow(s) => s.clone(),
            IdError::NoParent(s) => s.clone(),
            IdError::ParseError(s) => s.clone(),
        }
    }
}

} // verus!
