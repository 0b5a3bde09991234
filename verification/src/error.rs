//! What can go wrong while a log line is read.

use vstd::prelude::*;
use vstd::string::StringExecFns;

verus! {

/// Why a line, or one field of it, was refused.
#[derive(Clone, Debug, PartialEq, Eq)]
pub enum Error {
    /// The line is not of the line grammar.
    TokenizeError,
    /// The quantity field is missing, or holds no quantity.
    MissingQuantity,
    /// A number is missing where one is required, or cannot be read or held.
    InvalidNumber,
    /// The ABV field has the shape of an ABV but lacks its first number.
    MissingAbv,
    /// The volume field names a unit that is not known; the unit is carried along.
    UnknownVolumeUnit(String),
    /// The id or the drink is already in the registry.
    DuplicateRegistryEntry,
    /// The date field is malformed: it names two times of day, or a day that does
    /// not exist.
    InvalidDateContext,
}

/// An [`Error`] as contracts speak of it, with the text that it carries.
pub enum Fault {
    TokenizeError,
    MissingQuantity,
    InvalidNumber,
    MissingAbv,
    UnknownVolumeUnit(Seq<char>),
    DuplicateRegistryEntry,
    InvalidDateContext,
}

impl View for Error {
    type V = Fault;

    open spec fn view(&self) -> Fault {
        match self {
            Error::TokenizeError => Fault::TokenizeError,
            Error::MissingQuantity => Fault::MissingQuantity,
            Error::InvalidNumber => Fault::InvalidNumber,
            Error::MissingAbv => Fault::MissingAbv,
            Error::UnknownVolumeUnit(unit) => Fault::UnknownVolumeUnit(unit@),
            Error::DuplicateRegistryEntry => Fault::DuplicateRegistryEntry,
            Error::InvalidDateContext => Fault::InvalidDateContext,
        }
    }
}

/// What a call came to, with its error as contracts speak of it.
pub open spec fn outcome<T>(result: Result<T, Error>) -> Result<T, Fault> {
    match result {
        Ok(value) => Ok(value),
        Err(error) => Err(error@),
    }
}

/// What a call came to, with its value and its error as contracts speak of them.
pub open spec fn outcome_view<T: View>(result: Result<T, Error>) -> Result<T::V, Fault> {
    match result {
        Ok(value) => Ok(value@),
        Err(error) => Err(error@),
    }
}

impl Fault {
    /// What an error says of itself.
    pub open spec fn text(self) -> Seq<char> {
        match self {
            Fault::TokenizeError => "Failed to parse the line!"@,
            Fault::MissingQuantity => "Missing required quantity!"@,
            Fault::InvalidNumber => "Invalid quantity input!"@,
            Fault::MissingAbv => "A minimum ABV is required!"@,
            Fault::UnknownVolumeUnit(unit) => "Unrecognized volume unit, '"@ + unit + "'!"@,
            Fault::DuplicateRegistryEntry => "The drink or its id is already registered!"@,
            Fault::InvalidDateContext => "Invalid date or time of day!"@,
        }
    }
}

impl Error {
    /// What the error says of itself, for a log or a reply.
    pub fn message(&self) -> (text: String)
        ensures
            text@ == self@.text(),
    {
        match self {
            Error::TokenizeError => String::from_str("Failed to parse the line!"),
            Error::MissingQuantity => String::from_str("Missing required quantity!"),
            Error::InvalidNumber => String::from_str("Invalid quantity input!"),
            Error::MissingAbv => String::from_str("A minimum ABV is required!"),
            Error::UnknownVolumeUnit(unit) => {
                let mut text = String::from_str("Unrecognized volume unit, '");
                text.append(unit.as_str());
                text.append("'!");
                text
            },
            Error::DuplicateRegistryEntry => String::from_str(
                "The drink or its id is already registered!",
            ),
            Error::InvalidDateContext => String::from_str("Invalid date or time of day!"),
        }
    }
}

} // verus!
