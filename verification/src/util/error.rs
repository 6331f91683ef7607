//! The library's error type.
use vstd::prelude::*;

verus! {

/// Every failure the library reports, with its message.
#[derive(Debug, PartialEq, Eq)]
pub enum HydroxylError {
    /// The command line asks for something that cannot be done.
    InvalidCli(String),
    /// A document or path does not hold what an operation needs.
    InvalidData(String),
    /// Text that should hold a number of the needed type does not.
    InvalidNumber(String),
    /// Reading or writing a file, or (de)compressing bytes, failed.
    Io(String),
    /// Encoding or decoding failed in an outside codec.
    Codec(String),
}

/// The model of an error: its kind and its message.
pub enum ErrorModel {
    InvalidCli(Seq<char>),
    InvalidData(Seq<char>),
    InvalidNumber(Seq<char>),
    Io(Seq<char>),
    Codec(Seq<char>),
}

impl View for HydroxylError {
    type V = ErrorModel;

    open spec fn view(&self) -> ErrorModel {
        match self {
            HydroxylError::InvalidCli(m) => ErrorModel::InvalidCli(m@),
            HydroxylError::InvalidData(m) => ErrorModel::InvalidData(m@),
            HydroxylError::InvalidNumber(m) => ErrorModel::InvalidNumber(m@),
            HydroxylError::Io(m) => ErrorModel::Io(m@),
            HydroxylError::Codec(m) => ErrorModel::Codec(m@),
        }
    }
}

impl HydroxylError {
    /// An error about the command line.
    pub fn invalid_cli(message: &str) -> (e: HydroxylError)
        ensures
            e@ == ErrorModel::InvalidCli(message@),
    {
        HydroxylError::InvalidCli(message.to_owned())
    }

    /// An error about the data an operation was given.
    pub fn invalid_data(message: &str) -> (e: HydroxylError)
        ensures
            e@ == ErrorModel::InvalidData(message@),
    {
        HydroxylError::InvalidData(message.to_owned())
    }

    /// An error about text that does not parse as a number.
    pub fn invalid_number(input: &str) -> (e: HydroxylError)
        ensures
            e@ == ErrorModel::InvalidNumber(input@),
    {
        HydroxylError::InvalidNumber(input.to_owned())
    }

    /// An error about characters that do not parse as a number.
    pub fn invalid_number_chars(input: &Vec<char>) -> (e: HydroxylError)
        ensures
            e@ == ErrorModel::InvalidNumber(input@),
    {
        HydroxylError::InvalidNumber(crate::text::string_from_chars(input))
    }
}

} // verus!
