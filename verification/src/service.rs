//! What a parse yields: a typed command value, or one error.

use vstd::prelude::*;
use crate::arguments::{
    FromArgumentError,
    FromArgumentErrorModel,
    Value,
    ValueModel,
    optional_value_view,
};

verus! {

/// Why a command line was not accepted. Names and values borrow from the
/// schema and from the input.
#[allow(inconsistent_fields)]
#[derive(Clone, Copy, Debug, PartialEq, Eq)]
pub enum ParseError<'a> {
    /// A value did not convert to the type of its field. The conversion's own
    /// error is carried as it came.
    ConversionFailure(FromArgumentError<'a>),
    /// A required field was left without a value and has no default.
    MissingRequiredArgument { name: &'a str },
    /// A value arrived where none was expected.
    UnexpectedArgument { value: &'a str },
    /// A long option name that no descriptor answers to.
    UnexpectedLongOption { name: &'a str },
    /// A short option name that no descriptor answers to.
    UnexpectedShortOption { name: char },
    /// The dispatch name is not the name of any command of the namespace.
    UnknownCommand,
}

/// The mathematical model of a [`ParseError`].
#[allow(inconsistent_fields)]
pub enum ParseErrorModel {
    ConversionFailure(FromArgumentErrorModel),
    MissingRequiredArgument { name: Seq<char> },
    UnexpectedArgument { value: Seq<char> },
    UnexpectedLongOption { name: Seq<char> },
    UnexpectedShortOption { name: char },
    UnknownCommand,
}

impl<'a> View for ParseError<'a> {
    type V = ParseErrorModel;

    open spec fn view(&self) -> ParseErrorModel {
        match *self {
            ParseError::ConversionFailure(e) => ParseErrorModel::ConversionFailure(e@),
            ParseError::MissingRequiredArgument { name } => ParseErrorModel::MissingRequiredArgument {
                name: name@,
            },
            ParseError::UnexpectedArgument { value } => ParseErrorModel::UnexpectedArgument {
                value: value@,
            },
            ParseError::UnexpectedLongOption { name } => ParseErrorModel::UnexpectedLongOption {
                name: name@,
            },
            ParseError::UnexpectedShortOption { name } => ParseErrorModel::UnexpectedShortOption {
                name,
            },
            ParseError::UnknownCommand => ParseErrorModel::UnknownCommand,
        }
    }
}

/// A parsed command: which command of its namespace it is, one value for each
/// argument descriptor in the order of declaration, and the parsed
/// subcommand if one was given.
#[derive(Debug, PartialEq, Eq)]
pub struct Parsed<'a> {
    /// The index of the command's schema in its namespace.
    pub command: usize,
    /// The field values; `None` for an optional field that was not given.
    pub fields: Vec<Option<Value<'a>>>,
    /// The subcommand that followed, parsed against the nested namespace.
    pub subcommand: Option<Box<Parsed<'a>>>,
}

/// The mathematical model of a [`Parsed`].
pub struct ParsedModel {
    pub command: int,
    pub fields: Seq<Option<ValueModel>>,
    pub subcommand: Option<Box<ParsedModel>>,
}

/// The models of a sequence of field values, in order.
pub open spec fn fields_view(fields: Seq<Option<Value<'_>>>) -> Seq<Option<ValueModel>> {
    fields.map_values(|v: Option<Value>| optional_value_view(v))
}

/// The model of a parsed command, subcommands included.
pub open spec fn parsed_view(parsed: Parsed<'_>) -> ParsedModel
    decreases parsed,
{
    ParsedModel {
        command: parsed.command as int,
        fields: fields_view(parsed.fields@),
        subcommand: match parsed.subcommand {
            None => None,
            Some(sub) => Some(Box::new(parsed_view(*sub))),
        },
    }
}

impl<'a> View for Parsed<'a> {
    type V = ParsedModel;

    open spec fn view(&self) -> ParsedModel {
        parsed_view(*self)
    }
}

/// The model of the outcome of a parse.
pub open spec fn outcome_view(r: Result<Parsed<'_>, ParseError<'_>>) -> Result<
    ParsedModel,
    ParseErrorModel,
> {
    match r {
        Ok(parsed) => Ok(parsed@),
        Err(e) => Err(e@),
    }
}

} // verus!
