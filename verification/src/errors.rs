use vstd::prelude::*;

use crate::strutil::concat_str_string;

verus! {

/// The error taxonomy of the scripting pipeline.  Lexing and parsing report
/// syntax-level failures; indexing and evaluation report semantic ones.  Every
/// fallible operation of the library returns one of these; nothing panics.
#[derive(Debug, Clone)]
pub enum ScriptingError {
    InvalidSyntax(String),
    InvalidToken(String),
    ParsingError(String),
    UnexpectedToken(String),
    EvaluationError(String),
}

/// The rendered form of an error: a fixed prefix naming the stage, followed by
/// the detail carried in the variant.  `UnexpectedToken` renders without its
/// detail.
pub open spec fn spec_message(e: ScriptingError) -> Seq<char> {
    match e {
        ScriptingError::InvalidSyntax(s) => "Invalid Syntax: "@ + s@,
        ScriptingError::InvalidToken(s) => "Invalid Token: "@ + s@,
        ScriptingError::ParsingError(s) => "Error while parsing: "@ + s@,
        ScriptingError::UnexpectedToken(_) => "Unexpected token"@,
        ScriptingError::EvaluationError(s) => "Error while evaluating: "@ + s@,
    }
}

impl ScriptingError {
    /// One user-readable line for this error.
    pub fn message(&self) -> (m: String)
        ensures
            m@ == spec_message(*self),
    {
        match self {
            ScriptingError::InvalidSyntax(s) => concat_str_string("Invalid Syntax: ", s),
            ScriptingError::InvalidToken(s) => concat_str_string("Invalid Token: ", s),
            ScriptingError::ParsingError(s) => concat_str_string("Error while parsing: ", s),
            ScriptingError::UnexpectedToken(_) => "Unexpected token".to_owned(),
            ScriptingError::EvaluationError(s) => concat_str_string("Error while evaluating: ", s),
        }
    }
}

pub type ScriptingResult<T> = Result<T, ScriptingError>;

/// The mathematical shadow of [`ScriptingError`]: the same variants with the
/// detail as a character sequence.  Contracts speak of this form.
pub ghost enum ErrorV {
    InvalidSyntax(Seq<char>),
    InvalidToken(Seq<char>),
    ParsingError(Seq<char>),
    UnexpectedToken(Seq<char>),
    EvaluationError(Seq<char>),
}

impl View for ScriptingError {
    type V = ErrorV;

    open spec fn view(&self) -> ErrorV {
        match self {
            ScriptingError::InvalidSyntax(s) => ErrorV::InvalidSyntax(s@),
            ScriptingError::InvalidToken(s) => ErrorV::InvalidToken(s@),
            ScriptingError::ParsingError(s) => ErrorV::ParsingError(s@),
            ScriptingError::UnexpectedToken(s) => ErrorV::UnexpectedToken(s@),
            ScriptingError::EvaluationError(s) => ErrorV::EvaluationError(s@),
        }
    }
}

} // verus!
