//! What can go wrong when a strategy is read or applied.

use crate::text::{decimal, push_decimal};
use vstd::prelude::*;
use vstd::string::StringExecFns;

verus! {

/// The error type of every fallible operation of this crate.
#[derive(Debug)]
pub enum Error {
    /// A token stands where the grammar wants one, but names nothing that is
    /// allowed there: an unknown protocol or field, a number too large. The
    /// token's text is attached.
    Parse(String),
    /// The text does not follow the strategy grammar. The message gives the
    /// offset of the first character that does not fit.
    Syntax(String),
    /// The packet lacks the header or the field that an action works on.
    Malformed,
}

/// The mathematical content of an [`Error`].
pub enum Fault {
    Parse(Seq<char>),
    Syntax(Seq<char>),
    Malformed,
}

impl View for Error {
    type V = Fault;

    open spec fn view(&self) -> Fault {
        match self {
            Error::Parse(text) => Fault::Parse(text@),
            Error::Syntax(message) => Fault::Syntax(message@),
            Error::Malformed => Fault::Malformed,
        }
    }
}

/// The message of a syntax error found at `offset`, counted in characters
/// from the start of the text.
pub open spec fn syntax_message(offset: nat) -> Seq<char> {
    "syntax error at offset "@ + decimal(offset)
}

impl Fault {
    /// The text that describes the fault to a reader.
    pub open spec fn message(self) -> Seq<char> {
        match self {
            Fault::Parse(text) => "parse error: \""@ + text + "\""@,
            Fault::Syntax(message) => message,
            Fault::Malformed => "malformed packet"@,
        }
    }
}

impl Clone for Error {
    fn clone(&self) -> (e: Error)
        ensures
            e@ == self@,
    {
        match self {
            Error::Parse(text) => Error::Parse(text.clone()),
            Error::Syntax(message) => Error::Syntax(message.clone()),
            Error::Malformed => Error::Malformed,
        }
    }
}

impl Error {
    /// The syntax error for a text that breaks the grammar at `offset`.
    pub fn syntax(offset: usize) -> (e: Error)
        ensures
            e@ == Fault::Syntax(syntax_message(offset as nat)),
    {
        let mut message = String::from_str("syntax error at offset ");
        push_decimal(&mut message, offset as u64);
        Error::Syntax(message)
    }

    /// The text that describes the error to a reader.
    pub fn to_string(&self) -> (text: String)
        ensures
            text@ == self@.message(),
    {
        match self {
            Error::Parse(token) => {
                let mut text = String::from_str("parse error: \"");
                text.append(token.as_str());
                text.append("\"");
                text
            },
            Error::Syntax(message) => message.clone(),
            Error::Malformed => String::from_str("malformed packet"),
        }
    }
}

} // verus!
