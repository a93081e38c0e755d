//! The errors that a run can end with.
use vstd::prelude::*;
use vstd::string::*;
use crate::decimal::{decimal, decimal_string};
use crate::text::{contains_text, occurs_at};

verus! {

/// Why a command could not be carried out.
#[derive(Clone, Debug, PartialEq, Eq)]
pub enum Error {
    /// The text is neither the name of an input source nor a code.
    InvalidInputSource(String),
    /// No monitor matched the lookup text.
    NoMatch(String),
    /// A monitor index past the end of the monitor list.
    IndexOutOfRange { index: usize, len: usize },
    /// A read or a write of a monitor failed, with the device's own text.
    Device(String),
}

/// The text that describes an error.
pub open spec fn error_message(e: Error) -> Seq<char> {
    match e {
        Error::InvalidInputSource(s) => "\""@ + s@ + "\" is not a valid input source"@,
        Error::NoMatch(s) => "No display monitors found for \""@ + s@ + "\"."@,
        Error::IndexOutOfRange { index, len } => "index out of bounds: the len is "@ + decimal(
            len as nat,
        ) + " but the index is "@ + decimal(index as nat),
        Error::Device(s) => s@,
    }
}

impl Error {
    /// The text that describes this error.
    pub fn message(&self) -> (r: String)
        ensures
            r@ == error_message(*self),
    {
        match self {
            Error::InvalidInputSource(s) => {
                let r = String::from_str("\"").concat(s.as_str()).concat(
                    "\" is not a valid input source",
                );
                r
            },
            Error::NoMatch(s) => {
                let r = String::from_str("No display monitors found for \"").concat(
                    s.as_str(),
                ).concat("\".");
                r
            },
            Error::IndexOutOfRange { index, len } => {
                let l = decimal_string(*len);
                let i = decimal_string(*index);
                let r = String::from_str("index out of bounds: the len is ").concat(
                    l.as_str(),
                ).concat(" but the index is ").concat(i.as_str());
                r
            },
            Error::Device(s) => s.clone(),
        }
    }
}

/// The text of an error about a piece of text (one that is no input
/// source, or one that selects no monitor) holds that piece of text.
pub proof fn lemma_message_holds_text(e: Error)
    ensures
        e matches Error::InvalidInputSource(s) ==> contains_text(error_message(e), s@),
        e matches Error::NoMatch(s) ==> contains_text(error_message(e), s@),
{
    match e {
        Error::InvalidInputSource(s) => {
            let m = error_message(e);
            let k = "\""@.len() as int;
            assert(m.subrange(k, k + s@.len()) =~= s@);
            assert(occurs_at(m, s@, k));
        },
        Error::NoMatch(s) => {
            let m = error_message(e);
            let k = "No display monitors found for \""@.len() as int;
            assert(m.subrange(k, k + s@.len()) =~= s@);
            assert(occurs_at(m, s@, k));
        },
        _ => {},
    }
}

} // verus!
