//! Error values carrying a descriptive message.

use vstd::prelude::*;

verus! {

/// A failure described by a message: malformed shape lines, geometry
/// errors such as an out-of-bounds fill seed.
#[derive(Debug)]
pub struct GenericError {
    pub message: String,
}

impl GenericError {
    pub fn new(message: String) -> (e: GenericError)
        ensures
            e.message == message,
    {
        GenericError { message }
    }

    /// The message this error was built with.
    pub fn message(&self) -> (m: &String)
        ensures
            m == &self.message,
    {
        &self.message
    }

    pub open spec fn spec_message(&self) -> Seq<char> {
        self.message@
    }
}

/// A failure while reading the input's leading shape count or its lines.
#[derive(Debug)]
pub struct ParseError {
    pub message: String,
}

impl ParseError {
    pub fn new(message: String) -> (e: ParseError)
        ensures
            e.message == message,
    {
        ParseError { message }
    }

    /// The message this error was built with.
    pub fn message(&self) -> (m: &String)
        ensures
            m == &self.message,
    {
        &self.message
    }

    pub open spec fn spec_message(&self) -> Seq<char> {
        self.message@
    }
}

} // verus!
