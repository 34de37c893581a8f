//! The error type every stage of query processing returns.

use vstd::prelude::*;
use crate::text::{decimal, push_decimal, push_text};

verus! {

/// What went wrong, by kind.
#[derive(Debug, Clone, Copy, PartialEq, Eq, Structural)]
pub enum ErrorType {
    /// A table, column or function name is unknown, or a column name is
    /// ambiguous.
    Lookup,
    /// The query is well formed but cannot be evaluated.
    Runtime,
    /// A file could not be read or written.
    IO,
    /// The token stream does not match the grammar.
    Syntax,
    /// An operator met columns of types it does not accept.
    Type,
}

/// An error with its kind and a free-form message.
#[derive(Debug, Clone)]
pub struct SqlError {
    pub type_: ErrorType,
    pub message: String,
}

pub type SqlResult<T> = Result<T, SqlError>;

/// The name under which an error kind is printed.
pub open spec fn kind_name(kind: ErrorType) -> Seq<char> {
    match kind {
        ErrorType::Lookup => "Lookup"@,
        ErrorType::Runtime => "Runtime"@,
        ErrorType::IO => "IO"@,
        ErrorType::Syntax => "Syntax"@,
        ErrorType::Type => "Type"@,
    }
}

impl SqlError {
    pub fn new(message: &str, error_type: ErrorType) -> (e: Self)
        ensures
            e.type_ == error_type,
            e.message@ == message@,
    {
        let mut text = String::new();
        push_text(&mut text, message);
        SqlError { type_: error_type, message: text }
    }

    /// A function was called with the wrong number of arguments.
    pub fn args_length_error(
        num_args_expected: usize,
        num_args_received: usize,
        function_name: &str,
    ) -> (e: Self)
        ensures
            e.type_ == ErrorType::Runtime,
            e.message@ == function_name@ + " expects "@ + decimal(num_args_expected as nat)
                + " argument(s) but received "@ + decimal(num_args_received as nat)
                + " argument(s)"@,
    {
        let mut message = String::new();
        push_text(&mut message, function_name);
        push_text(&mut message, " expects ");
        push_decimal(&mut message, num_args_expected as u64);
        push_text(&mut message, " argument(s) but received ");
        push_decimal(&mut message, num_args_received as u64);
        push_text(&mut message, " argument(s)");
        SqlError { type_: ErrorType::Runtime, message }
    }

    /// `key` is missing from `store`.
    pub fn look_up_error(key: &str, store: &str) -> (e: Self)
        ensures
            e.type_ == ErrorType::Lookup,
            e.message@ == key@ + " not found in "@ + store@,
    {
        let mut message = String::new();
        push_text(&mut message, key);
        push_text(&mut message, " not found in ");
        push_text(&mut message, store);
        SqlError { type_: ErrorType::Lookup, message }
    }

    pub fn io_error(message: &str) -> (e: Self)
        ensures
            e.type_ == ErrorType::IO,
            e.message@ == message@,
    {
        Self::new(message, ErrorType::IO)
    }

    /// The kind of this error.
    pub fn kind(&self) -> (k: ErrorType)
        ensures
            k == self.type_,
    {
        self.type_
    }

    /// The line shown to the user: the kind, the word `Error`, the message.
    pub fn to_string(&self) -> (s: String)
        ensures
            s@ == kind_name(self.type_) + " Error: "@ + self.message@,
    {
        let mut s = String::new();
        match self.type_ {
            ErrorType::Lookup => push_text(&mut s, "Lookup"),
            ErrorType::Runtime => push_text(&mut s, "Runtime"),
            ErrorType::IO => push_text(&mut s, "IO"),
            ErrorType::Syntax => push_text(&mut s, "Syntax"),
            ErrorType::Type => push_text(&mut s, "Type"),
        }
        push_text(&mut s, " Error: ");
        push_text(&mut s, self.message.as_str());
        s
    }
}

} // verus!
