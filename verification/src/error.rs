//! Why a command line was refused.
use vstd::prelude::*;

use crate::text::{decimal, push_decimal, push_text};

verus! {

/// The reasons a command line cannot be dispatched.
#[derive(Debug)]
pub enum AppEntryError {
    /// A positional (bare) method was given a word that starts with `-`.
    FlagInBareCall { method: &'static str },
    /// A `Vec<String>` argument of a bare method is not its last argument.
    VarargsNotLast,
    /// A bare method with a trailing `Vec<String>` argument got fewer words
    /// than it has arguments before that one.
    TooFewArguments { method: &'static str, expected: usize, got: usize },
    /// A bare method got a different number of words than it has arguments.
    WrongArgumentCount { method: &'static str, expected: usize, got: usize },
    /// The command named a method in the form (bare or flag) that the
    /// method does not use.
    InvalidCommandForm { name: String },
    /// No method was named and no default method exists.
    MissingCommand,
}

/// The text that reports `e`.
pub open spec fn error_message(e: AppEntryError) -> Seq<char> {
    match e {
        AppEntryError::FlagInBareCall { method } =>
            "bare method '"@ + method@ + "' does not accept flag arguments"@,
        AppEntryError::VarargsNotLast => "Vec<String> must be the last bare argument"@,
        AppEntryError::TooFewArguments { method, expected, got } =>
            "bare method '"@ + method@ + "' expects at least "@ + decimal(expected as nat)
                + " arguments, got "@ + decimal(got as nat),
        AppEntryError::WrongArgumentCount { method, expected, got } =>
            "bare method '"@ + method@ + "' expects "@ + decimal(expected as nat)
                + " arguments, got "@ + decimal(got as nat),
        AppEntryError::InvalidCommandForm { name } => "invalid command form: "@ + name@,
        AppEntryError::MissingCommand => "missing command"@,
    }
}

impl AppEntryError {
    /// The text that reports this error.
    pub fn message(&self) -> (r: String)
        ensures
            r@ == error_message(*self),
    {
        let mut s = String::new();
        match self {
            AppEntryError::FlagInBareCall { method } => {
                push_text(&mut s, "bare method '");
                push_text(&mut s, method);
                push_text(&mut s, "' does not accept flag arguments");
            },
            AppEntryError::VarargsNotLast => {
                push_text(&mut s, "Vec<String> must be the last bare argument");
            },
            AppEntryError::TooFewArguments { method, expected, got } => {
                push_text(&mut s, "bare method '");
                push_text(&mut s, method);
                push_text(&mut s, "' expects at least ");
                push_decimal(&mut s, *expected);
                push_text(&mut s, " arguments, got ");
                push_decimal(&mut s, *got);
            },
            AppEntryError::WrongArgumentCount { method, expected, got } => {
                push_text(&mut s, "bare method '");
                push_text(&mut s, method);
                push_text(&mut s, "' expects ");
                push_decimal(&mut s, *expected);
                push_text(&mut s, " arguments, got ");
                push_decimal(&mut s, *got);
            },
            AppEntryError::InvalidCommandForm { name } => {
                push_text(&mut s, "invalid command form: ");
                push_text(&mut s, name.as_str());
            },
            AppEntryError::MissingCommand => {
                push_text(&mut s, "missing command");
            },
        }
        s
    }
}

} // verus!
