//! App-wide error, serialized to the frontend as `{ code, message, detail? }`.

use crate::text::{chars_of, string_of};
use vstd::prelude::*;

verus! {

#[derive(Debug)]
pub enum AppError {
    /// An I/O failure; holds the error's message.
    Io(String),
    Runtime { message: String, detail: Option<String> },
    Internal(String),
}

/// `e` is a runtime error with this message and detail.
pub open spec fn is_runtime_error(e: AppError, message: Seq<char>, detail: Option<Seq<char>>) -> bool {
    match e {
        AppError::Runtime { message: m, detail: d } => m@ == message && match d {
            Some(x) => detail == Some(x@),
            None => detail is None,
        },
        _ => false,
    }
}

/// `e` is an internal error with this message.
pub open spec fn is_internal_error(e: AppError, message: Seq<char>) -> bool {
    match e {
        AppError::Internal(m) => m@ == message,
        _ => false,
    }
}

impl AppError {
    pub fn runtime(message: String, detail: Option<String>) -> (r: Self)
        ensures
            r == (AppError::Runtime { message, detail }),
    {
        AppError::Runtime { message, detail }
    }

    pub open spec fn spec_code(&self) -> Seq<char> {
        match self {
            AppError::Io(_) => "io"@,
            AppError::Runtime { .. } => "runtime"@,
            AppError::Internal(_) => "internal"@,
        }
    }

    /// The error's category as reported to the frontend.
    pub fn code(&self) -> (r: &'static str)
        ensures
            r@ == self.spec_code(),
    {
        match self {
            AppError::Io(_) => "io",
            AppError::Runtime { .. } => "runtime",
            AppError::Internal(_) => "internal",
        }
    }

    pub open spec fn spec_message(&self) -> Seq<char> {
        match self {
            AppError::Io(m) => m@,
            AppError::Runtime { message, .. } => message@,
            AppError::Internal(m) => m@,
        }
    }

    /// The error's display text.
    pub fn message(&self) -> (r: String)
        ensures
            r@ == self.spec_message(),
    {
        match self {
            AppError::Io(m) => string_of(chars_of(m.as_str()).as_slice()),
            AppError::Runtime { message, .. } => string_of(chars_of(message.as_str()).as_slice()),
            AppError::Internal(m) => string_of(chars_of(m.as_str()).as_slice()),
        }
    }

    /// The optional detail line (runtime errors only).
    pub fn detail(&self) -> (r: Option<String>)
        ensures
            match self {
                AppError::Runtime { detail, .. } => match detail {
                    Some(d) => r is Some && r->0@ == d@,
                    None => r is None,
                },
                _ => r is None,
            },
    {
        match self {
            AppError::Runtime { detail: Some(d), .. } => Some(string_of(chars_of(d.as_str()).as_slice())),
            _ => None,
        }
    }
}

} // verus!
