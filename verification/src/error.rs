//! The error that every fallible operation reports: a stable code and a
//! sentence for people.
use vstd::prelude::*;

verus! {

#[derive(Clone, Debug)]
pub struct AppError {
    pub code: &'static str,
    pub message: String,
}

/// What an error says.
pub struct ErrorView {
    pub code: Seq<char>,
    pub message: Seq<char>,
}

impl View for AppError {
    type V = ErrorView;

    open spec fn view(&self) -> ErrorView {
        ErrorView { code: self.code@, message: self.message@ }
    }
}

impl AppError {
    pub fn new(code: &'static str, message: String) -> (error: AppError)
        ensures
            error@ == (ErrorView { code: code@, message: message@ }),
    {
        AppError { code, message }
    }

    /// A mistake in the settings the program was started with.
    pub fn config(message: String) -> (error: AppError)
        ensures
            error@ == (ErrorView { code: "CONFIG_ERROR"@, message: message@ }),
    {
        AppError { code: "CONFIG_ERROR", message }
    }

    pub fn code(&self) -> (code: &str)
        ensures
            code@ == self@.code,
    {
        self.code
    }

    pub fn message(&self) -> (message: &str)
        ensures
            message@ == self@.message,
    {
        self.message.as_str()
    }
}

pub open spec fn error_view(code: &str, message: &str) -> ErrorView {
    ErrorView { code: code@, message: message@ }
}

/// An error whose message is fixed.
pub fn error(code: &'static str, message: &str) -> (e: AppError)
    ensures
        e@ == error_view(code, message),
{
    AppError { code, message: message.to_owned() }
}

/// A result that carries no value, by what its error says.
pub open spec fn unit_view(result: Result<(), AppError>) -> Result<(), ErrorView> {
    match result {
        Ok(_) => Ok(()),
        Err(e) => Err(e@),
    }
}

}
