use vstd::prelude::*;
use vstd::string::StringExecFns;

verus! {

/// The kinds of failure the planner reports.
#[derive(PartialEq, Eq, Structural, Clone, Copy, Debug)]
pub enum AppErrorType {
    NotFoundError,
    ReqwestError,
    InvalidTimeFormat,
    InvalidRequestParameter,
}

/// A failure, with an optional user-facing message and an optional internal cause.
#[derive(Debug)]
pub struct AppError {
    pub message: Option<String>,
    pub cause: Option<String>,
    pub error_type: AppErrorType,
}

/// The message shown to a user for an error.
pub open spec fn message_text(e: AppError) -> Seq<char> {
    match e.message {
        Some(m) => m@,
        None => if e.error_type == AppErrorType::NotFoundError {
            "The requested item was not found"@
        } else {
            "An unexpected error has occurred"@
        },
    }
}

/// The HTTP status that signals an error kind.
pub open spec fn status_of(t: AppErrorType) -> u16 {
    match t {
        AppErrorType::NotFoundError => 404,
        AppErrorType::ReqwestError => 500,
        AppErrorType::InvalidTimeFormat => 500,
        AppErrorType::InvalidRequestParameter => 400,
    }
}

impl AppError {
    pub fn message(&self) -> (r: String)
        ensures
            r@ == message_text(*self),
    {
        match &self.message {
            Some(message) => message.clone(),
            None => match self.error_type {
                AppErrorType::NotFoundError => String::from_str("The requested item was not found"),
                _ => String::from_str("An unexpected error has occurred"),
            },
        }
    }

    pub fn status_code(&self) -> (r: u16)
        ensures
            r == status_of(self.error_type),
    {
        match self.error_type {
            AppErrorType::NotFoundError => 404,
            AppErrorType::ReqwestError => 500,
            AppErrorType::InvalidTimeFormat => 500,
            AppErrorType::InvalidRequestParameter => 400,
        }
    }

    /// The error for a station or line code that names nothing.
    pub fn unknown_code() -> (r: AppError)
        ensures
            r.error_type == AppErrorType::NotFoundError,
            r.message.is_some(),
            r.message.unwrap()@ == "The requested item was not found"@,
            r.cause.is_some(),
            r.cause.unwrap()@ == "Matching variant not found"@,
    {
        AppError {
            message: Some(String::from_str("The requested item was not found")),
            cause: Some(String::from_str("Matching variant not found")),
            error_type: AppErrorType::NotFoundError,
        }
    }

    /// The error for text that is not a time of day.
    pub fn invalid_time() -> (r: AppError)
        ensures
            r.error_type == AppErrorType::InvalidTimeFormat,
            r.cause.is_none(),
            r.message.is_some(),
            r.message.unwrap()@ == "Invalid time format"@,
    {
        AppError {
            message: Some(String::from_str("Invalid time format")),
            cause: None,
            error_type: AppErrorType::InvalidTimeFormat,
        }
    }
}

impl AppError {
    /// The error for route planning asked with the same origin and destination.
    pub fn same_stations() -> (r: AppError)
        ensures
            r.error_type == AppErrorType::InvalidRequestParameter,
            r.cause.is_none(),
            r.message.is_some(),
            r.message.unwrap()@ == "Station from and station cannot be the same"@,
    {
        AppError {
            message: Some(String::from_str("Station from and station cannot be the same")),
            cause: None,
            error_type: AppErrorType::InvalidRequestParameter,
        }
    }
}

} // verus!
