//! Classified request failures and the body sent back for them.
use vstd::prelude::*;
use crate::value::{decimal_chars, append_decimal};

verus! {

/// Status code and its short description.
pub struct ErrorType {
    pub code: u16,
    pub description: String,
}

/// What a failed request answers.
pub struct ErrorResponse {
    pub error_type: ErrorType,
    pub message: String,
}

#[derive(Debug)]
pub enum PluginError {
    UnknownColumn { message: String },
    UnsupportedAggregation { message: String },
    DatasetNotFound { message: String },
    InvalidRequest { message: String },
    InternalError { message: String },
}

impl PluginError {
    pub open spec fn status_spec(&self) -> u16 {
        match self {
            PluginError::UnknownColumn { .. } => 400,
            PluginError::UnsupportedAggregation { .. } => 400,
            PluginError::DatasetNotFound { .. } => 404,
            PluginError::InvalidRequest { .. } => 400,
            PluginError::InternalError { .. } => 500,
        }
    }

    pub open spec fn description_spec(&self) -> Seq<char> {
        match self {
            PluginError::UnknownColumn { .. } => "Unknown column"@,
            PluginError::UnsupportedAggregation { .. } => "Unsupported aggregation"@,
            PluginError::DatasetNotFound { .. } => "Unknown dataset"@,
            PluginError::InvalidRequest { .. } => "Invalid request"@,
            PluginError::InternalError { .. } => "Internal error"@,
        }
    }

    pub open spec fn message_spec(&self) -> Seq<char> {
        match self {
            PluginError::UnknownColumn { message } => message@,
            PluginError::UnsupportedAggregation { message } => message@,
            PluginError::DatasetNotFound { message } => message@,
            PluginError::InvalidRequest { message } => message@,
            PluginError::InternalError { message } => message@,
        }
    }

    /// The HTTP status that the failure maps to.
    pub fn status_code(&self) -> (r: u16)
        ensures
            r == self.status_spec(),
    {
        match self {
            PluginError::UnknownColumn { .. } => 400,
            PluginError::UnsupportedAggregation { .. } => 400,
            PluginError::DatasetNotFound { .. } => 404,
            PluginError::InvalidRequest { .. } => 400,
            PluginError::InternalError { .. } => 500,
        }
    }

    pub fn description(&self) -> (r: &'static str)
        ensures
            r@ == self.description_spec(),
    {
        match self {
            PluginError::UnknownColumn { .. } => "Unknown column",
            PluginError::UnsupportedAggregation { .. } => "Unsupported aggregation",
            PluginError::DatasetNotFound { .. } => "Unknown dataset",
            PluginError::InvalidRequest { .. } => "Invalid request",
            PluginError::InternalError { .. } => "Internal error",
        }
    }

    pub fn message(&self) -> (r: String)
        ensures
            r@ == self.message_spec(),
    {
        match self {
            PluginError::UnknownColumn { message } => message.clone(),
            PluginError::UnsupportedAggregation { message } => message.clone(),
            PluginError::DatasetNotFound { message } => message.clone(),
            PluginError::InvalidRequest { message } => message.clone(),
            PluginError::InternalError { message } => message.clone(),
        }
    }

    /// Human-readable form: `<description> (<status>): <message>`.
    pub fn to_text(&self) -> (r: String)
        ensures
            r@ == self.description_spec() + " ("@ + decimal_chars(self.status_spec() as nat) + "): "@
                + self.message_spec(),
    {
        let mut s = String::from_str(self.description());
        s.append(" (");
        append_decimal(&mut s, self.status_code() as u64);
        s.append("): ");
        let m = self.message();
        s.append(m.as_str());
        s
    }

    /// The body answered for this failure.
    pub fn error_response(&self) -> (r: ErrorResponse)
        ensures
            r.error_type.code == self.status_spec(),
            r.error_type.description@ == self.description_spec(),
            r.message@ == self.message_spec(),
    {
        ErrorResponse {
            error_type: ErrorType { code: self.status_code(), description: String::from_str(self.description()) },
            message: self.message(),
        }
    }
}

} // verus!
