//! Errors of the service.

use vstd::prelude::*;
use crate::text::owned;

verus! {

broadcast use vstd::string::group_string_axioms;

/// What went wrong, with a message.
#[derive(Debug, Clone)]
pub enum NuClawError {
    Database { message: String },
    Container { message: String },
    WhatsApp { message: String },
    Telegram { message: String },
    Config { message: String },
    FileSystem { message: String },
    Validation { message: String },
    Timeout { operation: String },
    Auth { message: String },
    Scheduler { message: String },
}

impl NuClawError {
    /// The label that starts the text of the error.
    pub open spec fn label(&self) -> Seq<char> {
        match self {
            NuClawError::Database { .. } => "Database error: "@,
            NuClawError::Container { .. } => "Container error: "@,
            NuClawError::WhatsApp { .. } => "WhatsApp error: "@,
            NuClawError::Telegram { .. } => "Telegram error: "@,
            NuClawError::Config { .. } => "Configuration error: "@,
            NuClawError::FileSystem { .. } => "File system error: "@,
            NuClawError::Validation { .. } => "Validation error: "@,
            NuClawError::Timeout { .. } => "Timeout error: "@,
            NuClawError::Auth { .. } => "Authentication error: "@,
            NuClawError::Scheduler { .. } => "Scheduler error: "@,
        }
    }

    /// The detail carried by the error.
    pub open spec fn detail(&self) -> Seq<char> {
        match self {
            NuClawError::Database { message } => message@,
            NuClawError::Container { message } => message@,
            NuClawError::WhatsApp { message } => message@,
            NuClawError::Telegram { message } => message@,
            NuClawError::Config { message } => message@,
            NuClawError::FileSystem { message } => message@,
            NuClawError::Validation { message } => message@,
            NuClawError::Timeout { operation } => operation@,
            NuClawError::Auth { message } => message@,
            NuClawError::Scheduler { message } => message@,
        }
    }

    /// The text of the error: its label, then its detail.
    pub fn to_string(&self) -> (r: String)
        ensures
            r@ == self.label() + self.detail(),
    {
        let (mut r, d) = match self {
            NuClawError::Database { message } => (owned("Database error: "), message),
            NuClawError::Container { message } => (owned("Container error: "), message),
            NuClawError::WhatsApp { message } => (owned("WhatsApp error: "), message),
            NuClawError::Telegram { message } => (owned("Telegram error: "), message),
            NuClawError::Config { message } => (owned("Configuration error: "), message),
            NuClawError::FileSystem { message } => (owned("File system error: "), message),
            NuClawError::Validation { message } => (owned("Validation error: "), message),
            NuClawError::Timeout { operation } => (owned("Timeout error: "), operation),
            NuClawError::Auth { message } => (owned("Authentication error: "), message),
            NuClawError::Scheduler { message } => (owned("Scheduler error: "), message),
        };
        r.append(d.as_str());
        r
    }
}

} // verus!
