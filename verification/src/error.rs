//! The library's error type. Every variant carries plain values, so the
//! message a failure reports is a function of the variant alone.

use vstd::prelude::*;

use crate::text::{chars_of, push_all, push_str, spec_decimal, decimal_u64, string_of};

verus! {

#[derive(Debug, Clone)]
pub enum Error {
    Audio(String),
    Storage(String),
    Io(String),
    /// A transport failure; `transient` holds whether it was a timeout, a
    /// connection failure or a request-building failure (the retryable kinds).
    Http { message: String, transient: bool },
    Api { provider: String, status: u16, message: String },
    Config(String),
    InvalidState(String),
    NotFound(String),
    Other(String),
}

pub type Result<T> = std::result::Result<T, Error>;

impl Error {
    /// The text a failure reports.
    pub open spec fn spec_message(&self) -> Seq<char> {
        match self {
            Error::Audio(m) => "audio device error: "@ + m@,
            Error::Storage(m) => "storage error: "@ + m@,
            Error::Io(m) => "io error: "@ + m@,
            Error::Http { message, .. } => "http error: "@ + message@,
            Error::Api { provider, status, message } => provider@ + " API error ("@
                + spec_decimal(*status as nat) + "): "@ + message@,
            Error::Config(m) => "config error: "@ + m@,
            Error::InvalidState(m) => "invalid state: "@ + m@,
            Error::NotFound(m) => "not found: "@ + m@,
            Error::Other(m) => m@,
        }
    }

    pub fn message(&self) -> (s: String)
        ensures
            s@ == self.spec_message(),
    {
        let mut out: Vec<char> = Vec::new();
        match self {
            Error::Audio(m) => {
                push_str(&mut out, "audio device error: ");
                push_str(&mut out, m.as_str());
            },
            Error::Storage(m) => {
                push_str(&mut out, "storage error: ");
                push_str(&mut out, m.as_str());
            },
            Error::Io(m) => {
                push_str(&mut out, "io error: ");
                push_str(&mut out, m.as_str());
            },
            Error::Http { message, .. } => {
                push_str(&mut out, "http error: ");
                push_str(&mut out, message.as_str());
            },
            Error::Api { provider, status, message } => {
                push_str(&mut out, provider.as_str());
                push_str(&mut out, " API error (");
                let d = decimal_u64(*status as u64);
                push_all(&mut out, d.as_slice());
                push_str(&mut out, "): ");
                push_str(&mut out, message.as_str());
            },
            Error::Config(m) => {
                push_str(&mut out, "config error: ");
                push_str(&mut out, m.as_str());
            },
            Error::InvalidState(m) => {
                push_str(&mut out, "invalid state: ");
                push_str(&mut out, m.as_str());
            },
            Error::NotFound(m) => {
                push_str(&mut out, "not found: ");
                push_str(&mut out, m.as_str());
            },
            Error::Other(m) => {
                push_str(&mut out, m.as_str());
            },
        }
        string_of(out.as_slice())
    }
}

} // verus!
