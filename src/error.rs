//! The error taxonomy: configuration, transport and service failures, and
//! malformed rows of bulk source files.
use vstd::prelude::*;
use crate::text::{decimal, decimal_text};

verus! {

/// The kind of a failure.
#[derive(Debug, Clone, Copy, PartialEq, Eq, Structural)]
pub enum ErrorType {
    /// No usable endpoint or credentials were found.
    ConfigurationError,
    /// A request could not be completed, or a response could not be decoded.
    ClientError,
    /// The service answered with a failure status (the status code).
    ServerError(u16),
    /// A row of a bulk source file has more fields than its header (the row number).
    MalformedRowError(usize),
}

/// A failure, with a human-readable description.
#[derive(Debug)]
pub struct Error {
    pub subtype: ErrorType,
    pub description: String,
}

/// A failure envelope as the service sends it.
#[derive(Debug)]
pub struct RawError {
    pub error: RawErrorDetail,
    pub status: u16,
}

/// One level of a failure envelope: a type code, an optional reason, and
/// optionally more specific causes of the same shape.
#[derive(Debug)]
pub struct RawErrorDetail {
    pub type_code: String,
    pub reason: Option<String>,
    pub root_cause: Option<Vec<RawErrorDetail>>,
}

/// The detail whose reason is authoritative: the first root cause when there
/// is at least one, else the envelope's own detail.
pub open spec fn authoritative_detail(raw: RawError) -> RawErrorDetail {
    match raw.error.root_cause {
        Some(causes) => if causes@.len() > 0 {
            causes@[0]
        } else {
            raw.error
        },
        None => raw.error,
    }
}

/// The reason reported for a failure envelope: the authoritative detail's
/// reason, or the envelope's type code when that detail gives none.
pub open spec fn reason_of(raw: RawError) -> Seq<char> {
    match authoritative_detail(raw).reason {
        Some(r) => r@,
        None => raw.error.type_code@,
    }
}

/// The name of an error kind, with its number where it has one.
pub open spec fn kind_name(t: ErrorType) -> Seq<char> {
    match t {
        ErrorType::ConfigurationError => "ConfigurationError"@,
        ErrorType::ClientError => "ClientError"@,
        ErrorType::ServerError(s) => "ServerError("@ + decimal(s as nat) + ")"@,
        ErrorType::MalformedRowError(r) => "MalformedRowError("@ + decimal(r as nat) + ")"@,
    }
}

/// Whether an HTTP status code reports success (the 2xx range).
pub open spec fn is_success(status: u16) -> bool {
    200 <= status && status <= 299
}

/// Whether an HTTP status code reports success (the 2xx range).
pub fn is_success_status(status: u16) -> (r: bool)
    ensures
        r == is_success(status),
{
    200 <= status && status <= 299
}

impl ErrorType {
    /// The name of this kind, with its number where it has one.
    pub fn name(&self) -> (r: String)
        ensures
            r@ == kind_name(*self),
    {
        proof {
            reveal_strlit("ConfigurationError");
            reveal_strlit("ClientError");
            reveal_strlit("ServerError(");
            reveal_strlit("MalformedRowError(");
            reveal_strlit(")");
        }
        match self {
            ErrorType::ConfigurationError => String::from_str("ConfigurationError"),
            ErrorType::ClientError => String::from_str("ClientError"),
            ErrorType::ServerError(s) => {
                let mut r = String::from_str("ServerError(");
                let n = decimal_text(*s as u64);
                r.append(n.as_str());
                r.append(")");
                r
            },
            ErrorType::MalformedRowError(row) => {
                let mut r = String::from_str("MalformedRowError(");
                let n = decimal_text(*row as u64);
                r.append(n.as_str());
                r.append(")");
                r
            },
        }
    }
}

impl Error {
    /// An error of kind `subtype` described by `description`.
    pub fn new(subtype: ErrorType, description: String) -> (r: Error)
        ensures
            r.subtype == subtype,
            r.description@ == description@,
    {
        Error { subtype, description }
    }

    /// A transport failure, with the transport's description of it.
    pub fn from_client_error(description: String) -> (r: Error)
        ensures
            r.subtype == ErrorType::ClientError,
            r.description@ == description@,
    {
        Error { subtype: ErrorType::ClientError, description }
    }

    /// A service failure: its status, and the reason of the first root cause
    /// when the envelope lists any, else of the envelope itself; the type code
    /// stands in for a missing reason.
    pub fn from_server_error(raw_error: &RawError) -> (r: Error)
        ensures
            r.subtype == ErrorType::ServerError(raw_error.status),
            r.description@ == reason_of(*raw_error),
    {
        let detail: &RawErrorDetail = match &raw_error.error.root_cause {
            Some(causes) => if causes.len() > 0 {
                &causes[0]
            } else {
                &raw_error.error
            },
            None => &raw_error.error,
        };
        let description = match &detail.reason {
            Some(r) => r.clone(),
            None => raw_error.error.type_code.clone(),
        };
        Error { subtype: ErrorType::ServerError(raw_error.status), description }
    }

    /// The error for a completed call whose status reports failure: the
    /// service's failure when its envelope could be decoded, else a transport
    /// failure describing why decoding failed.
    pub fn from_failed_response(decoded: Result<RawError, String>) -> (r: Error)
        ensures
            match decoded {
                Ok(raw) => r.subtype == ErrorType::ServerError(raw.status) && r.description@ == reason_of(raw),
                Err(why) => r.subtype == ErrorType::ClientError && r.description@ == why@,
            },
    {
        match decoded {
            Ok(raw) => Error::from_server_error(&raw),
            Err(why) => Error::from_client_error(why),
        }
    }

    /// The error as text: its kind, a colon, and its description.
    pub fn describe(&self) -> (r: String)
        ensures
            r@ == kind_name(self.subtype) + ": "@ + self.description@,
    {
        proof {
            reveal_strlit(": ");
        }
        let mut r = self.subtype.name();
        r.append(": ");
        r.append(self.description.as_str());
        r
    }
}

impl RawError {
    /// The envelope as text: `Error: ` and its reason, or its type code when
    /// it gives no reason.
    pub fn describe(&self) -> (r: String)
        ensures
            r@ == "Error: "@ + match self.error.reason {
                Some(text) => text@,
                None => self.error.type_code@,
            },
    {
        let mut r = String::from_str("Error: ");
        match &self.error.reason {
            Some(text) => r.append(text.as_str()),
            None => r.append(self.error.type_code.as_str()),
        }
        r
    }
}

} // verus!
