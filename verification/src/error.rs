//! The error type shared by the library's operations.
use vstd::prelude::*;

verus! {

/// The ways an operation can fail, each with a description.
#[derive(Debug)]
pub enum AppError {
    PingError(String),
    DnsError(String),
    TracerouteError(String),
    BandwidthError(String),
    DatabaseError(String),
    IoError(String),
    InvalidTarget(String),
    Cancelled,
    Internal(String),
}

/// The text of an error: a fixed prefix for its kind followed by its description.
pub open spec fn error_message(e: AppError) -> Seq<char> {
    match e {
        AppError::PingError(s) => "Ping error: "@ + s@,
        AppError::DnsError(s) => "DNS resolution error: "@ + s@,
        AppError::TracerouteError(s) => "Traceroute error: "@ + s@,
        AppError::BandwidthError(s) => "Bandwidth test error: "@ + s@,
        AppError::DatabaseError(s) => "Database error: "@ + s@,
        AppError::IoError(s) => "IO error: "@ + s@,
        AppError::InvalidTarget(s) => "Invalid target: "@ + s@,
        AppError::Cancelled => "Operation cancelled"@,
        AppError::Internal(s) => "Internal error: "@ + s@,
    }
}

/// `prefix` followed by `detail`.
fn prefixed(prefix: &str, detail: &String) -> (r: String)
    ensures
        r@ == prefix@ + detail@,
{
    let mut r = String::from_str(prefix);
    r.append(detail.as_str());
    r
}

impl AppError {
    /// The text shown for this error.
    pub fn message(&self) -> (r: String)
        ensures
            r@ == error_message(*self),
    {
        match self {
            AppError::PingError(s) => prefixed("Ping error: ", s),
            AppError::DnsError(s) => prefixed("DNS resolution error: ", s),
            AppError::TracerouteError(s) => prefixed("Traceroute error: ", s),
            AppError::BandwidthError(s) => prefixed("Bandwidth test error: ", s),
            AppError::DatabaseError(s) => prefixed("Database error: ", s),
            AppError::IoError(s) => prefixed("IO error: ", s),
            AppError::InvalidTarget(s) => prefixed("Invalid target: ", s),
            AppError::Cancelled => String::from_str("Operation cancelled"),
            AppError::Internal(s) => prefixed("Internal error: ", s),
        }
    }
}

} // verus!
