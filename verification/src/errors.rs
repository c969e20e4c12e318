//! The error kinds the core surfaces, and their rendering as text.

use vstd::prelude::*;

use crate::result::JobResult;

verus! {

/// Everything that can go wrong while creating, scheduling or running a job.
/// `ServerError` and `ClientError` carry the HTTP result that caused them so
/// the retry path can persist it on exhaustion.
#[derive(Debug, Clone)]
pub enum Error {
    JobNotFound(i64),
    Timeout,
    DbError,
    IoError,
    HttpBuildError,
    HttpTransportError,
    InvalidUrl,
    InvalidParams(&'static str),
    ServerError(JobResult),
    ClientError(JobResult),
    RetriesExceeded,
}

impl Error {
    /// The short text for this error, used when a failed outcome is persisted.
    pub open spec fn spec_message(&self) -> Seq<char> {
        match self {
            Error::JobNotFound(_) => "job not found"@,
            Error::Timeout => "timeout"@,
            Error::DbError => "database error"@,
            Error::IoError => "io error"@,
            Error::HttpBuildError => "http build error"@,
            Error::HttpTransportError => "http transport error"@,
            Error::InvalidUrl => "invalid url"@,
            Error::InvalidParams(name) => "invalid params - "@ + name@,
            Error::ServerError(_) => "server error"@,
            Error::ClientError(_) => "client error"@,
            Error::RetriesExceeded => "retries exceeded"@,
        }
    }

    pub fn message(&self) -> (r: String)
        ensures
            r@ == self.spec_message(),
    {
        match self {
            Error::JobNotFound(_) => "job not found".to_owned(),
            Error::Timeout => "timeout".to_owned(),
            Error::DbError => "database error".to_owned(),
            Error::IoError => "io error".to_owned(),
            Error::HttpBuildError => "http build error".to_owned(),
            Error::HttpTransportError => "http transport error".to_owned(),
            Error::InvalidUrl => "invalid url".to_owned(),
            Error::InvalidParams(name) => "invalid params - ".to_owned().concat(name),
            Error::ServerError(_) => "server error".to_owned(),
            Error::ClientError(_) => "client error".to_owned(),
            Error::RetriesExceeded => "retries exceeded".to_owned(),
        }
    }

    /// The outcomes the runner retries: timeouts, transport failures and
    /// upstream 4xx/5xx answers; everything else is terminal at once.
    pub open spec fn spec_is_retryable(&self) -> bool {
        match self {
            Error::HttpTransportError => true,
            Error::Timeout => true,
            Error::ServerError(_) => true,
            Error::ClientError(_) => true,
            _ => false,
        }
    }

    pub fn is_retryable(&self) -> (r: bool)
        ensures
            r == self.spec_is_retryable(),
    {
        match self {
            Error::HttpTransportError => true,
            Error::Timeout => true,
            Error::ServerError(_) => true,
            Error::ClientError(_) => true,
            _ => false,
        }
    }
}

} // verus!
