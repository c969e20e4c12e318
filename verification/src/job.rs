//! The job template and the values that travel with it.

use vstd::prelude::*;

use crate::errors::Error;
use crate::retry::JobRetry;
use crate::schedule::JobSchedule;

verus! {

/// What a job replays: nothing, or an HTTP request to an absolute URL.
#[derive(Debug, Clone, PartialEq)]
pub enum JobProtocol {
    Null,
    Http(HttpMeta),
}

/// The HTTP method and absolute URL of an HTTP job.
#[derive(Debug, Clone, PartialEq)]
pub struct HttpMeta {
    pub method: String,
    pub url: String,
}

/// The protocol payload, retry policy, optional delay hint, and the outbound
/// timeout in milliseconds.
#[derive(Debug, Clone, PartialEq)]
pub struct JobMeta {
    pub protocol: JobProtocol,
    pub retry: JobRetry,
    pub delay: Option<u32>,
    pub timeout: u32,
}

/// When a job should run: now, after a delay, or at an instant.
#[derive(Debug, Clone, Copy, PartialEq, Eq, Structural)]
pub enum JobDelay {
    Null,
    Delay { delay: u32 },
    At { at: Option<i64> },
}

/// A row of the `jobs` table: the immutable request template.
#[derive(Debug, Clone)]
pub struct JobRow {
    pub id: i64,
    pub meta: JobMeta,
    pub headers: Option<Vec<(String, String)>>,
    pub body: Option<Vec<u8>>,
    pub schedule_id: Option<String>,
    pub external_id: Option<String>,
}

/// A leased unit of work: the job id and its current retry level.
#[derive(Debug, Clone, Copy, PartialEq, Eq, Structural)]
pub struct JobEntry {
    pub id: i64,
    pub retry: i32,
}

/// Everything a caller supplies to create a job.
#[derive(Debug, Clone)]
pub struct JobCreate {
    pub meta: JobMeta,
    pub headers: Option<Vec<(String, String)>>,
    pub body: Vec<u8>,
    pub at: Option<i64>,
    pub schedule: Option<JobSchedule>,
    pub until: Option<i64>,
    pub external_id: Option<String>,
}

/// What `create` answers: the job id and, for recurring jobs, the schedule id.
#[derive(Debug, Clone)]
pub struct JobCreateRow {
    pub id: i64,
    pub schedule_id: Option<String>,
    pub external_id: Option<String>,
}

/// What one outbound attempt sends: the plain pieces of the HTTP request a
/// worker replays for a job.
#[derive(Debug, Clone)]
pub struct RequestParts {
    pub method: String,
    pub url: String,
    pub headers: Vec<(String, String)>,
    pub body: Vec<u8>,
}

impl JobRow {
    /// Projects the template into the request a worker sends: method and URL
    /// from the meta, the stored headers, and the body (empty when none was
    /// stored). A job without an HTTP protocol cannot be replayed and is
    /// rejected as an invalid URL.
    pub fn into_request_parts(self) -> (r: Result<RequestParts, Error>)
        ensures
            match self.meta.protocol {
                JobProtocol::Null => r matches Err(e) && e is InvalidUrl,
                JobProtocol::Http(m) => r matches Ok(p) && {
                    &&& p.method == m.method
                    &&& p.url == m.url
                    &&& p.headers@ == match self.headers {
                        Some(h) => h@,
                        None => Seq::<(String, String)>::empty(),
                    }
                    &&& p.body@ == match self.body {
                        Some(b) => b@,
                        None => Seq::<u8>::empty(),
                    }
                },
            },
    {
        let m = match self.meta.protocol {
            JobProtocol::Null => {
                return Err(Error::InvalidUrl);
            },
            JobProtocol::Http(m) => m,
        };
        let headers = match self.headers {
            Some(h) => h,
            None => Vec::new(),
        };
        let body = match self.body {
            Some(b) => b,
            None => Vec::new(),
        };
        Ok(RequestParts { method: m.method, url: m.url, headers, body })
    }
}

} // verus!
