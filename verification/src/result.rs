//! The typed outcome of a job run and its mapping to a terminal status.

use vstd::prelude::*;

use crate::errors::Error;

verus! {

/// The HTTP protocol version of an upstream response, as a plain tag.
#[derive(Debug, Clone, Copy, PartialEq, Eq, Structural)]
pub enum HttpVersion {
    Http09,
    Http10,
    Http11,
    H2,
    H3,
}

/// Status line facts of an upstream HTTP response.
#[derive(Debug, Clone, Copy, PartialEq, Eq, Structural)]
pub struct HttpResponseMeta {
    pub status_code: u16,
    pub version: HttpVersion,
}

/// The outcome kind of one run.
#[derive(Debug, Clone, PartialEq)]
pub enum JobResultType {
    Null,
    Cancelled,
    Timeout,
    Error { error: String },
    Http(HttpResponseMeta),
}

/// The persisted `processed.meta` payload.
#[derive(Debug, Clone, PartialEq)]
pub struct JobResultMeta {
    pub result: JobResultType,
}

/// A full job outcome: the typed result plus the response headers and body.
#[derive(Debug, Clone)]
pub struct JobResult {
    pub meta: JobResultMeta,
    pub headers: Option<Vec<(String, String)>>,
    pub body: Vec<u8>,
}

/// How a failed run's error renders as a persistable result: timeouts keep
/// their kind, upstream HTTP errors keep their full response, and everything
/// else becomes an error message.
pub open spec fn from_error_spec(value: Error, r: JobResult) -> bool {
    match value {
        Error::Timeout => r.meta.result is Timeout && r.headers is None && r.body@.len() == 0,
        Error::ClientError(res) => r == res,
        Error::ServerError(res) => r == res,
        _ => {
            &&& r.meta.result matches JobResultType::Error { error } && error@
                == value.spec_message()
            &&& r.headers is None
            &&& r.body@.len() == 0
        },
    }
}

/// A stored terminal record as handed back to a caller: the result payload
/// of one processed row.
#[derive(Debug, Clone)]
pub struct JobResultRow {
    pub id: i64,
    pub meta: JobResultMeta,
    pub headers: Option<Vec<(String, String)>>,
    pub body: Option<Vec<u8>>,
}

/// A header whose name begins with `content`.
pub open spec fn is_content_name(n: Seq<char>) -> bool {
    n.len() >= 7 && n.subrange(0, 7) == "content"@
}

/// The `content-*` headers of a header list, in order.
pub open spec fn content_headers(h: Seq<(String, String)>) -> Seq<(String, String)>
    decreases h.len(),
{
    if h.len() == 0 {
        Seq::empty()
    } else {
        let rest = content_headers(h.drop_last());
        if is_content_name(h.last().0@) {
            rest.push(h.last())
        } else {
            rest
        }
    }
}

/// Terminal status stored in the `processed` table.
#[derive(Debug, Clone, Copy, PartialEq, Eq, Structural)]
pub enum ProcessedStatus {
    Completed,
    Failed,
    Cancelled,
}

impl JobResult {
    /// The empty outcome: jobs without a protocol complete with it.
    pub fn empty() -> (r: JobResult)
        ensures
            r.meta.result is Null,
            r.headers is None,
            r.body@ =~= Seq::<u8>::empty(),
    {
        JobResult { meta: JobResultMeta { result: JobResultType::Null }, headers: None, body: Vec::new() }
    }

    /// Packs an upstream HTTP response into a result.
    pub fn http(
        status_code: u16,
        version: HttpVersion,
        headers: Option<Vec<(String, String)>>,
        body: Vec<u8>,
    ) -> (r: JobResult)
        ensures
            r.meta.result == JobResultType::Http(HttpResponseMeta { status_code, version }),
            r.headers == headers,
            r.body == body,
    {
        JobResult {
            meta: JobResultMeta {
                result: JobResultType::Http(HttpResponseMeta { status_code, version }),
            },
            headers,
            body,
        }
    }

    fn with_type(result: JobResultType) -> (r: JobResult)
        ensures
            r.meta.result == result,
            r.headers is None,
            r.body@ =~= Seq::<u8>::empty(),
    {
        JobResult { meta: JobResultMeta { result }, headers: None, body: Vec::new() }
    }

    /// What a failed run persists: timeouts keep their kind, upstream HTTP
    /// errors keep their full response, and everything else becomes an error
    /// message.
    pub fn from_error(value: Error) -> (r: JobResult)
        ensures
            from_error_spec(value, r),
    {
        match value {
            Error::Timeout => JobResult::with_type(JobResultType::Timeout),
            Error::ClientError(res) => res,
            Error::ServerError(res) => res,
            _ => {
                let error = value.message();
                JobResult::with_type(JobResultType::Error { error })
            },
        }
    }

    /// The terminal status this outcome persists under.
    pub open spec fn spec_status(&self) -> ProcessedStatus {
        match self.meta.result {
            JobResultType::Timeout => ProcessedStatus::Failed,
            JobResultType::Error { .. } => ProcessedStatus::Failed,
            JobResultType::Cancelled => ProcessedStatus::Cancelled,
            JobResultType::Http(meta) => if 400 <= meta.status_code < 600 {
                ProcessedStatus::Failed
            } else {
                ProcessedStatus::Completed
            },
            JobResultType::Null => ProcessedStatus::Completed,
        }
    }

    pub fn status(&self) -> (r: ProcessedStatus)
        ensures
            r == self.spec_status(),
    {
        match &self.meta.result {
            JobResultType::Timeout => ProcessedStatus::Failed,
            JobResultType::Error { .. } => ProcessedStatus::Failed,
            JobResultType::Cancelled => ProcessedStatus::Cancelled,
            JobResultType::Http(meta) => {
                if 400 <= meta.status_code && meta.status_code < 600 {
                    ProcessedStatus::Failed
                } else {
                    ProcessedStatus::Completed
                }
            },
            JobResultType::Null => ProcessedStatus::Completed,
        }
    }
}

impl JobResult {
    /// How a stored result renders to a caller: an `Http` outcome replays its
    /// status code and body, with only the headers whose name begins with
    /// `content`; every other outcome renders as `204 No Content`.
    pub fn into_response_parts(self) -> (r: (u16, Vec<(String, String)>, Vec<u8>))
        ensures
            match self.meta.result {
                JobResultType::Http(m) => {
                    &&& r.0 == m.status_code
                    &&& r.2@ == self.body@
                    &&& r.1@ == content_headers(
                        match self.headers {
                            Some(h) => h@,
                            None => Seq::empty(),
                        },
                    )
                },
                _ => r.0 == 204 && r.1@.len() == 0 && r.2@.len() == 0,
            },
    {
        match self.meta.result {
            JobResultType::Http(m) => {
                let mut kept: Vec<(String, String)> = Vec::new();
                match self.headers {
                    Some(h) => {
                        let mut i: usize = 0;
                        while i < h.len()
                            invariant
                                0 <= i <= h@.len(),
                                kept@ == content_headers(h@.subrange(0, i as int)),
                            decreases h@.len() - i,
                        {
                            let pair = &h[i];
                            let name = pair.0.as_str();
                            let keep = if name.unicode_len() >= 7 {
                                let prefix = name.substring_char(0, 7);
                                let c = "content".to_owned();
                                prefix.to_owned() == c
                            } else {
                                false
                            };
                            if keep {
                                kept.push((pair.0.clone(), pair.1.clone()));
                            }
                            proof {
                                assert(h@.subrange(0, i + 1).drop_last() =~= h@.subrange(
                                    0,
                                    i as int,
                                ));
                                assert(h@.subrange(0, i + 1).last() == h@[i as int]);
                            }
                            i = i + 1;
                        }
                        proof {
                            assert(h@.subrange(0, h@.len() as int) =~= h@);
                        }
                    },
                    None => {
                        proof {
                            assert(kept@ =~= content_headers(Seq::<(String, String)>::empty()));
                        }
                    },
                }
                (m.status_code, kept, self.body)
            },
            _ => (204, Vec::new(), Vec::new()),
        }
    }
}

} // verus!
