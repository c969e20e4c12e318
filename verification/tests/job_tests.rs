use irisqo::job::{HttpMeta, JobMeta, JobProtocol, JobRow};
use irisqo::retry::JobRetry;

#[test]
fn job_row_into_request_err() {
    // arrange
    let job = JobRow {
        id: 0,
        meta: JobMeta {
            protocol: JobProtocol::Null,
            retry: JobRetry::Never,
            delay: None,
            timeout: 0,
        },
        headers: None,
        body: None,
        schedule_id: None,
        external_id: None,
    };
    // act
    let req = job.into_request_parts();

    // assert
    assert!(req.is_err());
}

#[test]
fn job_row_into_request_ok() {
    // arrange
    let job = JobRow {
        id: 0,
        meta: JobMeta {
            protocol: JobProtocol::Http(HttpMeta {
                method: "GET".into(),
                url: "http://localhost".into(),
            }),
            retry: JobRetry::Fixed {
                retry_count: 3,
                retry_delay: 1,
            },
            delay: Some(300),
            timeout: 2000,
        },
        headers: Some(vec![("content-length".to_string(), "123".into())]),
        body: None,
        schedule_id: None,
        external_id: None,
    };
    // act
    let req = job.into_request_parts();

    // assert
    assert!(req.is_ok());
}

#[test]
fn job_row_into_request_fields() {
    let job = JobRow {
        id: 7,
        meta: JobMeta {
            protocol: JobProtocol::Http(HttpMeta {
                method: "POST".into(),
                url: "http://echo.local/ok".into(),
            }),
            retry: JobRetry::Never,
            delay: None,
            timeout: 3000,
        },
        headers: Some(vec![("content-type".to_string(), "text/plain".into())]),
        body: Some(b"hello".to_vec()),
        schedule_id: None,
        external_id: None,
    };
    let parts = job.into_request_parts().unwrap();
    assert_eq!("POST", parts.method);
    assert_eq!("http://echo.local/ok", parts.url);
    assert_eq!(
        vec![("content-type".to_string(), "text/plain".to_string())],
        parts.headers
    );
    assert_eq!(b"hello".to_vec(), parts.body);
}
