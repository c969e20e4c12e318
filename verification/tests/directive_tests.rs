use irisqo::directives::parse_directives;
use irisqo::errors::Error;
use irisqo::retry::JobRetry;
use irisqo::schedule::JobSchedule;

fn pairs(items: &[(&str, &str)]) -> Vec<(String, String)> {
    items
        .iter()
        .map(|(k, v)| (k.to_string(), v.to_string()))
        .collect()
}

#[test]
fn directives_consume_and_pass_through() {
    let q = pairs(&[
        ("_delay", "30"),
        ("_timeout", "500"),
        ("_retry", "2|fixed|1"),
        ("x", "1"),
        ("_id", "abc"),
        ("y", ""),
    ]);
    let d = parse_directives(&q, 1000, 3000).unwrap();
    assert_eq!(Some(30), d.delay);
    assert_eq!(Some(1030), d.at);
    assert_eq!(500, d.timeout);
    assert_eq!(
        JobRetry::Fixed {
            retry_count: 2,
            retry_delay: 1
        },
        d.retry
    );
    assert_eq!(Some("abc".to_string()), d.external_id);
    assert_eq!(
        vec![
            ("x".to_string(), "1".to_string()),
            ("y".to_string(), String::new())
        ],
        d.passthrough
    );
}

#[test]
fn directives_delay_until_must_be_future() {
    let q = pairs(&[("_delay_until", "900")]);
    let d = parse_directives(&q, 1000, 3000).unwrap();
    assert_eq!(None, d.at);
    assert_eq!(None, d.delay);

    let q = pairs(&[("_delay_until", "1500")]);
    let d = parse_directives(&q, 1000, 3000).unwrap();
    assert_eq!(Some(1500), d.at);
    assert_eq!(Some(500), d.delay);
}

#[test]
fn directives_interval_and_until() {
    let q = pairs(&[("_interval", "60"), ("_until", "5000")]);
    let d = parse_directives(&q, 1000, 3000).unwrap();
    assert_eq!(Some(JobSchedule::Interval { interval: 60 }), d.schedule);
    assert_eq!(Some(5000), d.until);
}

#[test]
fn directives_cron() {
    let q = pairs(&[("_cron", "*/5 * * * *")]);
    let d = parse_directives(&q, 1000, 3000).unwrap();
    assert_eq!(
        Some(JobSchedule::Cron {
            cron: "0 */5 * * * *".into()
        }),
        d.schedule
    );
}

#[test]
fn directives_bad_retry_is_rejected() {
    let q = pairs(&[("_retry", "nope")]);
    let err = parse_directives(&q, 1000, 3000).unwrap_err();
    assert!(matches!(err, Error::InvalidParams("retry")));
}

#[test]
fn directives_bad_interval_and_cron_are_rejected() {
    let q = pairs(&[("_interval", "x")]);
    assert!(matches!(
        parse_directives(&q, 1000, 3000),
        Err(Error::InvalidParams("interval"))
    ));
    let q = pairs(&[("_cron", "* *")]);
    assert!(matches!(
        parse_directives(&q, 1000, 3000),
        Err(Error::InvalidParams("cron"))
    ));
}

#[test]
fn directives_long_id_passes_through() {
    let long = "x".repeat(65);
    let q = pairs(&[("_id", long.as_str())]);
    let d = parse_directives(&q, 1000, 3000).unwrap();
    assert_eq!(None, d.external_id);
    assert_eq!(vec![("_id".to_string(), long)], d.passthrough);
}

#[test]
fn error_messages_and_retryability() {
    assert_eq!("invalid url", Error::InvalidUrl.message());
    assert_eq!(
        "invalid params - retry",
        Error::InvalidParams("retry").message()
    );
    assert!(Error::Timeout.is_retryable());
    assert!(Error::HttpTransportError.is_retryable());
    assert!(!Error::InvalidUrl.is_retryable());
    assert!(!Error::RetriesExceeded.is_retryable());
}
