use irisqo::retry::JobRetry;

#[test]
fn job_retry_from_str_err() {
    // arrange
    let s = "test";
    // act
    let job_retry: Result<JobRetry, _> = JobRetry::from_str(s);

    // assert
    assert!(job_retry.is_err());
}

#[test]
fn job_retry_from_str_empty() {
    // arrange
    let s = "";
    // act
    let job_retry: Result<JobRetry, _> = JobRetry::from_str(s);

    // assert
    assert!(job_retry.is_ok());
    assert_eq!(JobRetry::Never, job_retry.unwrap());
}

#[test]
fn job_retry_from_str_fixed() {
    // arrange
    let s = "3";
    // act
    let job_retry: Result<JobRetry, _> = JobRetry::from_str(s);

    // assert
    assert!(job_retry.is_ok());
    assert_eq!(JobRetry::Immediate { retry_count: 3 }, job_retry.unwrap());
}

#[test]
fn job_retry_from_str_fibonacci() {
    // arrange
    let s = "3|fibonacci|15";
    // act
    let job_retry: Result<JobRetry, _> = JobRetry::from_str(s);

    // assert
    assert!(job_retry.is_ok());
    assert_eq!(
        JobRetry::Fibonacci {
            retry_count: 3,
            retry_delay: 15
        },
        job_retry.unwrap()
    );
}

#[test]
fn job_retry_immediate_until_exhausted() {
    // arrange
    let retry = JobRetry::Immediate { retry_count: 3 };

    // act & assert
    assert_eq!(Some(0), retry.next_retry_in(0));
    assert_eq!(Some(0), retry.next_retry_in(1));
    assert_eq!(Some(0), retry.next_retry_in(2));
    assert_eq!(None, retry.next_retry_in(3));
}

#[test]
fn job_retry_fixed_until_exhausted() {
    // arrange
    let retry = JobRetry::Fixed {
        retry_count: 2,
        retry_delay: 5,
    };

    // act & assert
    assert_eq!(Some(5), retry.next_retry_in(0));
    assert_eq!(Some(5), retry.next_retry_in(1));
    assert_eq!(None, retry.next_retry_in(2));
}

#[test]
fn job_retry_fibonacci_until_exhausted() {
    // arrange
    let retry = JobRetry::Fibonacci {
        retry_count: 4,
        retry_delay: 2,
    };

    // act & assert
    assert_eq!(Some(2 * JobRetry::fibonacci(0)), retry.next_retry_in(0));
    assert_eq!(Some(2 * JobRetry::fibonacci(1)), retry.next_retry_in(1));
    assert_eq!(Some(2 * JobRetry::fibonacci(2)), retry.next_retry_in(2));
    assert_eq!(Some(2 * JobRetry::fibonacci(3)), retry.next_retry_in(3));
    assert_eq!(None, retry.next_retry_in(4));
}

#[test]
fn job_retry_round_trip_canonical() {
    let parsed = JobRetry::from_str("3|fibonacci|15").unwrap();
    assert_eq!("3|fibonacci|15", parsed.to_string());
    let fixed = JobRetry::from_str("7|fixed|120").unwrap();
    assert_eq!("7|fixed|120", fixed.to_string());
    let immediate = JobRetry::from_str("9").unwrap();
    assert_eq!("9", immediate.to_string());
    assert_eq!("", JobRetry::Never.to_string());
}

#[test]
fn job_retry_fibonacci_table() {
    assert_eq!(1, JobRetry::fibonacci(0));
    assert_eq!(1, JobRetry::fibonacci(1));
    assert_eq!(2, JobRetry::fibonacci(2));
    assert_eq!(2178309, JobRetry::fibonacci(31));
    assert_eq!(2178309, JobRetry::fibonacci(32));
    assert_eq!(2178309, JobRetry::fibonacci(1000));
}

#[test]
fn job_retry_exhausted_for_every_kind() {
    assert_eq!(None, JobRetry::Never.next_retry_in(0));
    assert_eq!(
        None,
        JobRetry::Immediate { retry_count: 5 }.next_retry_in(5)
    );
    assert_eq!(
        None,
        JobRetry::Fixed {
            retry_count: 5,
            retry_delay: 9
        }
        .next_retry_in(5)
    );
    assert_eq!(
        None,
        JobRetry::Fibonacci {
            retry_count: 5,
            retry_delay: 9
        }
        .next_retry_in(5)
    );
}

#[test]
fn job_retry_comma_form_and_two_fields() {
    assert_eq!(
        JobRetry::Fixed {
            retry_count: 3,
            retry_delay: 10
        },
        JobRetry::from_str("3,fixed,10").unwrap()
    );
    assert_eq!(
        JobRetry::Fibonacci {
            retry_count: 2,
            retry_delay: 4
        },
        JobRetry::from_str("2|exponential|4").unwrap()
    );
    assert_eq!(
        JobRetry::Immediate { retry_count: 4 },
        JobRetry::from_str("4|anything").unwrap()
    );
}

#[test]
fn job_retry_malformed_is_rejected() {
    // Four or more fields, an unknown kind, or a bad number: unparseable.
    assert!(JobRetry::from_str("1|a|2|3").is_err());
    assert!(JobRetry::from_str("3|bogus|5").is_err());
    assert!(JobRetry::from_str("3|fixed|x").is_err());
    assert!(JobRetry::from_str("70000").is_err());
    assert!(JobRetry::from_str("+3").is_err());
}
