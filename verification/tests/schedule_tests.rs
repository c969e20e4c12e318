use irisqo::schedule::JobSchedule;

#[test]
fn schedule_from_str_err() {
    // arrange
    let s = "";
    // act
    let schedule: Result<JobSchedule, _> = JobSchedule::from_str(s);

    // assert
    assert!(schedule.is_err());
}

#[test]
fn schedule_from_str_interval() {
    // arrange
    let s = "300";
    // act
    let schedule: Result<JobSchedule, _> = JobSchedule::from_str(s);

    // assert
    assert!(schedule.is_ok());
    let ss = schedule.unwrap();
    assert_eq!(JobSchedule::Interval { interval: 300 }, ss);
    assert_eq!(s, ss.to_string());
}

#[test]
fn schedule_from_str_interval_after() {
    // arrange
    let s = "300";
    let now_secs = JobSchedule::now_secs();
    let now_sec_to_5_min: i64 = now_secs - (now_secs % 300);

    // act
    let schedule: JobSchedule = JobSchedule::from_str(s).unwrap();
    let next = schedule.next(now_secs, None);

    // assert
    assert!(next.is_some());
    assert_eq!(now_sec_to_5_min + 300, next.unwrap());
}

#[test]
fn schedule_from_str_cron() {
    // arrange
    let s = "*/5 * * * *";
    // act
    let schedule: Result<JobSchedule, _> = JobSchedule::from_str(s);

    // assert
    assert!(schedule.is_ok());
    let ss = schedule.unwrap();
    assert_eq!(
        JobSchedule::Cron {
            cron: "0 */5 * * * *".into()
        },
        ss
    );
    assert_eq!("0 */5 * * * *", ss.to_string());
}

#[test]
fn schedule_from_str_cron_after() {
    // arrange
    let s = "*/5 * * * *";
    let now_secs = JobSchedule::now_secs();

    let now_sec_to_5_min: i64 = now_secs - (now_secs % 300);

    // act
    let schedule: JobSchedule = JobSchedule::from_str(s).unwrap();
    let next = schedule.next(now_secs, None);

    // assert
    assert!(next.is_some());
    assert_eq!(now_sec_to_5_min + 300, next.unwrap());
}

#[test]
fn schedule_interval_multiples() {
    let schedule = JobSchedule::Interval { interval: 60 };
    for k in 0i64..5 {
        assert_eq!(Some((k + 1) * 60), schedule.next(k * 60, None));
    }
}

#[test]
fn schedule_until_caps_next_fire() {
    let schedule = JobSchedule::Interval { interval: 60 };
    assert_eq!(Some(1020), schedule.next(1000, Some(1020)));
    assert_eq!(None, schedule.next(1000, Some(1019)));
}

#[test]
fn schedule_pipe_separated_cron() {
    let schedule = JobSchedule::from_str("0|*/5|*|*|*|*").unwrap();
    assert_eq!(
        JobSchedule::Cron {
            cron: "0 */5 * * * *".into()
        },
        schedule
    );
}

#[test]
fn schedule_bad_field_count() {
    assert!(JobSchedule::from_str("* *").is_err());
    assert!(JobSchedule::from_str("not a cron at all").is_err());
}

#[test]
fn schedule_now_secs_is_current() {
    // The wall clock is after 2020 and inside the supported range.
    let now = JobSchedule::now_secs();
    assert!(now > 1_577_836_800);
    assert!(now <= irisqo::MAX_EPOCH_SECS);
}
