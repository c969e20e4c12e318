//! The ingestion directives: the `_delay`, `_retry`, `_cron`, … query
//! parameters that turn one captured HTTP request into a job, and the
//! remaining parameters that are replayed to the upstream URL.

use vstd::prelude::*;

use crate::errors::Error;
use crate::retry::{spec_parse_retry, JobRetry};
use crate::schedule::{cron_canonical, is_interval_text, spec_schedule_ok, JobSchedule};
use crate::text::{all_digits, dec_value, parse_dec_u64};
use crate::MAX_EPOCH_SECS;

verus! {

/// What the directive parameters of one request amount to.
#[derive(Debug, Clone)]
pub struct JobDirectives {
    pub delay: Option<u32>,
    pub at: Option<i64>,
    pub timeout: u32,
    pub retry: JobRetry,
    pub schedule: Option<JobSchedule>,
    pub until: Option<i64>,
    pub external_id: Option<String>,
    pub passthrough: Vec<(String, String)>,
}

/// The spec-level shape of a parsed schedule directive.
pub enum SpecSched {
    IntervalOf(u32),
    CronOf(Seq<char>),
}

/// The spec-level directive state.
pub struct DirectivesView {
    pub delay: Option<u32>,
    pub at: Option<i64>,
    pub timeout: u32,
    pub retry: JobRetry,
    pub schedule: Option<SpecSched>,
    pub until: Option<i64>,
    pub external: Option<Seq<char>>,
    pub passthrough: Seq<(Seq<char>, Seq<char>)>,
}

/// Folding state: still collecting, or failed on a named parameter.
pub enum DirState {
    Going(DirectivesView),
    Failed(Seq<char>),
}

/// The starting state: no directives, the caller's default timeout.
pub open spec fn dir_init(default_timeout: u32) -> DirectivesView {
    DirectivesView {
        delay: None,
        at: None,
        timeout: default_timeout,
        retry: JobRetry::Never,
        schedule: None,
        until: None,
        external: None,
        passthrough: Seq::empty(),
    }
}

/// The schedule form a successfully parsed schedule string takes.
pub open spec fn sched_form_of(s: Seq<char>) -> SpecSched {
    if is_interval_text(s) {
        SpecSched::IntervalOf(dec_value(s) as u32)
    } else {
        SpecSched::CronOf(cron_canonical(s))
    }
}

/// One query parameter applied to the directive state.
pub open spec fn apply_pair(
    dv: DirectivesView,
    key: Seq<char>,
    val: Seq<char>,
    now: i64,
    default_timeout: u32,
) -> DirState {
    if key == "_delay"@ {
        if val.len() > 0 && all_digits(val) && dec_value(val) <= u32::MAX {
            let d = dec_value(val) as u32;
            DirState::Going(
                DirectivesView { delay: Some(d), at: Some((now + d) as i64), ..dv },
            )
        } else {
            DirState::Going(DirectivesView { delay: None, at: None, ..dv })
        }
    } else if key == "_delay_until"@ {
        if val.len() > 0 && all_digits(val) && dec_value(val) <= i64::MAX && dec_value(val) > now {
            let t = dec_value(val) as i64;
            let d = if t - now <= u32::MAX {
                Some((t - now) as u32)
            } else {
                None
            };
            DirState::Going(DirectivesView { delay: d, at: Some(t), ..dv })
        } else {
            DirState::Going(DirectivesView { delay: None, at: None, ..dv })
        }
    } else if key == "_timeout"@ {
        if val.len() > 0 && all_digits(val) && dec_value(val) <= u32::MAX {
            DirState::Going(DirectivesView { timeout: dec_value(val) as u32, ..dv })
        } else {
            DirState::Going(DirectivesView { timeout: default_timeout, ..dv })
        }
    } else if key == "_retry"@ {
        match spec_parse_retry(val) {
            Some(r) => DirState::Going(DirectivesView { retry: r, ..dv }),
            None => DirState::Failed("retry"@),
        }
    } else if key == "_interval"@ {
        if spec_schedule_ok(val) {
            DirState::Going(DirectivesView { schedule: Some(sched_form_of(val)), ..dv })
        } else {
            DirState::Failed("interval"@)
        }
    } else if key == "_cron"@ {
        if spec_schedule_ok(val) {
            DirState::Going(DirectivesView { schedule: Some(sched_form_of(val)), ..dv })
        } else {
            DirState::Failed("cron"@)
        }
    } else if key == "_until"@ {
        if val.len() > 0 && all_digits(val) && dec_value(val) <= i64::MAX {
            DirState::Going(DirectivesView { until: Some(dec_value(val) as i64), ..dv })
        } else {
            DirState::Going(DirectivesView { until: None, ..dv })
        }
    } else if key == "_id"@ && 0 < val.len() < 65 {
        DirState::Going(DirectivesView { external: Some(val), ..dv })
    } else {
        DirState::Going(DirectivesView { passthrough: dv.passthrough.push((key, val)), ..dv })
    }
}

/// The directive state after the first `n` query parameters.
pub open spec fn dir_run(
    pairs: Seq<(Seq<char>, Seq<char>)>,
    n: nat,
    now: i64,
    default_timeout: u32,
) -> DirState
    decreases n,
{
    if n == 0 {
        DirState::Going(dir_init(default_timeout))
    } else {
        match dir_run(pairs, (n - 1) as nat, now, default_timeout) {
            DirState::Going(dv) => apply_pair(
                dv,
                pairs[n - 1].0,
                pairs[n - 1].1,
                now,
                default_timeout,
            ),
            DirState::Failed(p) => DirState::Failed(p),
        }
    }
}

/// The views of a list of query parameters.
pub open spec fn pair_views(pairs: Seq<(String, String)>) -> Seq<(Seq<char>, Seq<char>)> {
    pairs.map_values(|p: (String, String)| (p.0@, p.1@))
}

/// The executable directives agree with the spec-level state.
pub open spec fn directives_match(d: JobDirectives, dv: DirectivesView) -> bool {
    &&& d.delay == dv.delay
    &&& d.at == dv.at
    &&& d.timeout == dv.timeout
    &&& d.retry == dv.retry
    &&& match (d.schedule, dv.schedule) {
        (None, None) => true,
        (Some(JobSchedule::Interval { interval }), Some(SpecSched::IntervalOf(v))) => interval
            == v,
        (Some(JobSchedule::Cron { cron }), Some(SpecSched::CronOf(s))) => cron@ == s,
        _ => false,
    }
    &&& d.until == dv.until
    &&& crate::store::opt_view(d.external_id) == dv.external
    &&& pair_views(d.passthrough@) == dv.passthrough
}

/// Consumes the `_`-prefixed directives from the decoded query parameters,
/// later occurrences overriding earlier ones, and keeps every other parameter
/// for the upstream request. An unparseable `_retry`, `_interval` or `_cron`
/// rejects the request with `InvalidParams` under that name.
pub fn parse_directives(
    pairs: &Vec<(String, String)>,
    now: i64,
    default_timeout: u32,
) -> (r: Result<JobDirectives, Error>)
    requires
        0 <= now <= MAX_EPOCH_SECS,
    ensures
        ({
            let end = dir_run(pair_views(pairs@), pairs@.len() as nat, now, default_timeout);
            match r {
                Ok(d) => end matches DirState::Going(dv) && directives_match(d, dv),
                Err(e) => end matches DirState::Failed(p) && (e matches Error::InvalidParams(q)
                    && q@ == p),
            }
        }),
{
    let mut d = JobDirectives {
        delay: None,
        at: None,
        timeout: default_timeout,
        retry: JobRetry::Never,
        schedule: None,
        until: None,
        external_id: None,
        passthrough: Vec::new(),
    };
    let mut i: usize = 0;
    proof {
        assert(pair_views(d.passthrough@) =~= Seq::<(Seq<char>, Seq<char>)>::empty());
    }
    while i < pairs.len()
        invariant
            0 <= i <= pairs@.len(),
            0 <= now <= MAX_EPOCH_SECS,
            ({
                let st = dir_run(pair_views(pairs@), i as nat, now, default_timeout);
                st matches DirState::Going(dv) && directives_match(d, dv)
            }),
        decreases pairs@.len() - i,
    {
        let key = &pairs[i].0;
        let val = &pairs[i].1;
        let ghost dv_pre = dir_run(pair_views(pairs@), i as nat, now, default_timeout)->Going_0;
        proof {
            assert(pair_views(pairs@)[i as int] == (key@, val@));
        }
        if str_is(key, "_delay") {
            match parse_dec_u64(val.as_str()) {
                Some(v) if v <= u32::MAX as u64 => {
                    d.delay = Some(v as u32);
                    d.at = Some(now + v as i64);
                },
                _ => {
                    d.delay = None;
                    d.at = None;
                },
            }
        } else if str_is(key, "_delay_until") {
            let mut good = false;
            match parse_dec_u64(val.as_str()) {
                Some(v) if v <= i64::MAX as u64 && v as i64 > now => {
                    let t = v as i64;
                    d.at = Some(t);
                    d.delay = if t - now <= u32::MAX as i64 {
                        Some((t - now) as u32)
                    } else {
                        None
                    };
                    good = true;
                },
                _ => {},
            }
            if !good {
                d.at = None;
                d.delay = None;
            }
        } else if str_is(key, "_timeout") {
            match parse_dec_u64(val.as_str()) {
                Some(v) if v <= u32::MAX as u64 => {
                    d.timeout = v as u32;
                },
                _ => {
                    d.timeout = default_timeout;
                },
            }
        } else if str_is(key, "_retry") {
            match JobRetry::from_str(val.as_str()) {
                Ok(rv) => {
                    d.retry = rv;
                },
                Err(_) => {
                    proof {
                        assert(dir_run(pair_views(pairs@), (i + 1) as nat, now, default_timeout)
                            == DirState::Failed("retry"@));
                        lemma_dir_failed_persists(
                            pair_views(pairs@),
                            (i + 1) as nat,
                            pairs@.len() as nat,
                            now,
                            default_timeout,
                        );
                    }
                    return Err(Error::InvalidParams("retry"));
                },
            }
        } else if str_is(key, "_interval") {
            match JobSchedule::from_str(val.as_str()) {
                Ok(s) => {
                    d.schedule = Some(s);
                },
                Err(_) => {
                    proof {
                        assert(dir_run(pair_views(pairs@), (i + 1) as nat, now, default_timeout)
                            == DirState::Failed("interval"@));
                        lemma_dir_failed_persists(
                            pair_views(pairs@),
                            (i + 1) as nat,
                            pairs@.len() as nat,
                            now,
                            default_timeout,
                        );
                    }
                    return Err(Error::InvalidParams("interval"));
                },
            }
        } else if str_is(key, "_cron") {
            match JobSchedule::from_str(val.as_str()) {
                Ok(s) => {
                    d.schedule = Some(s);
                },
                Err(_) => {
                    proof {
                        assert(dir_run(pair_views(pairs@), (i + 1) as nat, now, default_timeout)
                            == DirState::Failed("cron"@));
                        lemma_dir_failed_persists(
                            pair_views(pairs@),
                            (i + 1) as nat,
                            pairs@.len() as nat,
                            now,
                            default_timeout,
                        );
                    }
                    return Err(Error::InvalidParams("cron"));
                },
            }
        } else if str_is(key, "_until") {
            match parse_dec_u64(val.as_str()) {
                Some(v) if v <= i64::MAX as u64 => {
                    d.until = Some(v as i64);
                },
                _ => {
                    d.until = None;
                },
            }
        } else {
            let vlen = val.as_str().unicode_len();
            if str_is(key, "_id") && 0 < vlen && vlen < 65 {
                d.external_id = Some(val.clone());
            } else {
                d.passthrough.push((key.clone(), val.clone()));
                proof {
                    assert(pair_views(d.passthrough@) =~= dv_pre.passthrough.push((key@, val@)));
                }
            }
        }
        i = i + 1;
    }
    Ok(d)
}

/// Once a directive parameter has failed, the remaining parameters do not
/// change that.
proof fn lemma_dir_failed_persists(
    pairs: Seq<(Seq<char>, Seq<char>)>,
    n: nat,
    m: nat,
    now: i64,
    default_timeout: u32,
)
    requires
        n <= m,
        dir_run(pairs, n, now, default_timeout) is Failed,
    ensures
        dir_run(pairs, m, now, default_timeout) == dir_run(pairs, n, now, default_timeout),
    decreases m,
{
    if n < m {
        lemma_dir_failed_persists(pairs, n, (m - 1) as nat, now, default_timeout);
    }
}

/// Compares an owned key with a directive name.
fn str_is(key: &String, name: &str) -> (r: bool)
    ensures
        r == (key@ == name@),
{
    *key == name.to_owned()
}

} // verus!
