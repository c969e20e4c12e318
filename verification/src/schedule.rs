//! The recurrence policy: plain intervals and cron expressions, with the cron
//! evaluation done by the `cron` crate behind trusted wrappers.

use std::str::FromStr;

use vstd::prelude::*;

use crate::errors::Error;
use crate::text::{
    all_digits, dec_value, join_space, join_with_space, parse_dec_u64, split_seps, split_two_seps,
    views,
};
use crate::MAX_EPOCH_SECS;

verus! {

/// A recurrence: every `interval` seconds, or a six-field cron expression
/// (seconds first, optional seventh field for years).
#[derive(Debug, Clone, PartialEq)]
pub enum JobSchedule {
    Interval { interval: u32 },
    Cron { cron: String },
}

/// A row of the `schedules` table: the recurrence and the pointers to its
/// latest and next job instances.
#[derive(Debug, Clone, PartialEq)]
pub struct ScheduleRow {
    pub schedule_id: String,
    pub schedule: String,
    pub until: Option<i64>,
    pub last_id: Option<i64>,
    pub last_at: Option<i64>,
    pub next_id: Option<i64>,
    pub next_at: Option<i64>,
    pub inactive: bool,
}

/// Whether the `cron` crate accepts this expression.
pub uninterp spec fn cron_accepts(expr: Seq<char>) -> bool;

/// The first fire time of the expression strictly after the given second.
pub uninterp spec fn cron_fire_after(expr: Seq<char>, after: i64) -> Option<i64>;

/// Relies on cron's `Schedule::from_str`: whether an expression parses
/// depends on the expression alone.
#[verifier::external_body]
fn cron_expression_valid(expr: &str) -> (r: bool)
    ensures
        r == cron_accepts(expr@),
{
    cron::Schedule::from_str(expr).is_ok()
}

/// Relies on cron's `Schedule::after` and chrono's epoch conversions: the
/// first fire of the expression after the given second depends on the two
/// arguments alone, and the crate searches forward from one second later.
#[verifier::external_body]
fn cron_next_after(expr: &str, after: i64) -> (r: Option<i64>)
    requires
        cron_accepts(expr@),
        0 <= after <= MAX_EPOCH_SECS,
    ensures
        r == cron_fire_after(expr@, after),
        r matches Some(t) ==> t > after,
{
    let schedule = match cron::Schedule::from_str(expr) {
        Ok(s) => s,
        Err(_) => return None,
    };
    let dt = match chrono::TimeZone::timestamp_opt(&chrono::Utc, after, 0) {
        chrono::LocalResult::Single(dt) => dt,
        _ => return None,
    };
    schedule.after(&dt).next().map(|d| d.timestamp())
}

/// A numeric schedule string: an interval in seconds.
pub open spec fn is_interval_text(s: Seq<char>) -> bool {
    s.len() > 0 && all_digits(s) && dec_value(s) <= u32::MAX
}

/// The canonical six- or seven-field cron text of a non-numeric schedule
/// string: fields rejoined with single spaces, with a leading `0` seconds
/// field added to a five-field expression.
pub open spec fn cron_canonical(s: Seq<char>) -> Seq<char> {
    let parts = split_seps(s, '|', ' ');
    if parts.len() == 5 {
        "0 "@ + join_space(parts)
    } else {
        join_space(parts)
    }
}

/// Whether a schedule string parses at all.
pub open spec fn spec_schedule_ok(s: Seq<char>) -> bool {
    if s.len() == 0 {
        false
    } else if is_interval_text(s) {
        true
    } else {
        let n = split_seps(s, '|', ' ').len();
        (n == 5 || n == 6 || n == 7) && cron_accepts(cron_canonical(s))
    }
}

impl JobSchedule {
    /// Relies on chrono's `Utc::now`: the current wall-clock time in epoch
    /// seconds. Nothing can be promised of the clock.
    #[verifier::external_body]
    pub fn now_secs() -> i64 {
        chrono::Utc::now().timestamp()
    }

    /// Whether `next` can be asked of this schedule: a positive interval, or
    /// a cron expression the cron crate accepts.
    pub open spec fn spec_fireable(&self) -> bool {
        match self {
            JobSchedule::Interval { interval } => *interval >= 1,
            JobSchedule::Cron { cron } => cron_accepts(cron@),
        }
    }

    /// The first fire time strictly after `after`, bounded by `until`.
    pub open spec fn spec_next(&self, after: i64, until: Option<i64>) -> Option<i64> {
        let fire = match self {
            JobSchedule::Interval { interval } => Some(
                (after - after % (*interval as i64) + *interval as i64) as i64,
            ),
            JobSchedule::Cron { cron } => cron_fire_after(cron@, after),
        };
        match (fire, until) {
            (Some(t), Some(u)) => if t > u {
                None
            } else {
                Some(t)
            },
            _ => fire,
        }
    }

    /// Computes the next fire time after `after`, or `None` when it would
    /// pass `until` (or, for cron, when no fire remains). A returned fire is
    /// strictly after `after`, so a recurrence always advances.
    pub fn next(&self, after: i64, until: Option<i64>) -> (r: Option<i64>)
        requires
            0 <= after <= MAX_EPOCH_SECS,
            self.spec_fireable(),
        ensures
            r == self.spec_next(after, until),
            r matches Some(t) ==> t > after,
    {
        let fire: Option<i64> = match self {
            JobSchedule::Interval { interval } => {
                let step = *interval as i64;
                Some(after - after % step + step)
            },
            JobSchedule::Cron { cron } => cron_next_after(cron.as_str(), after),
        };
        match (fire, until) {
            (Some(t), Some(u)) => {
                if t > u {
                    None
                } else {
                    Some(t)
                }
            },
            (f, _) => f,
        }
    }

    /// Like `next`, but checks the schedule first instead of demanding a
    /// well-formed one: a zero interval or a bad cron expression is rejected.
    /// A returned fire is strictly after `after`.
    pub fn try_next(&self, after: i64, until: Option<i64>) -> (r: Result<Option<i64>, Error>)
        requires
            0 <= after <= MAX_EPOCH_SECS,
        ensures
            self.spec_fireable() ==> r == Ok::<Option<i64>, Error>(self.spec_next(after, until)),
            r matches Ok(o) ==> (o matches Some(t) ==> t > after),
            !self.spec_fireable() ==> (r matches Err(e) && e matches Error::InvalidParams(p) && p@
                == "schedule"@),
    {
        let ok = match self {
            JobSchedule::Interval { interval } => *interval >= 1,
            JobSchedule::Cron { cron } => cron_expression_valid(cron.as_str()),
        };
        if ok {
            Ok(self.next(after, until))
        } else {
            Err(Error::InvalidParams("schedule"))
        }
    }

    /// Parses a schedule directive: a number (unsigned decimal digits) is an
    /// interval in seconds; a five-, six- or seven-field expression (split on
    /// `|` or space) is cron.
    pub fn from_str(s: &str) -> (r: Result<JobSchedule, Error>)
        ensures
            r is Ok <==> spec_schedule_ok(s@),
            r matches Ok(v) ==> match v {
                JobSchedule::Interval { interval } => is_interval_text(s@) && interval == dec_value(
                    s@,
                ),
                JobSchedule::Cron { cron } => {
                    &&& !is_interval_text(s@)
                    &&& cron@ == cron_canonical(s@)
                    &&& cron_accepts(cron@)
                },
            },
            r matches Ok(v) ==> v.spec_fireable() || (v matches JobSchedule::Interval {
                interval,
            } && interval == 0),
            r matches Err(e) ==> e matches Error::InvalidParams(p) && p@ == "schedule"@,
    {
        if s.is_empty() {
            return Err(Error::InvalidParams("schedule"));
        }
        match parse_dec_u64(s) {
            Some(v) if v <= u32::MAX as u64 => {
                return Ok(JobSchedule::Interval { interval: v as u32 });
            },
            _ => {},
        }
        let parts = split_two_seps(s, '|', ' ');
        let n = parts.len();
        if n != 5 && n != 6 && n != 7 {
            return Err(Error::InvalidParams("schedule"));
        }
        let joined = join_with_space(&parts);
        proof {
            assert(views(parts@) == split_seps(s@, '|', ' '));
        }
        let fixed = if n == 5 {
            proof {
                reveal_strlit("0 ");
            }
            "0 ".to_owned().concat(joined.as_str())
        } else {
            joined
        };
        if cron_expression_valid(fixed.as_str()) {
            Ok(JobSchedule::Cron { cron: fixed })
        } else {
            Err(Error::InvalidParams("schedule"))
        }
    }
}

/// Whether the schedule a stored text parses to can be asked for a next
/// fire: a positive interval, or an accepted cron expression.
pub open spec fn spec_text_fireable(s: Seq<char>) -> bool {
    if is_interval_text(s) {
        dec_value(s) >= 1
    } else {
        cron_accepts(cron_canonical(s))
    }
}

/// The next fire of a stored schedule text, straight from the text.
pub open spec fn spec_next_of_text(s: Seq<char>, after: i64, until: Option<i64>) -> Option<i64> {
    let fire = if is_interval_text(s) {
        Some((after - after % (dec_value(s) as i64) + dec_value(s) as i64) as i64)
    } else {
        cron_fire_after(cron_canonical(s), after)
    };
    match (fire, until) {
        (Some(t), Some(u)) => if t > u {
            None
        } else {
            Some(t)
        },
        _ => fire,
    }
}

/// A schedule parsed from a text fires exactly as the text says.
pub proof fn lemma_next_of_text(v: JobSchedule, s: Seq<char>, after: i64, until: Option<i64>)
    requires
        match v {
            JobSchedule::Interval { interval } => is_interval_text(s) && interval == dec_value(s),
            JobSchedule::Cron { cron } => !is_interval_text(s) && cron@ == cron_canonical(s),
        },
    ensures
        v.spec_next(after, until) == spec_next_of_text(s, after, until),
        v.spec_fireable() == spec_text_fireable(s),
{
}

/// The canonical text of a schedule: the interval in decimal, or the cron
/// expression itself.
pub open spec fn spec_print_schedule(s: &JobSchedule) -> Seq<char> {
    match s {
        JobSchedule::Interval { interval } => crate::text::dec_str(*interval as nat),
        JobSchedule::Cron { cron } => cron@,
    }
}

impl JobSchedule {
    /// Renders the canonical text of this schedule.
    pub fn to_string(&self) -> (r: String)
        ensures
            r@ == spec_print_schedule(self),
    {
        match self {
            JobSchedule::Interval { interval } => crate::text::u64_to_string(*interval as u64),
            JobSchedule::Cron { cron } => cron.clone(),
        }
    }
}

/// Printing an interval schedule and parsing the text gives it back.
pub proof fn lemma_interval_round_trip(interval: u32)
    ensures
        spec_schedule_ok(spec_print_schedule(&JobSchedule::Interval { interval })),
        is_interval_text(spec_print_schedule(&JobSchedule::Interval { interval })),
        dec_value(spec_print_schedule(&JobSchedule::Interval { interval })) == interval,
{
    crate::text::lemma_dec_str_digits(interval as nat);
    crate::text::lemma_dec_round_trip(interval as nat);
}

impl Default for JobSchedule {
    /// The fallback recurrence: once a day.
    fn default() -> (r: JobSchedule)
        ensures
            r == (JobSchedule::Interval { interval: 86400u32 }),
    {
        JobSchedule::Interval { interval: 60 * 60 * 24 }
    }
}

/// On a multiple of the interval, the next fire is exactly one interval
/// later.
pub proof fn lemma_interval_next_multiple(interval: u32, k: i64, after: i64)
    requires
        interval >= 1,
        0 <= k,
        after == k * (interval as i64),
        after + interval <= MAX_EPOCH_SECS,
    ensures
        (JobSchedule::Interval { interval }).spec_next(after, None) == Some(
            (after + interval) as i64,
        ),
{
    let step = interval as i64;
    assert(after % step == 0 && after >= 0) by (nonlinear_arith)
        requires
            step >= 1,
            k >= 0,
            after == k * step,
    ;
}

} // verus!
