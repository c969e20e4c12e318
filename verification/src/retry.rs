//! The retry policy: four kinds with bounded counts, the fibonacci backoff
//! table, and the `N|kind|D` textual form.

use vstd::prelude::*;

use crate::errors::Error;
use crate::text::{
    all_digits, dec_str, dec_value, lemma_dec_round_trip, lemma_dec_str_digits,
    lemma_split_at_sep, lemma_split_no_sep, parse_dec_u64, split_seps, split_two_seps,
    u64_to_string,
};

verus! {

/// A job's retry policy. `Never` means no retry at all; the other kinds allow
/// `retry_count` further attempts, immediately, after a fixed delay, or after
/// a fibonacci-growing delay.
#[derive(Debug, Clone, Copy, PartialEq, Eq, Structural)]
pub enum JobRetry {
    Never,
    Immediate { retry_count: u16 },
    Fixed { retry_count: u16, retry_delay: u32 },
    Fibonacci { retry_count: u16, retry_delay: u32 },
}

/// The fibonacci sequence used for backoff: `fib(0) = fib(1) = 1`.
pub open spec fn fib(n: nat) -> nat
    decreases n,
{
    if n <= 1 {
        1
    } else {
        fib((n - 1) as nat) + fib((n - 2) as nat)
    }
}

/// The backoff table saturates at index 31.
pub open spec fn fib_capped(n: nat) -> nat {
    if n > 31 {
        fib(31)
    } else {
        fib(n)
    }
}

spec fn pow2(n: nat) -> nat
    decreases n,
{
    if n == 0 {
        1
    } else {
        2 * pow2((n - 1) as nat)
    }
}

proof fn lemma_pow2_pos(n: nat)
    ensures
        pow2(n) >= 1,
    decreases n,
{
    if n > 0 {
        lemma_pow2_pos((n - 1) as nat);
    }
}

proof fn lemma_fib_le_pow2(n: nat)
    ensures
        fib(n) <= pow2(n),
    decreases n,
{
    if n <= 1 {
        lemma_pow2_pos(n);
    } else {
        lemma_fib_le_pow2((n - 1) as nat);
        lemma_fib_le_pow2((n - 2) as nat);
        lemma_pow2_mono((n - 2) as nat, (n - 1) as nat);
    }
}

proof fn lemma_pow2_mono(a: nat, b: nat)
    requires
        a <= b,
    ensures
        pow2(a) <= pow2(b),
    decreases b,
{
    if a < b {
        lemma_pow2_mono(a, (b - 1) as nat);
        lemma_pow2_pos((b - 1) as nat);
    }
}

/// Every entry of the saturated backoff table fits well below `u32::MAX`.
pub proof fn lemma_fib_capped_bound(n: nat)
    ensures
        fib_capped(n) <= 0x8000_0000,
{
    let m: nat = if n > 31 { 31 } else { n };
    lemma_fib_le_pow2(m);
    lemma_pow2_mono(m, 31);
    assert(pow2(31) == 0x8000_0000) by {
        reveal_with_fuel(pow2, 32);
    }
}

impl JobRetry {
    /// Whether this policy never retries.
    pub fn is_none(&self) -> (r: bool)
        ensures
            r == (self is Never),
    {
        matches!(self, JobRetry::Never)
    }

    /// The backoff multiplier for attempt `idx`, saturating at index 31.
    pub fn fibonacci(idx: usize) -> (r: u32)
        ensures
            r == fib_capped(idx as nat),
    {
        let n: usize = if idx > 31 {
            31
        } else {
            idx
        };
        let mut a: u64 = 1;
        let mut b: u64 = 1;
        let mut i: usize = 1;
        if n == 0 {
            return 1;
        }
        while i < n
            invariant
                1 <= i <= n <= 31,
                a == fib((i - 1) as nat),
                b == fib(i as nat),
            decreases n - i,
        {
            proof {
                lemma_fib_capped_bound((i + 1) as nat);
            }
            let next: u64 = a + b;
            a = b;
            b = next;
            i = i + 1;
        }
        proof {
            lemma_fib_capped_bound(n as nat);
        }
        b as u32
    }

    /// How many retries this policy allows in total.
    pub open spec fn spec_retry_count(self) -> u16 {
        match self {
            JobRetry::Never => 0,
            JobRetry::Immediate { retry_count } => retry_count,
            JobRetry::Fixed { retry_count, .. } => retry_count,
            JobRetry::Fibonacci { retry_count, .. } => retry_count,
        }
    }

    /// The delay in seconds before attempt `retry + 1`, or `None` when the
    /// policy is exhausted.
    pub open spec fn spec_next_retry_in(self, retry: u16) -> Option<u32> {
        match self {
            JobRetry::Never => None,
            JobRetry::Immediate { retry_count } => if retry < retry_count {
                Some(0u32)
            } else {
                None
            },
            JobRetry::Fixed { retry_count, retry_delay } => if retry < retry_count {
                Some(retry_delay)
            } else {
                None
            },
            JobRetry::Fibonacci { retry_count, retry_delay } => if retry < retry_count {
                Some((retry_delay * fib_capped(retry as nat)) as u32)
            } else {
                None
            },
        }
    }

    /// Whether the fibonacci product for attempt `retry` stays inside `u32`.
    pub open spec fn product_fits(self, retry: u16) -> bool {
        match self {
            JobRetry::Fibonacci { retry_count, retry_delay } => retry < retry_count
                ==> retry_delay * fib_capped(retry as nat) <= u32::MAX,
            _ => true,
        }
    }

    pub fn next_retry_in(self, retry: u16) -> (r: Option<u32>)
        requires
            self.product_fits(retry),
        ensures
            r == self.spec_next_retry_in(retry),
    {
        match self {
            JobRetry::Never => None,
            JobRetry::Immediate { retry_count } => {
                if retry < retry_count {
                    Some(0)
                } else {
                    None
                }
            },
            JobRetry::Fixed { retry_count, retry_delay } => {
                if retry < retry_count {
                    Some(retry_delay)
                } else {
                    None
                }
            },
            JobRetry::Fibonacci { retry_count, retry_delay } => {
                if retry < retry_count {
                    let f = JobRetry::fibonacci(retry as usize);
                    Some(retry_delay * f)
                } else {
                    None
                }
            },
        }
    }
}

/// Whenever `retry` has reached the policy's own count, no further retry is
/// granted, for every kind.
pub proof fn lemma_retry_exhausted(r: JobRetry, retry: u16)
    requires
        retry >= r.spec_retry_count(),
    ensures
        r.spec_next_retry_in(retry) is None,
{
}

/// What a retry string means: `N` or `N|kind|D` (with `,` accepted for `|`),
/// the empty string meaning no retry, and two fields meaning `N` alone. The
/// kind must be `fixed`, `exponential` or `fibonacci` (the latter two both
/// select the fibonacci backoff); four or more fields, an unknown kind, or a
/// non-numeric count or delay are unparseable. Numbers are unsigned decimal
/// digits, without a sign.
pub open spec fn spec_parse_retry(s: Seq<char>) -> Option<JobRetry> {
    if s.len() == 0 {
        Some(JobRetry::Never)
    } else {
        let parts = split_seps(s, '|', ',');
        let first = parts[0];
        if !(first.len() > 0 && all_digits(first) && dec_value(first) <= u16::MAX) {
            None
        } else {
            let count = dec_value(first) as u16;
            if parts.len() <= 2 {
                Some(JobRetry::Immediate { retry_count: count })
            } else if parts.len() == 3 {
                let third = parts[2];
                if !(third.len() > 0 && all_digits(third) && dec_value(third) <= u32::MAX) {
                    None
                } else {
                    let delay = dec_value(third) as u32;
                    if parts[1] == "exponential"@ || parts[1] == "fibonacci"@ {
                        Some(JobRetry::Fibonacci { retry_count: count, retry_delay: delay })
                    } else if parts[1] == "fixed"@ {
                        Some(JobRetry::Fixed { retry_count: count, retry_delay: delay })
                    } else {
                        None
                    }
                }
            } else {
                None
            }
        }
    }
}

/// The canonical text of a policy; `parse` inverts it.
pub open spec fn spec_print_retry(r: JobRetry) -> Seq<char> {
    match r {
        JobRetry::Never => Seq::empty(),
        JobRetry::Immediate { retry_count } => dec_str(retry_count as nat),
        JobRetry::Fixed { retry_count, retry_delay } => dec_str(retry_count as nat) + "|fixed|"@
            + dec_str(retry_delay as nat),
        JobRetry::Fibonacci { retry_count, retry_delay } => dec_str(retry_count as nat)
            + "|fibonacci|"@ + dec_str(retry_delay as nat),
    }
}

impl JobRetry {
    /// Parses a retry directive.
    pub fn from_str(s: &str) -> (r: Result<JobRetry, Error>)
        ensures
            r is Ok <==> spec_parse_retry(s@) is Some,
            r matches Ok(v) ==> Some(v) == spec_parse_retry(s@),
            r matches Err(e) ==> e matches Error::InvalidParams(p) && p@ == "retry"@,
    {
        if s.is_empty() {
            return Ok(JobRetry::Never);
        }
        let parts = split_two_seps(s, '|', ',');
        let count = match parse_dec_u64(parts[0].as_str()) {
            Some(v) if v <= u16::MAX as u64 => v as u16,
            _ => {
                return Err(Error::InvalidParams("retry"));
            },
        };
        if parts.len() <= 2 {
            Ok(JobRetry::Immediate { retry_count: count })
        } else if parts.len() == 3 {
            let delay = match parse_dec_u64(parts[2].as_str()) {
                Some(v) if v <= u32::MAX as u64 => v as u32,
                _ => {
                    return Err(Error::InvalidParams("retry"));
                },
            };
            let expo = "exponential".to_owned();
            let fibo = "fibonacci".to_owned();
            let fixd = "fixed".to_owned();
            let kind = &parts[1];
            if *kind == expo || *kind == fibo {
                Ok(JobRetry::Fibonacci { retry_count: count, retry_delay: delay })
            } else if *kind == fixd {
                Ok(JobRetry::Fixed { retry_count: count, retry_delay: delay })
            } else {
                Err(Error::InvalidParams("retry"))
            }
        } else {
            Err(Error::InvalidParams("retry"))
        }
    }

    /// Renders the canonical text of this policy.
    pub fn to_string(&self) -> (r: String)
        ensures
            r@ == spec_print_retry(*self),
    {
        match self {
            JobRetry::Never => String::new(),
            JobRetry::Immediate { retry_count } => u64_to_string(*retry_count as u64),
            JobRetry::Fixed { retry_count, retry_delay } => {
                let a = u64_to_string(*retry_count as u64);
                let b = a.concat("|fixed|");
                b.concat(u64_to_string(*retry_delay as u64).as_str())
            },
            JobRetry::Fibonacci { retry_count, retry_delay } => {
                let a = u64_to_string(*retry_count as u64);
                let b = a.concat("|fibonacci|");
                b.concat(u64_to_string(*retry_delay as u64).as_str())
            },
        }
    }
}

/// No digit is a separator.
proof fn lemma_digits_not_seps(s: Seq<char>)
    requires
        all_digits(s),
    ensures
        forall|i: int| 0 <= i < s.len() ==> s[i] != '|' && #[trigger] s[i] != ',',
{
}

/// Printing a policy and parsing the text gives the policy back.
pub proof fn lemma_retry_round_trip(r: JobRetry)
    ensures
        spec_parse_retry(spec_print_retry(r)) == Some(r),
{
    reveal_strlit("|fixed|");
    reveal_strlit("|fibonacci|");
    reveal_strlit("exponential");
    reveal_strlit("fibonacci");
    reveal_strlit("fixed");
    match r {
        JobRetry::Never => {
        },
        JobRetry::Immediate { retry_count } => {
            let d = dec_str(retry_count as nat);
            lemma_dec_str_digits(retry_count as nat);
            lemma_dec_round_trip(retry_count as nat);
            lemma_digits_not_seps(d);
            lemma_split_no_sep(d, '|', ',');
            assert(split_seps(d, '|', ',') == seq![d]);
            assert(spec_parse_retry(d) == Some(r));
        },
        JobRetry::Fixed { retry_count, retry_delay } => {
            let a = dec_str(retry_count as nat);
            let c = dec_str(retry_delay as nat);
            let kind = "fixed"@;
            lemma_retry_print_three(retry_count, retry_delay, kind);
            let printed = a + "|fixed|"@ + c;
            assert(printed =~= a + seq!['|'] + (kind + seq!['|'] + c));
            assert(split_seps(printed, '|', ',') == seq![a, kind, c]);
            assert(kind.len() == 5 && "exponential"@.len() == 11 && "fibonacci"@.len() == 9);
            assert(printed.len() > 0);
            assert(spec_parse_retry(printed) == Some(r));
        },
        JobRetry::Fibonacci { retry_count, retry_delay } => {
            let a = dec_str(retry_count as nat);
            let c = dec_str(retry_delay as nat);
            let kind = "fibonacci"@;
            lemma_retry_print_three(retry_count, retry_delay, kind);
            let printed = a + "|fibonacci|"@ + c;
            assert(printed =~= a + seq!['|'] + (kind + seq!['|'] + c));
            assert(split_seps(printed, '|', ',') == seq![a, kind, c]);
            assert(printed.len() > 0);
            assert(spec_parse_retry(printed) == Some(r));
        },
    }
}

/// The printed three-field form splits back into its three fields.
proof fn lemma_retry_print_three(count: u16, delay: u32, kind: Seq<char>)
    requires
        forall|i: int| 0 <= i < kind.len() ==> kind[i] != '|' && #[trigger] kind[i] != ',',
    ensures
        split_seps(dec_str(count as nat) + seq!['|'] + (kind + seq!['|'] + dec_str(delay as nat)), '|', ',')
            =~~= seq![dec_str(count as nat), kind, dec_str(delay as nat)],
        dec_str(count as nat) + seq!['|'] + (kind + seq!['|'] + dec_str(delay as nat)) =~= dec_str(
            count as nat,
        ) + (seq!['|'] + kind + seq!['|']) + dec_str(delay as nat),
        all_digits(dec_str(count as nat)),
        all_digits(dec_str(delay as nat)),
        dec_str(count as nat).len() > 0,
        dec_str(delay as nat).len() > 0,
        dec_value(dec_str(count as nat)) == count,
        dec_value(dec_str(delay as nat)) == delay,
{
    let a = dec_str(count as nat);
    let c = dec_str(delay as nat);
    lemma_dec_str_digits(count as nat);
    lemma_dec_round_trip(count as nat);
    lemma_dec_str_digits(delay as nat);
    lemma_dec_round_trip(delay as nat);
    lemma_digits_not_seps(a);
    lemma_digits_not_seps(c);
    let tail = kind + seq!['|'] + c;
    lemma_split_at_sep(a, tail, '|', '|', ',');
    lemma_split_at_sep(kind, c, '|', '|', ',');
    lemma_split_no_sep(c, '|', ',');
}

} // verus!
