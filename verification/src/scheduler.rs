//! Host-side schedules: a small cron-like cadence parser and trigger targets.
//!
//! Supported cadences: `@every 10s`, `@every 5m`, `@every 1h` (a bare number
//! means seconds), `* * * * *` (every minute) and `*/N * * * *` (every N
//! minutes).

use vstd::prelude::*;
use crate::paths::{join_path, path_join};
use crate::text::{
    lemma_trim_idempotent,
    chars_of, copy_range, is_digit, parse_u64, parse_u64_spec, push_chars, split_whitespace, split_ws,
    starts_with, string_of, trim, trim_bounds,
};

verus! {

/// Scheduler errors.
#[derive(Debug, PartialEq)]
pub enum ScheduleError {
    /// The text is no supported cron cadence.
    InvalidCron(String),
    /// The duration after `@every ` is malformed.
    InvalidDuration(String),
    /// Loading or saving the trace failed (the host's error message).
    Trace(String),
}

/// What parsing a cadence gives, as mathematical values.
pub enum CronOutcome {
    Parsed { source: Seq<char>, secs: int },
    InvalidCron(Seq<char>),
    InvalidDuration(Seq<char>),
}

/// The characters `@every `.
pub open spec fn every_prefix() -> Seq<char> {
    seq!['@', 'e', 'v', 'e', 'r', 'y', ' ']
}

/// The larger of `n` and 1.
pub open spec fn at_least_one(n: int) -> int {
    if n < 1 {
        1
    } else {
        n
    }
}

/// The seconds a duration text denotes: digits with an optional unit suffix
/// `s`, `m` or `h` (none means seconds); zero counts as one.
pub open spec fn duration_secs(input: Seq<char>) -> Option<int> {
    if input.len() == 0 {
        None
    } else {
        let c = input.last();
        let number = if is_digit(c) {
            input
        } else {
            input.drop_last()
        };
        let mult: int = if c == 's' {
            1
        } else if c == 'm' {
            60
        } else if c == 'h' {
            3600
        } else {
            1
        };
        if !(c == 's' || c == 'm' || c == 'h' || is_digit(c)) {
            None
        } else {
            match parse_u64_spec(number) {
                Some(n) => Some(at_least_one(n as int) * mult),
                None => None,
            }
        }
    }
}

/// What `CronExpr::parse` yields for `input`.
pub open spec fn cron_outcome(input: Seq<char>) -> CronOutcome {
    let source = trim(input);
    if source.len() >= 7 && source.take(7) == every_prefix() {
        let rest = trim(source.skip(7));
        match duration_secs(rest) {
            Some(d) => CronOutcome::Parsed { source, secs: d },
            None => CronOutcome::InvalidDuration(rest),
        }
    } else {
        let fields = split_ws(source);
        if fields.len() == 5 && (forall|i: int| 1 <= i < 5 ==> #[trigger] fields[i] == seq!['*']) {
            let f0 = fields[0];
            if f0 == seq!['*'] {
                CronOutcome::Parsed { source, secs: 60 }
            } else if f0.len() >= 2 && f0.take(2) == seq!['*', '/'] {
                match parse_u64_spec(f0.skip(2)) {
                    Some(m) => CronOutcome::Parsed { source, secs: at_least_one(m as int) * 60 },
                    None => CronOutcome::InvalidCron(source),
                }
            } else {
                CronOutcome::InvalidCron(source)
            }
        } else {
            CronOutcome::InvalidCron(source)
        }
    }
}

/// Whether the interval `input` denotes (if it parses) fits in `u64` seconds.
pub open spec fn cron_fits(input: Seq<char>) -> bool {
    match cron_outcome(input) {
        CronOutcome::Parsed { secs, .. } => secs <= u64::MAX,
        _ => true,
    }
}

/// A supported cron cadence: its trimmed source text and interval.
#[derive(Debug, PartialEq)]
pub struct CronExpr {
    source: String,
    interval: u64,
}

impl CronExpr {
    /// The trimmed expression text.
    pub closed spec fn source_chars(&self) -> Seq<char> {
        self.source@
    }

    /// The interval in seconds.
    pub closed spec fn interval_secs(&self) -> nat {
        self.interval as nat
    }

    /// Parse a supported cron cadence. An interval too large for `u64`
    /// seconds is left out (the arithmetic would overflow).
    pub fn parse(input: &str) -> (r: Result<CronExpr, ScheduleError>)
        requires
            cron_fits(input@),
        ensures
            parse_outcome(r) == cron_outcome(input@),
            !(r matches Err(ScheduleError::Trace(_))),
    {
        match Self::parse_checked(input) {
            Some(r) => r,
            None => Err(ScheduleError::InvalidCron(String::new())),
        }
    }

    /// Whether the interval `input` denotes is too large for `u64` seconds
    /// (then `parse` must not be called on it).
    pub fn interval_overflows(input: &str) -> (b: bool)
        ensures
            b == !cron_fits(input@),
    {
        Self::parse_checked(input).is_none()
    }

    /// Parses `input`, or gives `None` when the interval overflows `u64`.
    fn parse_checked(input: &str) -> (r: Option<Result<CronExpr, ScheduleError>>)
        ensures
            r is None <==> !cron_fits(input@),
            r matches Some(res) ==> parse_outcome(res) == cron_outcome(input@) && !(res matches Err(ScheduleError::Trace(_))),
    {
        let all = chars_of(input);
        let (lo, hi) = trim_bounds(&all);
        let src = copy_range(&all, lo, hi);
        let source = string_of(&src);
        let prefix: Vec<char> = vec!['@', 'e', 'v', 'e', 'r', 'y', ' '];
        assert(prefix@ =~= every_prefix());
        if starts_with(&src, &prefix) {
            let rest_all = copy_range(&src, 7, src.len());
            let (rlo, rhi) = trim_bounds(&rest_all);
            let rest = copy_range(&rest_all, rlo, rhi);
            assert(rest_all@ =~= src@.skip(7));
            return match parse_duration(&rest) {
                DurationParse::Secs(secs) => Some(Ok(CronExpr { source, interval: secs })),
                DurationParse::Invalid => Some(Err(ScheduleError::InvalidDuration(string_of(&rest)))),
                DurationParse::Overflow => None,
            };
        }
        let fields = split_whitespace(&src);
        proof {
            assert(fields@.len() == split_ws(src@).len());
        }
        let ghost fv = fields@.map_values(|w: Vec<char>| w@);
        if fields.len() == 5 && fields[1].len() == 1 && fields[1][0] == '*' && fields[2].len() == 1
            && fields[2][0] == '*' && fields[3].len() == 1 && fields[3][0] == '*' && fields[4].len()
            == 1 && fields[4][0] == '*' {
            proof {
                assert forall|i: int| 1 <= i < 5 implies #[trigger] fv[i] == seq!['*'] by {
                    assert(fv[i] == fields@[i]@);
                    assert(fields@[i]@ =~= seq!['*']);
                }
            }
            let f0 = &fields[0];
            assert(fv[0] == f0@);
            if f0.len() == 1 && f0[0] == '*' {
                assert(f0@ =~= seq!['*']);
                return Some(Ok(CronExpr { source, interval: 60 }));
            }
            assert(f0@ != seq!['*']);
            let star_slash: Vec<char> = vec!['*', '/'];
            assert(star_slash@ =~= seq!['*', '/']);
            if starts_with(f0, &star_slash) {
                let digits = copy_range(f0, 2, f0.len());
                assert(digits@ =~= f0@.skip(2));
                return match parse_u64(&digits) {
                    Some(m) => {
                        let minutes: u64 = if m < 1 {
                            1
                        } else {
                            m
                        };
                        match minutes.checked_mul(60) {
                            Some(secs) => Some(Ok(CronExpr { source, interval: secs })),
                            None => None,
                        }
                    },
                    None => Some(Err(ScheduleError::InvalidCron(source))),
                };
            }
            return Some(Err(ScheduleError::InvalidCron(source)));
        }
        proof {
            if fv.len() == 5 && (forall|i: int| 1 <= i < 5 ==> #[trigger] fv[i] == seq!['*']) {
                assert(fv[1] == fields@[1]@);
                assert(fv[2] == fields@[2]@);
                assert(fv[3] == fields@[3]@);
                assert(fv[4] == fields@[4]@);
                assert(fv[1] == seq!['*']);
                assert(fv[2] == seq!['*']);
                assert(fv[3] == seq!['*']);
                assert(fv[4] == seq!['*']);
                assert(false);
            }
        }
        Some(Err(ScheduleError::InvalidCron(source)))
    }

    /// The interval in seconds. The scheduler sleeps this long between fires.
    pub fn interval(&self) -> (r: u64)
        ensures
            r == self.interval_secs(),
    {
        self.interval
    }

    /// The trimmed user-facing expression.
    pub fn source(&self) -> (r: &str)
        ensures
            r@ == self.source_chars(),
    {
        self.source.as_str()
    }
}

/// The outcome a parse result stands for.
pub open spec fn parse_outcome(r: Result<CronExpr, ScheduleError>) -> CronOutcome {
    match r {
        Ok(c) => CronOutcome::Parsed { source: c.source_chars(), secs: c.interval_secs() as int },
        Err(ScheduleError::InvalidCron(s)) => CronOutcome::InvalidCron(s@),
        Err(ScheduleError::InvalidDuration(s)) => CronOutcome::InvalidDuration(s@),
        Err(ScheduleError::Trace(s)) => CronOutcome::InvalidCron(seq![]),
    }
}

/// The result of reading a duration text.
enum DurationParse {
    Secs(u64),
    Invalid,
    Overflow,
}

/// Parses a duration text into seconds.
fn parse_duration(input: &Vec<char>) -> (r: DurationParse)
    ensures
        match duration_secs(input@) {
            Some(d) => if d <= u64::MAX {
                r == DurationParse::Secs(d as u64)
            } else {
                r is Overflow
            },
            None => r is Invalid,
        },
{
    if input.len() == 0 {
        return DurationParse::Invalid;
    }
    let c = input[input.len() - 1];
    let number: Vec<char>;
    let mult: u64;
    if c == 's' {
        number = copy_range(input, 0, input.len() - 1);
        mult = 1;
    } else if c == 'm' {
        number = copy_range(input, 0, input.len() - 1);
        mult = 60;
    } else if c == 'h' {
        number = copy_range(input, 0, input.len() - 1);
        mult = 3600;
    } else if '0' <= c && c <= '9' {
        number = copy_range(input, 0, input.len());
        mult = 1;
    } else {
        return DurationParse::Invalid;
    }
    assert(input@.subrange(0, input@.len() - 1) =~= input@.drop_last());
    assert(input@.subrange(0, input@.len() as int) =~= input@);
    match parse_u64(&number) {
        Some(n) => {
            let n1: u64 = if n < 1 {
                1
            } else {
                n
            };
            match n1.checked_mul(mult) {
                Some(secs) => DurationParse::Secs(secs),
                None => DurationParse::Overflow,
            }
        },
        None => DurationParse::Invalid,
    }
}

/// Where a scheduled fire writes or continues its trace.
#[derive(Debug, PartialEq)]
pub enum TriggerTarget {
    /// Resume this exact trace if it exists; otherwise the fire fails.
    ResumeExisting { trace: String },
    /// The trace `<name>.trace.json` under `dir`: resumed if it exists,
    /// otherwise a new persistent session starts there.
    NamedPersistent { dir: String, name: String },
    /// Start a fresh session and write it to this path.
    FreshSession { trace: String },
}

/// The characters `.trace.json`.
pub open spec fn trace_suffix() -> Seq<char> {
    seq!['.', 't', 'r', 'a', 'c', 'e', '.', 'j', 's', 'o', 'n']
}

/// The trace path a target maps to.
pub open spec fn target_path(t: TriggerTarget) -> Seq<char> {
    match t {
        TriggerTarget::ResumeExisting { trace } => trace@,
        TriggerTarget::FreshSession { trace } => trace@,
        TriggerTarget::NamedPersistent { dir, name } => path_join(dir@, name@ + trace_suffix()),
    }
}

impl TriggerTarget {
    /// The trace path this target maps to for the current fire.
    pub fn trace_path(&self) -> (r: String)
        ensures
            r@ == target_path(*self),
    {
        match self {
            TriggerTarget::ResumeExisting { trace } => trace.clone(),
            TriggerTarget::FreshSession { trace } => trace.clone(),
            TriggerTarget::NamedPersistent { dir, name } => {
                let mut file = name.clone();
                let suffix: Vec<char> = vec!['.', 't', 'r', 'a', 'c', 'e', '.', 'j', 's', 'o', 'n'];
                push_chars(&mut file, &suffix, 0, suffix.len());
                assert(suffix@.subrange(0, suffix@.len() as int) =~= trace_suffix());
                join_path(dir.as_str(), file.as_str())
            },
        }
    }

    /// Whether a fire resumes the stored trace rather than starting fresh,
    /// given whether the trace file exists: `ResumeExisting` always resumes
    /// (and fails when the file is missing), `NamedPersistent` resumes when
    /// the file exists, `FreshSession` never does.
    pub fn resumes(&self, trace_exists: bool) -> (r: bool)
        ensures
            r == match *self {
                TriggerTarget::ResumeExisting { .. } => true,
                TriggerTarget::NamedPersistent { .. } => trace_exists,
                TriggerTarget::FreshSession { .. } => false,
            },
    {
        match self {
            TriggerTarget::ResumeExisting { .. } => true,
            TriggerTarget::NamedPersistent { .. } => trace_exists,
            TriggerTarget::FreshSession { .. } => false,
        }
    }
}

/// A host schedule: cadence, target and prompt.
#[derive(Debug, PartialEq)]
pub struct Schedule {
    pub cron: CronExpr,
    pub target: TriggerTarget,
    pub prompt: String,
}

impl Schedule {
    pub fn new(cron: CronExpr, target: TriggerTarget, prompt: String) -> (s: Schedule)
        ensures
            s.cron == cron,
            s.target == target,
            s.prompt == prompt,
    {
        Schedule { cron, target, prompt }
    }
}

// ---------------------------------------------------------------------------
// Laws
// ---------------------------------------------------------------------------

/// Whitespace around a cadence does not change what it parses to.
pub proof fn law_parse_ignores_surrounding_whitespace(s: Seq<char>)
    ensures
        cron_outcome(trim(s)) == cron_outcome(s),
{
    lemma_trim_idempotent(s);
}

/// The source of a parsed cadence is its input trimmed, and parsing that
/// source yields the same cadence.
pub proof fn law_source_reparses(s: Seq<char>)
    ensures
        cron_outcome(s) matches CronOutcome::Parsed { source, secs } ==> source == trim(s) && cron_outcome(source)
            == cron_outcome(s),
{
    lemma_trim_idempotent(s);
}

/// Every parsed cadence fires at least once per second, and a minute-based
/// cadence is a whole number of minutes.
pub proof fn law_interval_positive(s: Seq<char>)
    ensures
        cron_outcome(s) matches CronOutcome::Parsed { secs, .. } ==> secs >= 1,
        cron_outcome(s) matches CronOutcome::Parsed { secs, .. } ==> !(trim(s).len() >= 7 && trim(
            s,
        ).take(7) == every_prefix()) ==> secs % 60 == 0,
{
}

} // verus!
