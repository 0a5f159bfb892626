//! The recurring schedule: a cron expression, validated once at startup, that
//! yields the instants at which dispatch fires. Instants are Unix timestamps
//! in whole seconds, UTC. Parsing the expression and computing the next
//! occurrence come from the cron crate through trusted wrappers; the sleep
//! arithmetic around them is verified, and the suspension itself runs with the
//! caller.

use crate::errors::ScheduleParseError;
use vstd::prelude::*;

verus! {

/// The last whole second the date library can represent. cron begins its
/// search one second past the instant it is given, so occurrence queries must
/// stop short of this bound: a machine limit, not a property of any schedule.
pub const MAX_SCHEDULE_INSTANT: i64 = 8_210_266_876_799;

/// Whether a recurring-schedule expression parses: what
/// `cron::Schedule::from_str` accepts, a function of the text alone.
pub uninterp spec fn cron_valid(expr: Seq<char>) -> bool;

/// The first instant matching the expression strictly after the given one, as
/// a Unix timestamp in whole seconds, or nothing when the schedule yields no
/// further occurrence.
pub uninterp spec fn cron_next(expr: Seq<char>, now: i64) -> Option<i64>;

/// Relies on `cron::Schedule::from_str`: whether an expression parses is a
/// function of its text alone ([`cron_valid`]); a refusal carries the parse
/// error's message.
#[verifier::external_body]
fn parse_schedule(expr: &str) -> (r: Result<(), String>)
    ensures
        r is Ok <==> cron_valid(expr@),
{
    match <cron::Schedule as std::str::FromStr>::from_str(expr) {
        Ok(_) => Ok(()),
        Err(e) => Err(e.to_string()),
    }
}

/// Relies on `cron::Schedule::after` over the parsed expression, with chrono
/// timestamp conversions at both ends: the next matching instant is a function
/// of the expression and the instant alone ([`cron_next`]), and cron starts
/// its search one second past the given instant, so whatever instant comes
/// back is strictly later than `now`. At [`MAX_SCHEDULE_INSTANT`] itself that
/// one-second step would overflow the date library and abort, so the bound is
/// required; past it the timestamp conversion fails and the call is refused
/// before cron runs.
#[verifier::external_body]
fn next_occurrence_of(expr: &str, now: i64) -> (r: Option<i64>)
    requires
        cron_valid(expr@),
        now < MAX_SCHEDULE_INSTANT,
    ensures
        r == cron_next(expr@, now),
        r matches Some(t) ==> t > now,
{
    let schedule = <cron::Schedule as std::str::FromStr>::from_str(expr).ok()?;
    let now_dt = chrono::DateTime::<chrono::Utc>::from_timestamp(now, 0)?;
    let next = schedule.after(&now_dt).next()?;
    Some(next.timestamp())
}

/// The seconds to sleep from `now` until the occurrence at `at`: an occurrence
/// already passed, or due this very second, sleeps zero and fires immediately.
pub open spec fn sleep_duration(now: i64, at: i64) -> u64 {
    if at > now {
        (at - now) as u64
    } else {
        0
    }
}

/// Compute [`sleep_duration`]: the wait until an occurrence, never negative.
pub fn seconds_until(now: i64, at: i64) -> (d: u64)
    ensures
        d == sleep_duration(now, at),
{
    if at > now {
        let diff: i128 = at as i128 - now as i128;
        proof {
            assert(0 < diff <= u64::MAX as i128);
        }
        diff as u64
    } else {
        0
    }
}

/// One turn of the dispatch loop.
#[derive(Debug, Clone, PartialEq, Eq)]
pub enum SchedulerStep {
    /// Sleep `sleep_secs` seconds, then fire the dispatcher: the tick at `at`.
    Fire { at: i64, sleep_secs: u64 },
    /// The expression yields no further occurrence: the loop ends.
    Exhausted,
}

/// A validated recurring schedule. It can only be built from an expression
/// that parses, so every occurrence query on it is meaningful.
pub struct Scheduler {
    expr: String,
}

impl View for Scheduler {
    type V = Seq<char>;

    /// A schedule is identified by its expression text.
    closed spec fn view(&self) -> Seq<char> {
        self.expr@
    }
}

impl Scheduler {
    /// The expression parses: established at construction, kept ever after.
    #[verifier::type_invariant]
    spec fn valid_expression(self) -> bool {
        cron_valid(self.expr@)
    }

    /// Validate the expression once, at startup: a schedule is built exactly
    /// when the expression parses, and a malformed one fails fast with a
    /// descriptive error, before any loop starts.
    pub fn new(expr: String) -> (r: Result<Scheduler, ScheduleParseError>)
        ensures
            r matches Ok(s) ==> s@ == expr@ && cron_valid(expr@),
            r is Err <==> !cron_valid(expr@),
    {
        match parse_schedule(expr.as_str()) {
            Ok(_) => Ok(Scheduler { expr }),
            Err(message) => Err(ScheduleParseError { message }),
        }
    }

    /// The next instant at which the schedule fires strictly after `now`, or
    /// nothing when the schedule has run out.
    pub fn next_occurrence(&self, now: i64) -> (r: Option<i64>)
        requires
            now < MAX_SCHEDULE_INSTANT,
        ensures
            r == cron_next(self@, now),
            r matches Some(t) ==> t > now,
    {
        proof {
            use_type_invariant(self);
        }
        next_occurrence_of(self.expr.as_str(), now)
    }

    /// Plan one turn of the dispatch loop at instant `now`: how long to sleep
    /// and when the tick fires, or that the schedule is exhausted and the
    /// loop ends. An occurrence computed as already due fires without
    /// sleeping.
    pub fn plan_tick(&self, now: i64) -> (step: SchedulerStep)
        requires
            now < MAX_SCHEDULE_INSTANT,
        ensures
            cron_next(self@, now) is None ==> step == SchedulerStep::Exhausted,
            cron_next(self@, now) matches Some(t) ==> step == (SchedulerStep::Fire {
                at: t,
                sleep_secs: sleep_duration(now, t),
            }),
    {
        match self.next_occurrence(now) {
            Some(at) => {
                let sleep_secs = seconds_until(now, at);
                SchedulerStep::Fire { at, sleep_secs }
            },
            None => SchedulerStep::Exhausted,
        }
    }
}

} // verus!
