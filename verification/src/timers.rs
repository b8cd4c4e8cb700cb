//! Timers: what the command-line arguments plan, and the state of a running
//! timer measured against the current instant.
//!
//! Instants are counted in nanoseconds since the Unix epoch.

use vstd::prelude::*;
use crate::duration::{
    default_label, duration_fits, duration_part, duration_seconds, label_part,
    parse_labeled_duration, try_parse_labeled_duration, DurationPattern,
};
use crate::text::{decimal_digits, push_decimal, push_str_chars, string_from_chars, trim_chars};

verus! {

/// At most this many timers are planned from the arguments.
pub const MAX_TIMERS: usize = 10;

/// The largest number of whole seconds that chrono's `TimeDelta::from_std`
/// accepts: its maximum is `i64::MAX` milliseconds.
pub const MAX_DELTA_SECONDS: u64 = 9223372036854775;

/// The offset a timer whose duration chrono cannot hold ends at: ten years of
/// 365 days, in milliseconds.
pub const FALLBACK_OFFSET_MILLIS: i64 = 315360000000;

/// Instants that this library handles lie within this many nanoseconds of
/// the Unix epoch (chrono's dates reach about 8.3e21 ns from it).
pub const INSTANT_BOUND: i128 = 10000000000000000000000;

/// Calls chrono's `TimeDelta::from_std` on a std duration of `secs` seconds
/// and reads the result back with `num_milliseconds`. Per chrono's source the
/// conversion fails exactly when the seconds exceed `i64::MAX / 1000`, and a
/// whole number of seconds converts to that many thousand milliseconds.
#[verifier::external_body]
fn chrono_delta_millis(secs: u64) -> (r: Option<i64>)
    ensures
        match r {
            Some(ms) => secs <= MAX_DELTA_SECONDS && ms == secs * 1000,
            None => secs > MAX_DELTA_SECONDS,
        },
{
    match chrono::TimeDelta::from_std(std::time::Duration::from_secs(secs)) {
        Ok(d) => Some(d.num_milliseconds()),
        Err(_) => None,
    }
}

/// The offset from the start at which a timer of `secs` seconds ends.
pub open spec fn end_offset(secs: u64) -> int {
    if secs <= MAX_DELTA_SECONDS {
        secs * 1000
    } else {
        FALLBACK_OFFSET_MILLIS as int
    }
}

/// The offset in milliseconds from the start at which a timer of `secs`
/// seconds ends: the duration itself where chrono's time delta can hold it,
/// and ten years otherwise.
pub fn end_offset_millis(secs: u64) -> (ms: i64)
    ensures
        ms == end_offset(secs),
{
    match chrono_delta_millis(secs) {
        Some(ms) => ms,
        None => FALLBACK_OFFSET_MILLIS,
    }
}

/// The name of the `n`-th task: `Task n`.
pub open spec fn task_label(n: nat) -> Seq<char> {
    seq!['T', 'a', 's', 'k', ' '] + decimal_digits(n)
}

/// The label of the timer at position `i` whose argument gave `label`: a
/// later timer without a label of its own is called `Task i+1`.
pub open spec fn timer_label(i: int, label: Seq<char>) -> Seq<char> {
    if i > 0 && label == default_label() {
        task_label((i + 1) as nat)
    } else {
        label
    }
}

/// What one argument plans: a timer's label, its length, and the offset from
/// the start at which it ends.
pub struct TimerPlan {
    pub label: String,
    pub total_secs: u64,
    pub offset_millis: i64,
}

/// The number of timers the arguments give.
pub open spec fn planned_count(n: nat) -> nat {
    if n < MAX_TIMERS { n } else { MAX_TIMERS as nat }
}

/// True when every planned argument's duration fits in a `u64`.
pub open spec fn arguments_fit(args: Seq<String>) -> bool {
    forall|i: int| 0 <= i < planned_count(args.len()) ==> duration_fits(
        duration_part(#[trigger] args[i]@),
    )
}

/// True when `plan` is what the argument `arg` at position `i` gives.
pub open spec fn plans_argument(plan: TimerPlan, i: int, arg: Seq<char>) -> bool {
    &&& plan.label@ == timer_label(i, label_part(arg))
    &&& plan.total_secs == duration_seconds(duration_part(arg))
    &&& plan.offset_millis == end_offset(plan.total_secs)
}

/// The label of the timer at position `i`.
fn name_timer(i: usize, label: String) -> (r: String)
    requires
        i < MAX_TIMERS,
    ensures
        r@ == timer_label(i as int, label@),
{
    let default = crate::duration::default_label_string();
    if i > 0 && label == default {
        let mut v: Vec<char> = Vec::new();
        push_str_chars(&mut v, "Task ");
        proof {
            reveal_strlit("Task ");
        }
        push_decimal(&mut v, (i + 1) as u64);
        assert(v@ =~= task_label((i + 1) as nat));
        string_from_chars(&v)
    } else {
        label
    }
}

/// Plans the timers of the command-line arguments: the first ten arguments,
/// in order, each parsed as `label:duration` (see
/// [`parse_labeled_duration`]), where a later timer without a label is named
/// `Task n` after its position `n`.
pub fn parse_timers(pattern: &DurationPattern, args: &Vec<String>) -> (plans: Vec<TimerPlan>)
    requires
        arguments_fit(args@),
    ensures
        plans@.len() == planned_count(args@.len()),
        forall|i: int| 0 <= i < plans@.len() ==> plans_argument(#[trigger] plans@[i], i, args@[i]@),
{
    let n = if args.len() < MAX_TIMERS { args.len() } else { MAX_TIMERS };
    let mut plans: Vec<TimerPlan> = Vec::new();
    let mut i: usize = 0;
    while i < n
        invariant
            i <= n,
            n == planned_count(args@.len()),
            arguments_fit(args@),
            plans@.len() == i,
            forall|j: int| 0 <= j < i ==> plans_argument(#[trigger] plans@[j], j, args@[j]@),
        decreases n - i,
    {
        assert(duration_fits(duration_part(args@[i as int]@)));
        let (label, secs) = parse_labeled_duration(pattern, args[i].as_str());
        let label = name_timer(i, label);
        let offset = end_offset_millis(secs);
        plans.push(TimerPlan { label, total_secs: secs, offset_millis: offset });
        i = i + 1;
    }
    plans
}

/// Planned timers are named as their arguments say: a timer after the first
/// whose argument has no `':'` is called `Task n`, where `n` is its position
/// counted from one, and the first such timer is called `Timer`; a timer
/// whose argument has a non-blank text before its first `':'` carries that
/// text, trimmed, wherever it stands.
pub proof fn lemma_task_names(args: Seq<String>, plans: Seq<TimerPlan>)
    requires
        plans.len() <= args.len(),
        forall|i: int| 0 <= i < plans.len() ==> plans_argument(#[trigger] plans[i], i, args[i]@),
    ensures
        forall|i: int|
            0 < i < plans.len() && !args[i]@.contains(':') ==> (#[trigger] plans[i]).label@ == seq![
                'T',
                'a',
                's',
                'k',
                ' ',
            ] + decimal_digits((i + 1) as nat),
        plans.len() > 0 && !args[0]@.contains(':') ==> plans[0].label@ == seq!['T', 'i', 'm', 'e', 'r'],
        forall|i: int, k: int|
            0 <= i < plans.len() && 0 <= k < args[i]@.len() && args[i]@[k] == ':' && (forall|j: int|
                0 <= j < k ==> args[i]@[j] != ':') && trim_chars(args[i]@.take(k)).len() > 0
                && trim_chars(args[i]@.take(k)) != seq!['T', 'i', 'm', 'e', 'r'] ==> (
            #[trigger] plans[i]).label@ == trim_chars(#[trigger] args[i]@.take(k)),
{
    assert forall|i: int| 0 <= i < plans.len() && !args[i]@.contains(':') implies label_part(args[i]@)
        == seq!['T', 'i', 'm', 'e', 'r'] by {
        args[i]@.index_of_first_ensures(':');
        assert(default_label() =~= seq!['T', 'i', 'm', 'e', 'r']);
    }
    assert forall|i: int, k: int|
        0 <= i < plans.len() && 0 <= k < args[i]@.len() && args[i]@[k] == ':' && (forall|j: int|
            0 <= j < k ==> args[i]@[j] != ':') && trim_chars(args[i]@.take(k)).len() > 0
            && trim_chars(args[i]@.take(k)) != seq!['T', 'i', 'm', 'e', 'r'] implies (
        #[trigger] plans[i]).label@ == trim_chars(#[trigger] args[i]@.take(k)) by {
        args[i]@.index_of_first_ensures(':');
        assert(args[i]@.contains(':'));
        assert(default_label() =~= seq!['T', 'i', 'm', 'e', 'r']);
    }
}

/// The first ten arguments, and no more, are planned; a timer ends its
/// length in milliseconds after the start where that is at most `i64::MAX`
/// milliseconds, and ten years of 365 days after it otherwise.
pub proof fn lemma_plan_sizes(args: Seq<String>, plans: Seq<TimerPlan>)
    requires
        plans.len() == planned_count(args.len()),
        forall|i: int| 0 <= i < plans.len() ==> plans_argument(#[trigger] plans[i], i, args[i]@),
    ensures
        plans.len() == (if args.len() < 10 { args.len() } else { 10 }),
        forall|i: int|
            0 <= i < plans.len() ==> (#[trigger] plans[i]).offset_millis == (if plans[i].total_secs * 1000
                <= i64::MAX { plans[i].total_secs * 1000 } else { 315360000000 }),
{
    assert forall|i: int| 0 <= i < plans.len() implies (#[trigger] plans[i]).offset_millis == (if plans[i].total_secs
        * 1000 <= i64::MAX { plans[i].total_secs * 1000 } else { 315360000000 }) by {
        let t = plans[i].total_secs as int;
        assert(t <= 9223372036854775 <==> t * 1000 <= i64::MAX);
    }
}

/// [`parse_timers`] where every planned argument's duration fits in a `u64`,
/// and `None` where one does not.
pub fn try_parse_timers(pattern: &DurationPattern, args: &Vec<String>) -> (r: Option<Vec<TimerPlan>>)
    ensures
        match r {
            Some(plans) => {
                &&& arguments_fit(args@)
                &&& plans@.len() == planned_count(args@.len())
                &&& forall|i: int|
                    0 <= i < plans@.len() ==> plans_argument(#[trigger] plans@[i], i, args@[i]@)
            },
            None => !arguments_fit(args@),
        },
{
    let n = if args.len() < MAX_TIMERS { args.len() } else { MAX_TIMERS };
    let mut i: usize = 0;
    while i < n
        invariant
            i <= n,
            n == planned_count(args@.len()),
            forall|j: int| 0 <= j < i ==> duration_fits(duration_part(#[trigger] args@[j]@)),
        decreases n - i,
    {
        match try_parse_labeled_duration(pattern, args[i].as_str()) {
            Some(_) => {},
            None => {
                return None;
            },
        }
        i = i + 1;
    }
    Some(parse_timers(pattern, args))
}

/// A running timer: its label, its length in seconds, the instant at which it
/// ends, and whether its completion has been announced.
#[derive(Clone, Debug)]
pub struct TimerState {
    pub label: String,
    pub total_secs: u64,
    pub end_nanos: i128,
    pub alert_triggered: bool,
}

/// True for an instant this library handles.
pub open spec fn valid_instant(t: i128) -> bool {
    -INSTANT_BOUND <= t <= INSTANT_BOUND
}

/// Division that rounds toward zero, as chrono's whole-unit readings of a
/// signed time span do.
pub open spec fn div_toward_zero(a: int, d: int) -> int {
    if a >= 0 {
        a / d
    } else {
        -((-a) / d)
    }
}

/// The whole milliseconds from `now` until the timer ends (negative once it
/// has ended).
pub open spec fn remaining_ms(state: TimerState, now: i128) -> int {
    div_toward_zero(state.end_nanos - now, 1000000)
}

/// The whole seconds from `now` until the timer ends.
pub open spec fn remaining_s(state: TimerState, now: i128) -> int {
    div_toward_zero(state.end_nanos - now, 1000000000)
}

/// True once the timer has less than a whole millisecond left.
pub open spec fn is_expired(state: TimerState, now: i128) -> bool {
    remaining_ms(state, now) <= 0
}

/// `a / d` rounded toward zero, for a span `a` within twice the instant bound.
fn span_toward_zero(a: i128, d: i128) -> (q: i64)
    requires
        -2 * INSTANT_BOUND <= a <= 2 * INSTANT_BOUND,
        d == 1000000 || d == 1000000000,
    ensures
        q == div_toward_zero(a as int, d as int),
{
    if a >= 0 {
        (a / d) as i64
    } else {
        let m: i128 = 0 - a;
        let q: i128 = m / d;
        (0 - q) as i64
    }
}

impl TimerState {
    /// The whole milliseconds left until the timer ends, as chrono's
    /// `num_milliseconds` reads the span from `now` to the end.
    pub fn remaining_millis(&self, now: i128) -> (ms: i64)
        requires
            valid_instant(self.end_nanos),
            valid_instant(now),
        ensures
            ms == remaining_ms(*self, now),
    {
        span_toward_zero(self.end_nanos - now, 1000000)
    }

    /// The whole seconds left until the timer ends, as chrono's
    /// `num_seconds` reads the span from `now` to the end.
    pub fn remaining_secs(&self, now: i128) -> (s: i64)
        requires
            valid_instant(self.end_nanos),
            valid_instant(now),
        ensures
            s == remaining_s(*self, now),
    {
        span_toward_zero(self.end_nanos - now, 1000000000)
    }

    /// True once the timer has less than a whole millisecond left.
    pub fn expired(&self, now: i128) -> (b: bool)
        requires
            valid_instant(self.end_nanos),
            valid_instant(now),
        ensures
            b == is_expired(*self, now),
    {
        self.remaining_millis(now) <= 0
    }
}

proof fn lemma_div_toward_zero_monotone(a: int, b: int, d: int)
    requires
        a <= b,
        d > 0,
    ensures
        div_toward_zero(a, d) <= div_toward_zero(b, d),
{
    if a >= 0 {
        assert(a / d <= b / d) by (nonlinear_arith)
            requires
                0 <= a <= b,
                d > 0,
        ;
    } else if b >= 0 {
        assert(0 <= b / d) by (nonlinear_arith)
            requires
                0 <= b,
                d > 0,
        ;
        assert(0 <= (-a) / d) by (nonlinear_arith)
            requires
                0 <= -a,
                d > 0,
        ;
    } else {
        assert((-b) / d <= (-a) / d) by (nonlinear_arith)
            requires
                0 <= -b <= -a,
                d > 0,
        ;
    }
}

/// Timers count down: as time passes the milliseconds and seconds left never
/// grow, and a timer that has expired stays expired.
pub proof fn lemma_countdown(state: TimerState, earlier: i128, later: i128)
    requires
        earlier <= later,
    ensures
        remaining_ms(state, later) <= remaining_ms(state, earlier),
        remaining_s(state, later) <= remaining_s(state, earlier),
        is_expired(state, earlier) ==> is_expired(state, later),
{
    lemma_div_toward_zero_monotone(state.end_nanos - later, state.end_nanos - earlier, 1000000);
    lemma_div_toward_zero_monotone(state.end_nanos - later, state.end_nanos - earlier, 1000000000);
}

/// A timer has expired exactly when less than a whole millisecond is left
/// until its end; before that, its whole milliseconds and seconds left are
/// the time left divided by a million and by a billion nanoseconds, rounded
/// down.
pub proof fn lemma_expired_when_ended(state: TimerState, now: i128)
    ensures
        is_expired(state, now) <==> state.end_nanos - now < 1000000,
        state.end_nanos - now >= 0 ==> remaining_ms(state, now) == (state.end_nanos - now) / 1000000,
        state.end_nanos - now >= 0 ==> remaining_s(state, now) == (state.end_nanos - now) / 1000000000,
{
    let a: int = state.end_nanos - now;
    if a >= 0 {
        assert(a / 1000000 <= 0 <==> a < 1000000) by (nonlinear_arith)
            requires
                a >= 0,
        ;
    } else {
        assert((-a) / 1000000 >= 0) by (nonlinear_arith)
            requires
                -a > 0,
        ;
    }
}

} // verus!
