//! The decisions of the timer's event loop: what a key or a scroll does to
//! the input state, which timers are announced as done, and when the
//! program waits for the key that ends it.

use vstd::prelude::*;
use crate::timers::{is_expired, lemma_expired_when_ended, remaining_ms, valid_instant, TimerState};
use crate::display::instants_valid;

verus! {

/// After every timer is done, the program waits this long from its start
/// (500 milliseconds, in nanoseconds) before an exit key is read.
pub const EXIT_DELAY_NANOS: u64 = 500000000;

/// Lines that one scroll step moves the diagnostics panel.
pub const SCROLL_STEP: u16 = 3;

/// A key as the timer reads it.
#[derive(Clone, Copy, Debug)]
pub enum KeyInput {
    Char(char),
    Enter,
    Up,
    Down,
    Other,
}

/// The state that keys and scrolling change: whether the program keeps
/// running, whether the diagnostics panel exists in this build and is shown,
/// the last character key, and how far the diagnostics panel is scrolled.
#[derive(Clone, Copy, Debug)]
pub struct InputState {
    pub running: bool,
    pub diagnostics_available: bool,
    pub debug_enabled: bool,
    pub last_key: Option<char>,
    pub scroll_offset: u16,
}

/// `v - 3`, but not below zero.
pub open spec fn scroll_up(v: u16) -> u16 {
    if v >= SCROLL_STEP { (v - SCROLL_STEP) as u16 } else { 0 }
}

/// `v + 3`, wrapping around past `u16::MAX` as an atomic addition does.
pub open spec fn scroll_down(v: u16) -> u16 {
    ((v + SCROLL_STEP) % 0x10000) as u16
}

/// True for a key that ends the program: `q` or Enter, or `c` with Control.
pub open spec fn stops(key: KeyInput, ctrl: bool) -> bool {
    match key {
        KeyInput::Char(c) => c == 'q' || (c == 'c' && ctrl),
        KeyInput::Enter => true,
        _ => false,
    }
}

/// The input state after a key event. Only presses count. Where the
/// diagnostics panel exists, a character key is remembered, `d` shows or
/// hides the panel, and while it is shown Up and Down scroll it; `q`, Enter
/// and Control-`c` stop the program.
pub open spec fn after_key(s: InputState, key: KeyInput, ctrl: bool, pressed: bool) -> InputState {
    if !pressed {
        s
    } else {
        let last_key = if s.diagnostics_available {
            match key {
                KeyInput::Char(c) => Some(c),
                _ => s.last_key,
            }
        } else {
            s.last_key
        };
        let debug_enabled = if s.diagnostics_available && key == KeyInput::Char('d') {
            !s.debug_enabled
        } else {
            s.debug_enabled
        };
        let scroll_offset = if s.diagnostics_available && debug_enabled {
            match key {
                KeyInput::Up => scroll_up(s.scroll_offset),
                KeyInput::Down => scroll_down(s.scroll_offset),
                _ => s.scroll_offset,
            }
        } else {
            s.scroll_offset
        };
        InputState {
            running: s.running && !stops(key, ctrl),
            diagnostics_available: s.diagnostics_available,
            debug_enabled,
            last_key,
            scroll_offset,
        }
    }
}

/// The input state after a mouse scroll: while the diagnostics panel is shown
/// it moves up (saturating at zero) or down (wrapping).
pub open spec fn after_scroll(s: InputState, up: bool) -> InputState {
    if s.diagnostics_available && s.debug_enabled {
        InputState {
            scroll_offset: if up { scroll_up(s.scroll_offset) } else { scroll_down(s.scroll_offset) },
            ..s
        }
    } else {
        s
    }
}

fn scroll_up_exec(v: u16) -> (r: u16)
    ensures
        r == scroll_up(v),
{
    if v >= SCROLL_STEP { v - SCROLL_STEP } else { 0 }
}

fn scroll_down_exec(v: u16) -> (r: u16)
    ensures
        r == scroll_down(v),
{
    if v <= u16::MAX - SCROLL_STEP {
        v + SCROLL_STEP
    } else {
        v - (u16::MAX - SCROLL_STEP) - 1
    }
}

fn stops_exec(key: KeyInput, ctrl: bool) -> (b: bool)
    ensures
        b == stops(key, ctrl),
{
    match key {
        KeyInput::Char(c) => c == 'q' || (c == 'c' && ctrl),
        KeyInput::Enter => true,
        _ => false,
    }
}

impl InputState {
    /// The state at start: running, the diagnostics panel hidden, no key
    /// seen, not scrolled.
    pub fn new(diagnostics_available: bool) -> (s: InputState)
        ensures
            s.running,
            s.diagnostics_available == diagnostics_available,
            !s.debug_enabled,
            s.last_key is None,
            s.scroll_offset == 0,
    {
        InputState {
            running: true,
            diagnostics_available,
            debug_enabled: false,
            last_key: None,
            scroll_offset: 0,
        }
    }

    /// Applies a key event (see [`after_key`]).
    pub fn handle_key(&mut self, key: KeyInput, ctrl: bool, pressed: bool)
        ensures
            *final(self) == after_key(*old(self), key, ctrl, pressed),
    {
        if !pressed {
            return;
        }
        if self.diagnostics_available {
            match key {
                KeyInput::Char(c) => {
                    self.last_key = Some(c);
                },
                _ => {},
            }
            match key {
                KeyInput::Char(c) => {
                    if c == 'd' {
                        self.debug_enabled = !self.debug_enabled;
                    }
                },
                _ => {},
            }
            if self.debug_enabled {
                match key {
                    KeyInput::Up => {
                        self.scroll_offset = scroll_up_exec(self.scroll_offset);
                    },
                    KeyInput::Down => {
                        self.scroll_offset = scroll_down_exec(self.scroll_offset);
                    },
                    _ => {},
                }
            }
        }
        if stops_exec(key, ctrl) {
            self.running = false;
        }
    }

    /// Applies a mouse scroll (see [`after_scroll`]).
    pub fn handle_scroll(&mut self, up: bool)
        ensures
            *final(self) == after_scroll(*old(self), up),
    {
        if self.diagnostics_available && self.debug_enabled {
            if up {
                self.scroll_offset = scroll_up_exec(self.scroll_offset);
            } else {
                self.scroll_offset = scroll_down_exec(self.scroll_offset);
            }
        }
    }
}

/// A stopped program stays stopped whatever key comes next, and a press of
/// `q`, Enter or Control-`c` always stops it.
pub proof fn lemma_stop_is_final(s: InputState, key: KeyInput, ctrl: bool, pressed: bool)
    ensures
        !s.running ==> !after_key(s, key, ctrl, pressed).running,
        pressed && stops(key, ctrl) ==> !after_key(s, key, ctrl, pressed).running,
        !after_scroll(s, true).running == !s.running,
        !after_scroll(s, false).running == !s.running,
{
}

/// A press of `q` (with or without Control), of Enter, or of `c` with
/// Control stops the program from any state; a press of any other key leaves
/// unchanged whether it runs, and a release changes nothing.
pub proof fn lemma_quit_keys(s: InputState, key: KeyInput, ctrl: bool)
    ensures
        !after_key(s, KeyInput::Char('q'), ctrl, true).running,
        !after_key(s, KeyInput::Enter, ctrl, true).running,
        !after_key(s, KeyInput::Char('c'), true, true).running,
        key != KeyInput::Char('q') && key != KeyInput::Enter && !(key == KeyInput::Char('c') && ctrl)
            ==> after_key(s, key, ctrl, true).running == s.running,
        after_key(s, key, ctrl, false) == s,
{
}

/// Where the diagnostics panel exists, a press of `d` shows or hides it;
/// while it is shown, Up moves it three lines up (not past the top) and Down
/// three lines down, and a character key is remembered; the mouse wheel
/// scrolls the same way, down wrapping past the last line. Without the
/// panel, a key changes only whether the program runs, and the wheel
/// changes nothing while the panel is hidden.
pub proof fn lemma_panel_keys(s: InputState, key: KeyInput, ctrl: bool)
    ensures
        s.diagnostics_available ==> after_key(s, KeyInput::Char('d'), ctrl, true).debug_enabled
            == !s.debug_enabled,
        s.diagnostics_available ==> after_key(s, KeyInput::Char('d'), ctrl, true).last_key
            == Some('d'),
        s.diagnostics_available && s.debug_enabled ==> after_key(s, KeyInput::Up, ctrl, true).scroll_offset
            == (if s.scroll_offset >= 3 { s.scroll_offset - 3 } else { 0int }),
        s.diagnostics_available && s.debug_enabled && s.scroll_offset <= 65532 ==> after_key(
            s,
            KeyInput::Down,
            ctrl,
            true,
        ).scroll_offset == s.scroll_offset + 3,
        !s.diagnostics_available ==> after_key(s, key, ctrl, true) == (InputState {
            running: after_key(s, key, ctrl, true).running,
            ..s
        }),
        key != KeyInput::Char('d') ==> after_key(s, key, ctrl, true).debug_enabled == s.debug_enabled,
        s.diagnostics_available && s.debug_enabled ==> after_scroll(s, true).scroll_offset == (if s.scroll_offset
            >= 3 { s.scroll_offset - 3 } else { 0int }),
        s.diagnostics_available && s.debug_enabled ==> after_scroll(s, false).scroll_offset == (
        s.scroll_offset + 3) % 65536,
        !(s.diagnostics_available && s.debug_enabled) ==> after_scroll(s, true) == s && after_scroll(s, false)
            == s,
{
}

/// True for the key that leaves the finished display: a press of `q` or Enter.
pub open spec fn is_exit(key: KeyInput, pressed: bool) -> bool {
    pressed && match key {
        KeyInput::Char(c) => c == 'q',
        KeyInput::Enter => true,
        _ => false,
    }
}

/// The finished display is left by a press of `q` or of Enter, and by no
/// other key and no release.
pub proof fn lemma_exit_keys(key: KeyInput, pressed: bool)
    ensures
        is_exit(KeyInput::Char('q'), true),
        is_exit(KeyInput::Enter, true),
        is_exit(key, pressed) ==> pressed && (key == KeyInput::Char('q') || key == KeyInput::Enter),
{
}

/// True for the key that leaves the finished display (see [`is_exit`]).
pub fn is_exit_key(key: KeyInput, pressed: bool) -> (b: bool)
    ensures
        b == is_exit(key, pressed),
{
    pressed && match key {
        KeyInput::Char(c) => c == 'q',
        KeyInput::Enter => true,
        _ => false,
    }
}

/// True when the loop should wait for an exit key: every timer is done and
/// more than [`EXIT_DELAY_NANOS`] have passed since the start.
pub fn awaiting_exit(all_done: bool, elapsed_nanos: u64) -> (b: bool)
    ensures
        b == (all_done && elapsed_nanos > EXIT_DELAY_NANOS),
{
    all_done && elapsed_nanos > EXIT_DELAY_NANOS
}

/// True when the timer at position `i` is announced now: it has expired and
/// has not been announced before.
pub open spec fn is_due(s: TimerState, now: i128) -> bool {
    !s.alert_triggered && is_expired(s, now)
}

/// The positions of the timers that are announced now, in order.
pub open spec fn due_indices(states: Seq<TimerState>, now: i128) -> Seq<int>
    decreases states.len(),
{
    if states.len() == 0 {
        seq![]
    } else {
        let prev = due_indices(states.drop_last(), now);
        if is_due(states.last(), now) {
            prev.push(states.len() - 1)
        } else {
            prev
        }
    }
}

/// A timer after an announcement round: marked once it has expired.
pub open spec fn marked(s: TimerState, now: i128) -> TimerState {
    TimerState { alert_triggered: s.alert_triggered || is_expired(s, now), ..s }
}

/// The timers after an announcement round.
pub open spec fn after_alerts(states: Seq<TimerState>, now: i128) -> Seq<TimerState> {
    states.map_values(|s: TimerState| marked(s, now))
}

/// Marks every expired timer as announced and returns the positions of those
/// that had not been announced before, whose completion is to be announced
/// now.
pub fn collect_due_alerts(states: &mut Vec<TimerState>, now: i128) -> (due: Vec<usize>)
    requires
        instants_valid(old(states)@),
        valid_instant(now),
    ensures
        final(states)@ == after_alerts(old(states)@, now),
        due@.map_values(|i: usize| i as int) == due_indices(old(states)@, now),
{
    let ghost orig = states@;
    let mut due: Vec<usize> = Vec::new();
    let mut i: usize = 0;
    let n = states.len();
    while i < n
        invariant
            i <= n,
            n == orig.len(),
            states@.len() == n,
            instants_valid(orig),
            valid_instant(now),
            forall|j: int| 0 <= j < i ==> states@[j] == marked(#[trigger] orig[j], now),
            forall|j: int| i <= j < n ==> states@[j] == #[trigger] orig[j],
            due@.map_values(|k: usize| k as int) == due_indices(orig.subrange(0, i as int), now),
        decreases n - i,
    {
        assert(orig.subrange(0, i + 1).drop_last() =~= orig.subrange(0, i as int));
        assert(valid_instant(orig[i as int].end_nanos));
        let expired = states[i].expired(now);
        if expired && !states[i].alert_triggered {
            let updated = TimerState {
                label: states[i].label.clone(),
                total_secs: states[i].total_secs,
                end_nanos: states[i].end_nanos,
                alert_triggered: true,
            };
            states.set(i, updated);
            let ghost before = due@;
            due.push(i);
            assert(due@.map_values(|k: usize| k as int) =~= before.map_values(|k: usize| k as int).push(
                i as int,
            ));
        }
        i = i + 1;
    }
    assert(orig.subrange(0, n as int) =~= orig);
    assert(states@ =~= after_alerts(orig, now));
    due
}

proof fn lemma_due_indices_bounds(states: Seq<TimerState>, now: i128)
    ensures
        forall|k: int|
            0 <= k < due_indices(states, now).len() ==> 0 <= #[trigger] due_indices(states, now)[k]
                < states.len() && is_due(states[due_indices(states, now)[k]], now),
    decreases states.len(),
{
    if states.len() > 0 {
        let prev_states = states.drop_last();
        lemma_due_indices_bounds(prev_states, now);
        let prev = due_indices(prev_states, now);
        assert forall|k: int| 0 <= k < due_indices(states, now).len() implies 0
            <= #[trigger] due_indices(states, now)[k] < states.len() && is_due(
            states[due_indices(states, now)[k]],
            now,
        ) by {
            if k < prev.len() {
                assert(due_indices(states, now)[k] == prev[k]);
                assert(prev_states[prev[k]] == states[prev[k]]);
            }
        }
    }
}

proof fn lemma_due_indices_complete(states: Seq<TimerState>, now: i128, j: int)
    requires
        0 <= j < states.len(),
        is_due(states[j], now),
    ensures
        due_indices(states, now).contains(j),
    decreases states.len(),
{
    if j < states.len() - 1 {
        lemma_due_indices_complete(states.drop_last(), now, j);
        let prev = due_indices(states.drop_last(), now);
        let k = choose|k: int| 0 <= k < prev.len() && prev[k] == j;
        if is_due(states.last(), now) {
            assert(due_indices(states, now)[k] == j);
        }
    } else {
        assert(due_indices(states, now).last() == j);
    }
}

/// Every timer is announced at most once: a round marks every expired timer,
/// never unmarks one, announces exactly the expired timers not marked
/// before, and no later round, at any instant, announces a timer again.
pub proof fn lemma_alert_once(states: Seq<TimerState>, now: i128, later: i128)
    ensures
        after_alerts(states, now).len() == states.len(),
        forall|i: int|
            0 <= i < states.len() && (states[i].alert_triggered || is_expired(states[i], now))
                ==> #[trigger] after_alerts(states, now)[i].alert_triggered,
        forall|i: int|
            0 <= i < states.len() ==> (#[trigger] due_indices(states, now).contains(i) <==> is_due(
                states[i],
                now,
            )),
        forall|i: int|
            #![trigger due_indices(states, now).contains(i)]
            0 <= i < states.len() && due_indices(states, now).contains(i) ==> !due_indices(
                after_alerts(states, now),
                later,
            ).contains(i),
{
    lemma_due_indices_bounds(states, now);
    lemma_due_indices_bounds(after_alerts(states, now), later);
    assert forall|i: int| 0 <= i < states.len() implies (#[trigger] due_indices(states, now).contains(i)
        <==> is_due(states[i], now)) by {
        if is_due(states[i], now) {
            lemma_due_indices_complete(states, now, i);
        }
        if due_indices(states, now).contains(i) {
            let k = choose|k: int| 0 <= k < due_indices(states, now).len() && due_indices(states, now)[k] == i;
        }
    }
    assert forall|i: int|
        #![trigger due_indices(states, now).contains(i)]
        0 <= i < states.len() && due_indices(states, now).contains(i) implies !due_indices(
        after_alerts(states, now),
        later,
    ).contains(i) by {
        let after = after_alerts(states, now);
        if due_indices(after, later).contains(i) {
            let k = choose|k: int| 0 <= k < due_indices(after, later).len() && due_indices(after, later)[k] == i;
            assert(is_due(after[i], later));
            let k2 = choose|k: int| 0 <= k < due_indices(states, now).len() && due_indices(states, now)[k] == i;
            assert(is_due(states[i], now));
        }
    }
}

/// A round marks a timer exactly when it was marked before or less than a
/// whole millisecond of it is left (chrono's whole milliseconds of the time
/// left are at most zero), changes nothing else of it, and announces exactly
/// the timers that it marks for the first time: a timer is never marked while
/// time is left, and is announced in the first round at or after its end.
pub proof fn lemma_alert_when_ended(states: Seq<TimerState>, now: i128)
    ensures
        after_alerts(states, now).len() == states.len(),
        forall|i: int|
            0 <= i < states.len() ==> (#[trigger] after_alerts(states, now)[i]).alert_triggered == (
            states[i].alert_triggered || states[i].end_nanos - now < 1000000),
        forall|i: int|
            0 <= i < states.len() ==> ((#[trigger] after_alerts(states, now)[i]).alert_triggered == (
            states[i].alert_triggered || remaining_ms(states[i], now) <= 0)),
        forall|i: int|
            0 <= i < states.len() ==> {
                let a = #[trigger] after_alerts(states, now)[i];
                &&& a.label == states[i].label
                &&& a.total_secs == states[i].total_secs
                &&& a.end_nanos == states[i].end_nanos
            },
        forall|i: int|
            0 <= i < states.len() ==> (#[trigger] due_indices(states, now).contains(i) <==> (
            !states[i].alert_triggered && states[i].end_nanos - now < 1000000)),
{
    lemma_alert_once(states, now, now);
    assert forall|i: int| 0 <= i < states.len() implies (remaining_ms(states[i], now) <= 0 <==> (
    states[i].end_nanos - now < 1000000)) by {
        lemma_expired_when_ended(states[i], now);
    }
}

} // verus!
