//! The text and layout decisions of the timer display: progress-bar cells,
//! timer rows, percentages and the footer.

use vstd::prelude::*;
use vstd::string::StringSliceAdditionalSpecFns;
use vstd::utf8::{decode_utf8, encode_utf8, encode_utf8_decode_utf8, is_char_boundary};
use crate::clock::{clock_text, format_time};
use crate::text::{decimal_digits, push_decimal, push_repeated, push_str_chars, repeat_char, string_from_chars};
use crate::timers::{is_expired, lemma_expired_when_ended, remaining_ms, remaining_s, valid_instant, TimerState};

verus! {

/// The panel is drawn only on an area at least this wide.
pub const MIN_PANEL_WIDTH: u16 = 40;

/// The panel is drawn only on an area at least this high.
pub const MIN_PANEL_HEIGHT: u16 = 5;

/// At most this many timers are shown.
pub const MAX_SHOWN_TIMERS: usize = 10;

/// Labels longer than this many bytes are shortened.
pub const LABEL_MAX_BYTES: usize = 15;

/// A shortened label keeps this many bytes, followed by `...`.
pub const LABEL_KEPT_BYTES: usize = 12;

/// Milliseconds that each frame of the bar's animated edge lasts.
pub const ANIMATION_PHASE_MS: u64 = 150;

/// True when an area of the given size is large enough for the panel.
pub fn panel_fits(width: u16, height: u16) -> (b: bool)
    ensures
        b == (width >= MIN_PANEL_WIDTH && height >= MIN_PANEL_HEIGHT),
{
    width >= MIN_PANEL_WIDTH && height >= MIN_PANEL_HEIGHT
}

/// The area inside a one-cell border: `(x + 1, y + 1, width - 2, height - 2)`,
/// where the size never drops below zero.
pub fn inner_area(x: u16, y: u16, width: u16, height: u16) -> (r: (u16, u16, u16, u16))
    requires
        x < u16::MAX,
        y < u16::MAX,
    ensures
        r.0 == x + 1,
        r.1 == y + 1,
        r.2 == (if width >= 2 { width - 2 } else { 0 }),
        r.3 == (if height >= 2 { height - 2 } else { 0 }),
{
    (
        x + 1,
        y + 1,
        if width >= 2 { width - 2 } else { 0 },
        if height >= 2 { height - 2 } else { 0 },
    )
}

/// The width of the bars: the proposed width, at least 15 and at most the
/// area's width less 25 columns for the label and the percentage.
pub fn bar_width(proposed: usize, area_width: u16) -> (w: usize)
    requires
        area_width >= 25,
    ensures
        w == (if proposed < 15 { 15 } else { proposed as int }) as int
            && w <= area_width - 25
            || w == area_width - 25 && (if proposed < 15 { 15 } else { proposed as int }) > area_width - 25,
{
    let at_least: usize = if proposed < 15 { 15 } else { proposed };
    let limit: usize = (area_width - 25) as usize;
    if at_least < limit { at_least } else { limit }
}

/// The columns at which the bars and the percentages start: the bar and the
/// 25 columns beside it are centred in the area.
pub fn bar_columns(x: u16, area_width: u16, bar_width: usize) -> (r: (u16, u16))
    requires
        bar_width + 25 <= area_width,
        x + area_width <= u16::MAX,
    ensures
        r.0 == x + (area_width - bar_width - 25) / 2,
        r.1 == r.0 + bar_width + 2,
{
    let w = bar_width as u16;
    let start = x + (area_width - (w + 25)) / 2;
    (start, start + w + 2)
}

/// The edge character of a partly filled bar, which cycles every
/// [`ANIMATION_PHASE_MS`] milliseconds through `▓ ▒ ░ ▒`.
pub open spec fn edge_char(elapsed_ms: u64) -> char {
    let phase = (elapsed_ms / ANIMATION_PHASE_MS) % 4;
    if phase == 0 {
        '▓'
    } else if phase == 1 {
        '▒'
    } else if phase == 2 {
        '░'
    } else {
        '▒'
    }
}

/// The cells of a bar `width` cells wide of which `filled` are filled
/// (`filled` is taken as at most `width`): all light shade when empty, all
/// full blocks when full, the edge then light shade for one filled cell, and
/// otherwise `filled - 1` full blocks followed by the edge.
pub open spec fn bar_cells(filled: nat, width: nat, elapsed_ms: u64) -> Seq<char> {
    let f = if filled < width { filled } else { width };
    if f == 0 {
        repeat_char('░', width)
    } else if f >= width {
        repeat_char('█', width)
    } else if f == 1 {
        seq![edge_char(elapsed_ms)] + repeat_char('░', (width - f) as nat)
    } else {
        repeat_char('█', (f - 1) as nat) + seq![edge_char(elapsed_ms)]
    }
}

/// A bar is as wide as asked when it is empty, full or has one filled cell;
/// with more filled cells that do not fill it, it ends at its edge, so it is
/// only as wide as the filled cells.
pub proof fn lemma_bar_length(filled: nat, width: nat, elapsed_ms: u64)
    ensures
        filled <= 1 || filled >= width ==> bar_cells(filled, width, elapsed_ms).len() == width,
        1 < filled < width ==> bar_cells(filled, width, elapsed_ms).len() == filled,
{
}

/// The cells of a bar: an empty bar is `width` light shades and a full one
/// (`filled` at least `width`) `width` full blocks; a wider bar with one
/// filled cell starts with the edge and continues in light shade to its
/// width; otherwise the `filled - 1` cells before the last are full blocks
/// and the last is the edge. The edge, the same in both cases at one instant,
/// runs through `▓ ▒ ░ ▒`, one step every 150 milliseconds.
pub proof fn lemma_bar_shape(filled: nat, width: nat, elapsed_ms: u64)
    ensures
        ({
            let cells = bar_cells(filled, width, elapsed_ms);
            let edge = seq!['▓', '▒', '░', '▒'][((elapsed_ms / 150) % 4) as int];
            &&& filled == 0 ==> cells.len() == width && forall|k: int|
                0 <= k < width ==> #[trigger] cells[k] == '░'
            &&& filled >= width ==> cells.len() == width && forall|k: int|
                0 <= k < width ==> #[trigger] cells[k] == '█'
            &&& filled == 1 && 1 < width ==> cells.len() == width && cells[0] == edge && forall|k: int|
                1 <= k < width ==> #[trigger] cells[k] == '░'
            &&& 1 < filled < width ==> cells.len() == filled && cells.last() == edge && forall|k: int|
                0 <= k < filled - 1 ==> #[trigger] cells[k] == '█'
        }),
{
    let p = (elapsed_ms / 150) % 4;
    assert(p < 4);
    assert(seq!['▓', '▒', '░', '▒'][p as int] == edge_char(elapsed_ms));
}

/// The text of a progress bar (see [`bar_cells`]).
pub fn bar_text(filled: usize, width: usize, elapsed_ms: u64) -> (s: String)
    ensures
        s@ == bar_cells(filled as nat, width as nat, elapsed_ms),
{
    let f = if filled < width { filled } else { width };
    let phase = (elapsed_ms / ANIMATION_PHASE_MS) % 4;
    let edge = if phase == 0 {
        '▓'
    } else if phase == 1 {
        '▒'
    } else if phase == 2 {
        '░'
    } else {
        '▒'
    };
    let mut out: Vec<char> = Vec::new();
    if f == 0 {
        push_repeated(&mut out, '░', width);
    } else if f >= width {
        push_repeated(&mut out, '█', width);
    } else if f == 1 {
        out.push(edge);
        push_repeated(&mut out, '░', width - f);
    } else {
        push_repeated(&mut out, '█', f - 1);
        out.push(edge);
    }
    assert(out@ =~= bar_cells(filled as nat, width as nat, elapsed_ms));
    string_from_chars(&out)
}

/// True when a label can be shown: a label longer than
/// [`LABEL_MAX_BYTES`] bytes must have a character boundary at
/// [`LABEL_KEPT_BYTES`] bytes, where it is cut.
pub open spec fn label_showable(label: Seq<char>) -> bool {
    encode_utf8(label).len() > LABEL_MAX_BYTES ==> is_char_boundary(
        encode_utf8(label),
        LABEL_KEPT_BYTES as int,
    )
}

/// The label as shown: a label of more than [`LABEL_MAX_BYTES`] bytes (in
/// UTF-8) is cut to its first [`LABEL_KEPT_BYTES`] bytes followed by `...`.
pub open spec fn shown_label(label: Seq<char>) -> Seq<char> {
    if encode_utf8(label).len() > LABEL_MAX_BYTES {
        decode_utf8(encode_utf8(label).subrange(0, LABEL_KEPT_BYTES as int)) + seq!['.', '.', '.']
    } else {
        label
    }
}

/// The label as shown (see [`shown_label`]).
pub fn label_text(label: &str) -> (s: String)
    requires
        label_showable(label@),
    ensures
        s@ == shown_label(label@),
{
    let mut out: Vec<char> = Vec::new();
    if label.as_bytes().len() > LABEL_MAX_BYTES {
        let (head, _tail) = label.split_at(LABEL_KEPT_BYTES);
        proof {
            encode_utf8_decode_utf8(head@);
            assert(head.spec_bytes() == encode_utf8(head@));
        }
        push_str_chars(&mut out, head);
        out.push('.');
        out.push('.');
        out.push('.');
        assert(out@ =~= shown_label(label@));
    } else {
        push_str_chars(&mut out, label);
        assert(out@ =~= shown_label(label@));
    }
    string_from_chars(&out)
}

/// The icon of a timer: a check mark once it has expired, a play sign before.
pub open spec fn icon_char(expired: bool) -> char {
    if expired { '✓' } else { '▶' }
}

/// The first line of a timer's row: its icon, a space and its shown label.
pub open spec fn label_line(label: Seq<char>, expired: bool) -> Seq<char> {
    seq![icon_char(expired), ' '] + shown_label(label)
}

/// The time text of a timer: `DONE` once expired, else the clock reading of
/// the whole seconds left.
pub open spec fn time_line(state: TimerState, now: i128) -> Seq<char> {
    if is_expired(state, now) {
        seq!['D', 'O', 'N', 'E']
    } else {
        clock_text(remaining_s(state, now))
    }
}

/// `s` right-aligned in a field `width` characters wide, as std's `{:>w}`.
pub open spec fn pad_left(s: Seq<char>, width: nat) -> Seq<char> {
    if s.len() < width {
        repeat_char(' ', (width - s.len()) as nat) + s
    } else {
        s
    }
}

/// Appends `n` right-aligned in a field `width` characters wide.
fn push_padded(out: &mut Vec<char>, n: u64, width: usize)
    ensures
        final(out)@ == old(out)@ + pad_left(decimal_digits(n as nat), width as nat),
{
    let mut digits: Vec<char> = Vec::new();
    push_decimal(&mut digits, n);
    assert(digits@ =~= decimal_digits(n as nat));
    let len = digits.len();
    if len < width {
        push_repeated(out, ' ', width - len);
    }
    let ghost mid = out@;
    let mut k: usize = 0;
    while k < len
        invariant
            k <= len,
            len == digits@.len(),
            out@ == mid + digits@.subrange(0, k as int),
        decreases len - k,
    {
        out.push(digits[k]);
        k = k + 1;
        assert(out@ =~= mid + digits@.subrange(0, k as int));
    }
    assert(digits@.subrange(0, len as int) =~= digits@);
    assert(out@ =~= old(out)@ + pad_left(decimal_digits(n as nat), width as nat));
}

/// The percentage text of a row: the percentage right-aligned in three
/// columns, `%`, a space and the time text.
pub open spec fn percent_line(pct: u32, time: Seq<char>) -> Seq<char> {
    pad_left(decimal_digits(pct as nat), 3) + seq!['%', ' '] + time
}

/// The percentage text of a row (see [`percent_line`]).
pub fn percent_text(pct: u32, time: &str) -> (s: String)
    ensures
        s@ == percent_line(pct, time@),
{
    let mut out: Vec<char> = Vec::new();
    push_padded(&mut out, pct as u64, 3);
    out.push('%');
    out.push(' ');
    push_str_chars(&mut out, time);
    assert(out@ =~= percent_line(pct, time@));
    string_from_chars(&out)
}

/// The number of timers shown out of `n`.
pub open spec fn shown_count(n: nat) -> nat {
    if n < MAX_SHOWN_TIMERS { n } else { MAX_SHOWN_TIMERS as nat }
}

/// True when every timer that gets a row (one of the first ten, of non-zero
/// length) ends at an instant this library handles and has a label that can be
/// shown.
pub open spec fn rows_showable(states: Seq<TimerState>) -> bool {
    forall|i: int|
        0 <= i < shown_count(states.len()) && #[trigger] states[i].total_secs > 0 ==> valid_instant(
            states[i].end_nanos,
        ) && label_showable(states[i].label@)
}

/// The height of each timer's line-slot: the inner height shared evenly by
/// the timers shown out of `n` (at least one).
pub fn row_height(n: usize, inner_height: u16) -> (h: u16)
    requires
        n > 0,
    ensures
        h as nat == (inner_height as nat) / shown_count(n as nat),
{
    let count: usize = if n < MAX_SHOWN_TIMERS { n } else { MAX_SHOWN_TIMERS };
    inner_height / (count as u16)
}

/// The positions, among the first `count` timers, of those that get a row:
/// the timers of zero length are skipped.
pub open spec fn row_indices(states: Seq<TimerState>, count: nat) -> Seq<int>
    decreases count,
{
    if count == 0 {
        seq![]
    } else {
        let prev = row_indices(states, (count - 1) as nat);
        if states[count - 1].total_secs > 0 {
            prev.push(count - 1)
        } else {
            prev
        }
    }
}

/// One timer's row of the panel: the line it is drawn on, whether it has
/// expired, its whole milliseconds left and its length (from which the
/// progress is measured), the icon-and-label text and the time text.
pub struct TimerRow {
    pub y: u16,
    pub expired: bool,
    pub remaining_millis: i64,
    pub total_secs: u64,
    pub label_line: String,
    pub time_text: String,
}

/// True when `row` is the row of `state` on line `y`.
pub open spec fn row_of(row: TimerRow, state: TimerState, now: i128, y: int) -> bool {
    &&& row.y == y
    &&& row.expired == is_expired(state, now)
    &&& row.remaining_millis == remaining_ms(state, now)
    &&& row.total_secs == state.total_secs
    &&& row.label_line@ == label_line(state.label@, is_expired(state, now))
    &&& row.time_text@ == time_line(state, now)
}

/// A row shows a check mark and `DONE` once its timer has less than a whole
/// millisecond left, and otherwise a play sign and the clock reading of the
/// whole seconds left; one space follows the mark, then the label, whole
/// where it has at most 15 bytes and else cut to its first 12 bytes and
/// followed by `...`.
pub proof fn lemma_row_contents(row: TimerRow, state: TimerState, now: i128, y: int)
    requires
        row_of(row, state, now, y),
    ensures
        row.y == y,
        row.total_secs == state.total_secs,
        row.label_line@.len() >= 2,
        row.label_line@[1] == ' ',
        encode_utf8(state.label@).len() <= 15 ==> row.label_line@.skip(2) == state.label@,
        encode_utf8(state.label@).len() > 15 ==> row.label_line@.skip(2) == decode_utf8(
            encode_utf8(state.label@).subrange(0, 12),
        ) + seq!['.', '.', '.'],
        state.end_nanos - now < 1000000 ==> {
            &&& row.expired
            &&& row.label_line@[0] == '✓'
            &&& row.time_text@ == seq!['D', 'O', 'N', 'E']
        },
        state.end_nanos - now >= 1000000 ==> {
            &&& !row.expired
            &&& row.label_line@[0] == '▶'
            &&& row.remaining_millis == (state.end_nanos - now) / 1000000
            &&& row.time_text@ == clock_text((state.end_nanos - now) / 1000000000)
        },
{
    lemma_expired_when_ended(state, now);
    assert(row.label_line@.skip(2) =~= shown_label(state.label@));
}

proof fn lemma_row_indices(states: Seq<TimerState>, count: nat)
    requires
        count <= states.len(),
    ensures
        row_indices(states, count).len() <= count,
        forall|k: int|
            0 <= k < row_indices(states, count).len() ==> 0 <= #[trigger] row_indices(
                states,
                count,
            )[k] < count,
    decreases count,
{
    if count > 0 {
        lemma_row_indices(states, (count - 1) as nat);
    }
}

proof fn lemma_row_line_bound(k: int, h: int, count: int, inner_height: int)
    by (nonlinear_arith)
    requires
        0 <= k < count,
        1 <= count,
        0 <= h,
        h == inner_height / count,
        0 <= inner_height,
    ensures
        k * h + h <= inner_height,
{
    assert(k * h + h == (k + 1) * h);
    assert((k + 1) * h <= count * h);
    assert(count * h <= inner_height);
}

/// The rows of the panel inside a border whose inner area starts at line
/// `top` and is `inner_height` lines high: the first ten timers share the
/// height evenly, and each timer of non-zero length gets the next line-slot in
/// turn. `None` when the area is too low for even one line per timer.
pub fn timer_rows(states: &Vec<TimerState>, now: i128, top: u16, inner_height: u16) -> (r: Option<Vec<TimerRow>>)
    requires
        states@.len() > 0,
        rows_showable(states@),
        valid_instant(now),
        top + inner_height <= u16::MAX,
    ensures
        match r {
            None => (inner_height as nat) / shown_count(states@.len() as nat) < 1,
            Some(rows) => {
                let count = shown_count(states@.len() as nat);
                let h = (inner_height as nat) / count;
                let idx = row_indices(states@, count);
                &&& h >= 1
                &&& rows@.len() == idx.len()
                &&& forall|k: int|
                    0 <= k < rows@.len() ==> row_of(
                        #[trigger] rows@[k],
                        states@[idx[k]],
                        now,
                        top + k * h,
                    )
            },
        },
{
    let count: usize = if states.len() < MAX_SHOWN_TIMERS { states.len() } else { MAX_SHOWN_TIMERS };
    let h: u16 = inner_height / (count as u16);
    if h < 1 {
        return None;
    }
    let mut rows: Vec<TimerRow> = Vec::new();
    let mut y: u16 = top;
    let mut i: usize = 0;
    while i < count
        invariant
            i <= count,
            count == shown_count(states@.len() as nat),
            count <= states@.len(),
            1 <= count,
            h as nat == (inner_height as nat) / (count as nat),
            h >= 1,
            top + inner_height <= u16::MAX,
            rows_showable(states@),
            valid_instant(now),
            rows@.len() == row_indices(states@, i as nat).len(),
            y == top + rows@.len() * h,
            forall|k: int|
                0 <= k < rows@.len() ==> row_of(
                    #[trigger] rows@[k],
                    states@[row_indices(states@, i as nat)[k]],
                    now,
                    top + k * h,
                ),
        decreases count - i,
    {
        proof {
            lemma_row_indices(states@, i as nat);
        }
        let state = &states[i];
        if state.total_secs > 0 {
            assert(valid_instant(states@[i as int].end_nanos));
            assert(label_showable(states@[i as int].label@));
            let expired = state.expired(now);
            let rem_ms = state.remaining_millis(now);
            let time_text = if expired {
                let v: Vec<char> = vec!['D', 'O', 'N', 'E'];
                assert(v@ =~= seq!['D', 'O', 'N', 'E']);
                string_from_chars(&v)
            } else {
                format_time(state.remaining_secs(now))
            };
            let shown = label_text(state.label.as_str());
            let mut line: Vec<char> = Vec::new();
            line.push(if expired { '✓' } else { '▶' });
            line.push(' ');
            push_str_chars(&mut line, shown.as_str());
            assert(line@ =~= label_line(state.label@, expired));
            let label_line_text = string_from_chars(&line);
            let ghost old_rows = rows@;
            proof {
                lemma_row_line_bound(rows@.len() as int, h as int, count as int, inner_height as int);
            }
            rows.push(TimerRow {
                y,
                expired,
                remaining_millis: rem_ms,
                total_secs: state.total_secs,
                label_line: label_line_text,
                time_text,
            });
            assert(row_indices(states@, (i + 1) as nat) == row_indices(states@, i as nat).push(i as int));
            proof {
                lemma_row_line_bound(old_rows.len() as int, h as int, count as int, inner_height as int);
                assert(y + h <= top + inner_height);
            }
            y = y + h;
            proof {
                let n = old_rows.len() as int;
                let hh = h as int;
                assert((n + 1) * hh == n * hh + hh) by (nonlinear_arith);
            }
        } else {
            assert(row_indices(states@, (i + 1) as nat) == row_indices(states@, i as nat));
        }
        i = i + 1;
    }
    Some(rows)
}

/// True when every timer ends at an instant this library handles.
pub open spec fn instants_valid(states: Seq<TimerState>) -> bool {
    forall|i: int| 0 <= i < states.len() ==> valid_instant(#[trigger] states[i].end_nanos)
}

/// The number of timers that have not expired.
pub open spec fn active_count(states: Seq<TimerState>, now: i128) -> nat
    decreases states.len(),
{
    if states.len() == 0 {
        0
    } else {
        active_count(states.drop_last(), now) + if is_expired(states.last(), now) {
            0nat
        } else {
            1nat
        }
    }
}

/// True when there are timers and all of them have expired.
pub open spec fn all_complete(states: Seq<TimerState>, now: i128) -> bool {
    active_count(states, now) == 0 && states.len() > 0
}

proof fn lemma_active_count_bound(states: Seq<TimerState>, now: i128)
    ensures
        active_count(states, now) <= states.len(),
    decreases states.len(),
{
    if states.len() > 0 {
        lemma_active_count_bound(states.drop_last(), now);
    }
}

/// The active timers are those with at least a whole millisecond left: their
/// number is that of such timers, at most the number of timers, and every
/// timer is complete exactly when there are timers and none of them is
/// active.
pub proof fn lemma_active_timers(states: Seq<TimerState>, now: i128)
    ensures
        active_count(states, now) == states.filter(|s: TimerState| s.end_nanos - now >= 1000000).len(),
        active_count(states, now) <= states.len(),
        active_count(states, now) == 0 <==> forall|i: int|
            0 <= i < states.len() ==> #[trigger] states[i].end_nanos - now < 1000000,
        all_complete(states, now) <==> states.len() > 0 && forall|i: int|
            0 <= i < states.len() ==> #[trigger] states[i].end_nanos - now < 1000000,
    decreases states.len(),
{
    reveal(Seq::filter);
    if states.len() > 0 {
        let prev = states.drop_last();
        lemma_active_timers(prev, now);
        lemma_expired_when_ended(states.last(), now);
        assert forall|i: int| 0 <= i < prev.len() implies #[trigger] prev[i] == states[i] by {}
        if forall|i: int| 0 <= i < states.len() ==> #[trigger] states[i].end_nanos - now < 1000000 {
            assert(states[states.len() - 1] == states.last());
            assert forall|i: int| 0 <= i < prev.len() implies #[trigger] prev[i].end_nanos - now
                < 1000000 by {
                assert(prev[i] == states[i]);
            }
        }
        if active_count(states, now) == 0 {
            assert forall|i: int| 0 <= i < states.len() implies #[trigger] states[i].end_nanos - now
                < 1000000 by {
                if i < prev.len() {
                    assert(prev[i] == states[i]);
                }
            }
        }
    }
}

/// The number of timers that have not expired.
pub fn count_active(states: &Vec<TimerState>, now: i128) -> (n: usize)
    requires
        instants_valid(states@),
        valid_instant(now),
    ensures
        n == active_count(states@, now),
{
    let mut n: usize = 0;
    let mut i: usize = 0;
    while i < states.len()
        invariant
            i <= states@.len(),
            instants_valid(states@),
            valid_instant(now),
            n == active_count(states@.subrange(0, i as int), now),
            n <= i,
        decreases states@.len() - i,
    {
        assert(states@.subrange(0, i + 1).drop_last() =~= states@.subrange(0, i as int));
        assert(valid_instant(states@[i as int].end_nanos));
        if !states[i].expired(now) {
            n = n + 1;
        }
        i = i + 1;
    }
    assert(states@.subrange(0, states@.len() as int) =~= states@);
    n
}

/// True when no timer has time left (also when there are none).
pub fn all_done(states: &Vec<TimerState>, now: i128) -> (b: bool)
    requires
        instants_valid(states@),
        valid_instant(now),
    ensures
        b == (active_count(states@, now) == 0),
{
    count_active(states, now) == 0
}

/// True when there are timers and all of them have expired.
pub fn is_all_complete(states: &Vec<TimerState>, now: i128) -> (b: bool)
    requires
        instants_valid(states@),
        valid_instant(now),
    ensures
        b == all_complete(states@, now),
{
    count_active(states, now) == 0 && states.len() > 0
}

/// The footer once every timer has completed.
pub open spec fn complete_footer() -> Seq<char> {
    "  ✨ ALL COMPLETE! Press [q] or [Enter] to exit  "@
}

/// The footer while timers run: the numbers of active and of finished timers,
/// each right-aligned in two columns.
pub open spec fn progress_footer(active: nat, done: nat) -> Seq<char> {
    "  ▶ "@ + pad_left(decimal_digits(active), 2) + " active  ✓ "@ + pad_left(
        decimal_digits(done),
        2,
    ) + " done  │  [Ctrl+C] or [q] to quit  "@
}

/// The footer of the display.
pub open spec fn footer_line(states: Seq<TimerState>, now: i128) -> Seq<char> {
    if all_complete(states, now) {
        complete_footer()
    } else {
        progress_footer(active_count(states, now), (states.len() - active_count(states, now)) as nat)
    }
}

/// The footer of the display (see [`footer_line`]).
pub fn footer_text(states: &Vec<TimerState>, now: i128) -> (s: String)
    requires
        instants_valid(states@),
        valid_instant(now),
    ensures
        s@ == footer_line(states@, now),
{
    let active = count_active(states, now);
    proof {
        lemma_active_count_bound(states@, now);
    }
    let mut out: Vec<char> = Vec::new();
    if active == 0 && states.len() > 0 {
        push_str_chars(&mut out, "  ✨ ALL COMPLETE! Press [q] or [Enter] to exit  ");
    } else {
        let done = states.len() - active;
        push_str_chars(&mut out, "  ▶ ");
        push_padded(&mut out, active as u64, 2);
        push_str_chars(&mut out, " active  ✓ ");
        push_padded(&mut out, done as u64, 2);
        push_str_chars(&mut out, " done  │  [Ctrl+C] or [q] to quit  ");
        assert(out@ =~= footer_line(states@, now));
    }
    string_from_chars(&out)
}

/// Milliseconds that each frame of the diagnostics title lasts.
pub const DIAGNOSTIC_FLICKER_MS: u64 = 200;

/// Which of its two titles the diagnostics panel shows: the first during even
/// [`DIAGNOSTIC_FLICKER_MS`] periods, the second during odd ones.
pub fn diagnostic_flicker(elapsed_ms: u64) -> (b: bool)
    ensures
        b == ((elapsed_ms / DIAGNOSTIC_FLICKER_MS) % 2 == 0),
{
    (elapsed_ms / DIAGNOSTIC_FLICKER_MS) % 2 == 0
}

} // verus!
