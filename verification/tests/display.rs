use cyber_timer::control::{
    awaiting_exit, collect_due_alerts, is_exit_key, InputState, KeyInput,
};
use cyber_timer::display::{
    all_done, bar_columns, bar_text, bar_width, count_active, diagnostic_flicker, footer_text,
    inner_area, is_all_complete, label_text, panel_fits, percent_text, row_height, timer_rows,
};
use cyber_timer::timers::TimerState;

const NOON: i128 = 1_700_000_000 * 1_000_000_000;

fn make_timer_state(label: &str, total_secs: u64, progress: f64) -> TimerState {
    let remaining = (total_secs as f64 * (1.0 - progress)) as i64;
    TimerState {
        label: label.to_string(),
        total_secs,
        end_nanos: NOON + remaining as i128 * 1_000_000_000,
        alert_triggered: progress >= 1.0,
    }
}

#[test]
fn test_single_timer() {
    let states = vec![make_timer_state("Work", 60, 0.5)];
    let rows = timer_rows(&states, NOON, 4, 16).unwrap();
    assert_eq!(rows.len(), 1);
    assert_eq!(rows[0].y, 4);
    assert!(!rows[0].expired);
    assert_eq!(rows[0].remaining_millis, 30000);
    assert_eq!(rows[0].label_line, "▶ Work");
    assert_eq!(rows[0].time_text, "00:30");
    assert_eq!(
        footer_text(&states, NOON),
        "  ▶  1 active  ✓  0 done  │  [Ctrl+C] or [q] to quit  "
    );
}

#[test]
fn test_multiple_timers() {
    let states = vec![
        make_timer_state("Task 1", 60, 0.25),
        make_timer_state("Task 2", 120, 0.5),
        make_timer_state("Task 3", 30, 0.75),
    ];
    let rows = timer_rows(&states, NOON, 4, 16).unwrap();
    assert_eq!(rows.len(), 3);
    assert_eq!(rows[0].y, 4);
    assert_eq!(rows[1].y, 9);
    assert_eq!(rows[2].y, 14);
    assert_eq!(rows[0].time_text, "00:45");
    assert_eq!(rows[1].time_text, "01:00");
    assert_eq!(rows[2].time_text, "00:07");
    assert_eq!(count_active(&states, NOON), 3);
}

#[test]
fn test_completed_timer() {
    let states = vec![make_timer_state("Done!", 60, 1.0)];
    let rows = timer_rows(&states, NOON, 4, 16).unwrap();
    assert!(rows[0].expired);
    assert_eq!(rows[0].label_line, "✓ Done!");
    assert_eq!(rows[0].time_text, "DONE");
    assert!(is_all_complete(&states, NOON));
    assert_eq!(
        footer_text(&states, NOON),
        "  ✨ ALL COMPLETE! Press [q] or [Enter] to exit  "
    );
}

#[test]
fn test_empty_state() {
    let states: Vec<TimerState> = vec![];
    assert!(!is_all_complete(&states, NOON));
    assert!(all_done(&states, NOON));
    assert_eq!(count_active(&states, NOON), 0);
}

#[test]
fn test_zero_duration_timer() {
    let states = vec![make_timer_state("Zero", 0, 0.0)];
    let rows = timer_rows(&states, NOON, 4, 16).unwrap();
    assert_eq!(rows.len(), 0);
    assert!(is_all_complete(&states, NOON));
}

#[test]
fn rows_need_a_line_per_timer() {
    let states: Vec<TimerState> = (0..12).map(|i| make_timer_state("t", 60 + i, 0.0)).collect();
    assert!(timer_rows(&states, NOON, 4, 9).is_none());
    let rows = timer_rows(&states, NOON, 4, 25).unwrap();
    assert_eq!(rows.len(), 10);
    assert_eq!(rows[9].y, 4 + 9 * 2);
}

#[test]
fn bars() {
    assert_eq!(bar_text(0, 5, 0), "░░░░░");
    assert_eq!(bar_text(5, 5, 0), "█████");
    assert_eq!(bar_text(9, 5, 0), "█████");
    assert_eq!(bar_text(1, 5, 0), "▓░░░░");
    assert_eq!(bar_text(1, 5, 150), "▒░░░░");
    assert_eq!(bar_text(1, 5, 300), "░░░░░");
    assert_eq!(bar_text(1, 5, 450), "▒░░░░");
    assert_eq!(bar_text(1, 5, 600), "▓░░░░");
    assert_eq!(bar_text(3, 5, 0), "██▓");
}

#[test]
fn labels_are_shortened_by_bytes() {
    assert_eq!(label_text("short"), "short");
    assert_eq!(label_text("exactly15chars!"), "exactly15chars!");
    assert_eq!(label_text("a very long label"), "a very long ...");
    assert_eq!(label_text("ééééééééé"), "éééééé...");
}

#[test]
fn geometry() {
    assert!(panel_fits(40, 5));
    assert!(!panel_fits(39, 24));
    assert!(!panel_fits(80, 4));
    assert_eq!(inner_area(0, 3, 80, 18), (1, 4, 78, 16));
    assert_eq!(inner_area(0, 3, 1, 0), (1, 4, 0, 0));
    assert_eq!(bar_width(48, 80), 48);
    assert_eq!(bar_width(3, 80), 15);
    assert_eq!(bar_width(60, 80), 55);
    assert_eq!(bar_columns(0, 80, 48), (3, 53));
    assert_eq!(percent_text(50, "00:30"), " 50% 00:30");
    assert_eq!(percent_text(100, "DONE"), "100% DONE");
    assert_eq!(percent_text(7, "DONE"), "  7% DONE");
    assert!(diagnostic_flicker(199));
    assert!(!diagnostic_flicker(200));
}

#[test]
fn footer_counts_right_aligned() {
    let mut states: Vec<TimerState> = (0..11).map(|_| make_timer_state("t", 60, 0.5)).collect();
    states.push(make_timer_state("d", 60, 1.0));
    assert_eq!(
        footer_text(&states, NOON),
        "  ▶ 11 active  ✓  1 done  │  [Ctrl+C] or [q] to quit  "
    );
}

#[test]
fn alerts_fire_once() {
    let mut states = vec![
        make_timer_state("a", 60, 1.0),
        make_timer_state("b", 60, 0.0),
        make_timer_state("c", 10, 0.0),
    ];
    states[0].alert_triggered = false;
    let due = collect_due_alerts(&mut states, NOON);
    assert_eq!(due, vec![0]);
    assert!(states[0].alert_triggered);
    assert!(!states[1].alert_triggered);
    let later = NOON + 30 * 1_000_000_000;
    let due = collect_due_alerts(&mut states, later);
    assert_eq!(due, vec![2]);
    let due = collect_due_alerts(&mut states, later);
    assert!(due.is_empty());
    assert_eq!(states[2].label, "c");
}

#[test]
fn keys_drive_the_input_state() {
    let mut s = InputState::new(true);
    s.handle_key(KeyInput::Char('x'), false, true);
    assert_eq!(s.last_key, Some('x'));
    assert!(s.running);
    s.handle_key(KeyInput::Down, false, true);
    assert_eq!(s.scroll_offset, 0);
    s.handle_key(KeyInput::Char('d'), false, true);
    assert!(s.debug_enabled);
    s.handle_key(KeyInput::Down, false, true);
    s.handle_key(KeyInput::Down, false, true);
    assert_eq!(s.scroll_offset, 6);
    s.handle_key(KeyInput::Up, false, true);
    assert_eq!(s.scroll_offset, 3);
    s.handle_scroll(true);
    s.handle_scroll(true);
    assert_eq!(s.scroll_offset, 0);
    s.scroll_offset = 65534;
    s.handle_scroll(false);
    assert_eq!(s.scroll_offset, 1);
    s.handle_key(KeyInput::Char('c'), false, true);
    assert!(s.running);
    s.handle_key(KeyInput::Char('q'), false, false);
    assert!(s.running);
    s.handle_key(KeyInput::Char('c'), true, true);
    assert!(!s.running);
    s.handle_key(KeyInput::Char('a'), false, true);
    assert!(!s.running);

    let mut r = InputState::new(false);
    r.handle_key(KeyInput::Char('d'), false, true);
    assert!(!r.debug_enabled);
    assert_eq!(r.last_key, None);
    r.handle_key(KeyInput::Enter, false, true);
    assert!(!r.running);
}

#[test]
fn exit_waits_for_completion_and_delay() {
    assert!(awaiting_exit(true, 500_000_001));
    assert!(!awaiting_exit(true, 500_000_000));
    assert!(!awaiting_exit(false, 10_000_000_000));
    assert!(is_exit_key(KeyInput::Char('q'), true));
    assert!(is_exit_key(KeyInput::Enter, true));
    assert!(!is_exit_key(KeyInput::Enter, false));
    assert!(!is_exit_key(KeyInput::Char('c'), true));
}

#[test]
fn zero_length_timers_are_not_cut() {
    let states = vec![make_timer_state("aéééééééé", 0, 0.0), make_timer_state("ok", 60, 0.5)];
    let rows = timer_rows(&states, NOON, 4, 16).unwrap();
    assert_eq!(rows.len(), 1);
    assert_eq!(rows[0].label_line, "▶ ok");
    assert_eq!(rows[0].y, 4);
    assert_eq!(row_height(2, 16), 8);
    assert_eq!(row_height(12, 25), 2);
    assert_eq!(row_height(12, 9), 0);
}
