use cyber_timer::clock::format_time;
use cyber_timer::duration::{
    parse_duration, parse_labeled_duration, parse_u64, split_label, try_parse_duration,
    try_parse_labeled_duration, unit_seconds, DurationPattern,
};
use cyber_timer::text::trim;
use cyber_timer::timers::{end_offset_millis, parse_timers, try_parse_timers, TimerState};
use std::time::{Duration, Instant};

#[test]
fn test_parse_duration_seconds() {
    let p = DurationPattern::new();
    assert_eq!(Duration::from_secs(parse_duration(&p, "30s")), Duration::from_secs(30));
    assert_eq!(Duration::from_secs(parse_duration(&p, "30sec")), Duration::from_secs(30));
}

#[test]
fn test_parse_duration_minutes() {
    let p = DurationPattern::new();
    assert_eq!(Duration::from_secs(parse_duration(&p, "5m")), Duration::from_secs(300));
    assert_eq!(Duration::from_secs(parse_duration(&p, "5min")), Duration::from_secs(300));
}

#[test]
fn test_parse_duration_hours() {
    let p = DurationPattern::new();
    assert_eq!(Duration::from_secs(parse_duration(&p, "2h")), Duration::from_secs(7200));
}

#[test]
fn test_parse_duration_invalid() {
    let p = DurationPattern::new();
    assert_eq!(Duration::from_secs(parse_duration(&p, "invalid")), Duration::from_secs(10));
}

#[test]
fn test_parse_labeled_duration() {
    let p = DurationPattern::new();
    let (label, dur) = parse_labeled_duration(&p, "work:25m");
    assert_eq!(label, "work");
    assert_eq!(Duration::from_secs(dur), Duration::from_secs(1500));
}

#[test]
fn test_parse_labeled_duration_no_label() {
    let p = DurationPattern::new();
    let (label, dur) = parse_labeled_duration(&p, "30s");
    assert_eq!(label, "Timer");
    assert_eq!(Duration::from_secs(dur), Duration::from_secs(30));
}

#[test]
fn test_format_time() {
    assert_eq!(format_time(0), "00:00");
    assert_eq!(format_time(30), "00:30");
    assert_eq!(format_time(60), "01:00");
    assert_eq!(format_time(90), "01:30");
    assert_eq!(format_time(3600), "01:00:00");
    assert_eq!(format_time(3661), "01:01:01");
}

#[test]
fn test_parse_duration_performance() {
    let p = DurationPattern::new();
    let inputs = ["30s", "5m", "2h", "invalid", "work:25m"];

    let start = Instant::now();
    for _ in 0..10000 {
        for input in &inputs {
            parse_duration(&p, input);
            parse_labeled_duration(&p, input);
        }
    }
    let elapsed = start.elapsed();

    let ns_per_call = elapsed.as_nanos() / (inputs.len() * 10000) as u128;
    assert!(
        ns_per_call < 10000,
        "parse_duration too slow: {}ns/call",
        ns_per_call
    );
}

#[test]
fn duration_search_ignores_surroundings_and_case() {
    let p = DurationPattern::new();
    assert_eq!(parse_duration(&p, "  45S  "), 45);
    assert_eq!(parse_duration(&p, "wait 3MIN please"), 180);
    assert_eq!(parse_duration(&p, "1H"), 3600);
    assert_eq!(parse_duration(&p, "12x 7m"), 420);
    assert_eq!(parse_duration(&p, "90"), 10);
    assert_eq!(parse_duration(&p, ""), 10);
    assert_eq!(parse_duration(&p, "0s"), 0);
}

#[test]
fn duration_number_that_does_not_parse_counts_as_fallback() {
    let p = DurationPattern::new();
    // More digits than a u64 holds: the number falls back to 10 of the unit.
    assert_eq!(parse_duration(&p, "99999999999999999999999m"), 600);
    // Arabic-Indic digits are digits to the pattern but not to the number parse.
    assert_eq!(parse_duration(&p, "\u{663}\u{660}s"), 10);
}

#[test]
fn duration_overflow_is_reported_by_try_variant() {
    let p = DurationPattern::new();
    assert_eq!(try_parse_duration(&p, "18446744073709551615h"), None);
    assert_eq!(try_parse_duration(&p, "18446744073709551615s"), Some(18446744073709551615));
    assert_eq!(try_parse_duration(&p, "5m"), Some(300));
    assert_eq!(try_parse_labeled_duration(&p, "x:307445734561825861m"), None);
    assert_eq!(
        try_parse_labeled_duration(&p, "x:2m"),
        Some(("x".to_string(), 120))
    );
}

#[test]
fn labels_are_trimmed_and_split_at_first_colon() {
    let p = DurationPattern::new();
    assert_eq!(parse_labeled_duration(&p, "  tea :3m"), ("tea".to_string(), 180));
    assert_eq!(parse_labeled_duration(&p, "   :3m"), ("Timer".to_string(), 180));
    assert_eq!(parse_labeled_duration(&p, "a:b:4m"), ("a".to_string(), 240));
    let (label, rest) = split_label("a:b:4m");
    assert_eq!(label, "a");
    assert_eq!(rest, "b:4m");
    let (label, rest) = split_label("plain");
    assert_eq!(label, "Timer");
    assert_eq!(rest, "plain");
}

#[test]
fn number_parse_follows_std() {
    assert_eq!(parse_u64("25"), Some(25));
    assert_eq!(parse_u64("+7"), Some(7));
    assert_eq!(parse_u64("+"), None);
    assert_eq!(parse_u64(""), None);
    assert_eq!(parse_u64("-1"), None);
    assert_eq!(parse_u64("18446744073709551615"), Some(u64::MAX));
    assert_eq!(parse_u64("18446744073709551616"), None);
    assert_eq!(parse_u64("1a"), None);
}

#[test]
fn unit_scales() {
    assert_eq!(unit_seconds("min"), 60);
    assert_eq!(unit_seconds("MiN"), 60);
    assert_eq!(unit_seconds("M"), 60);
    assert_eq!(unit_seconds("h"), 3600);
    assert_eq!(unit_seconds("H"), 3600);
    assert_eq!(unit_seconds("sec"), 1);
    assert_eq!(unit_seconds("s"), 1);
    assert_eq!(unit_seconds("\u{17f}"), 1);
}

#[test]
fn trim_removes_unicode_whitespace() {
    assert_eq!(trim("\u{3000} a b \t\n"), "a b");
    assert_eq!(trim("   "), "");
}

#[test]
fn format_time_edges() {
    assert_eq!(format_time(59), "00:59");
    assert_eq!(format_time(3599), "59:59");
    assert_eq!(format_time(360000), "100:00:00");
    assert_eq!(format_time(-5), "00:-5");
    assert_eq!(format_time(-15), "00:-15");
    assert_eq!(format_time(7), "00:07");
}

#[test]
fn timers_are_planned_in_order_with_task_names() {
    let p = DurationPattern::new();
    let args: Vec<String> = vec!["30s", "coffee:5m", "10m", "Timer:1s", ":2s"]
        .into_iter()
        .map(String::from)
        .collect();
    let plans = parse_timers(&p, &args);
    assert_eq!(plans.len(), 5);
    assert_eq!(plans[0].label, "Timer");
    assert_eq!(plans[0].total_secs, 30);
    assert_eq!(plans[0].offset_millis, 30000);
    assert_eq!(plans[1].label, "coffee");
    assert_eq!(plans[1].total_secs, 300);
    assert_eq!(plans[2].label, "Task 3");
    assert_eq!(plans[2].total_secs, 600);
    assert_eq!(plans[3].label, "Task 4");
    assert_eq!(plans[4].label, "Task 5");
}

#[test]
fn at_most_ten_timers_are_planned() {
    let p = DurationPattern::new();
    let args: Vec<String> = (0..12).map(|i| format!("{}s", i + 1)).collect();
    let plans = parse_timers(&p, &args);
    assert_eq!(plans.len(), 10);
    assert_eq!(plans[9].label, "Task 10");
    assert_eq!(plans[9].total_secs, 10);
    assert!(try_parse_timers(&p, &args).is_some());
    let bad: Vec<String> = vec!["1s".to_string(), "99999999999999999h".to_string()];
    assert!(try_parse_timers(&p, &bad).is_none());
}

#[test]
fn end_offsets_fall_back_to_ten_years() {
    assert_eq!(end_offset_millis(5), 5000);
    assert_eq!(end_offset_millis(9223372036854775), 9223372036854775000);
    assert_eq!(end_offset_millis(9223372036854776), 315360000000);
}

#[test]
fn remaining_time_rounds_toward_zero() {
    let t = TimerState {
        label: "x".to_string(),
        total_secs: 60,
        end_nanos: 10_000_000_000,
        alert_triggered: false,
    };
    assert_eq!(t.remaining_millis(8_500_000_000), 1500);
    assert_eq!(t.remaining_secs(8_500_000_000), 1);
    assert_eq!(t.remaining_millis(11_500_400_000), -1500);
    assert_eq!(t.remaining_secs(11_500_400_000), -1);
    assert_eq!(t.remaining_millis(9_999_500_000), 0);
    assert!(t.expired(9_999_500_000));
    assert!(!t.expired(9_998_900_000));
}

#[test]
fn clock_readings_are_distinct() {
    let mut seen = std::collections::HashSet::new();
    for secs in 0..8000 {
        assert!(seen.insert(format_time(secs)));
    }
    assert_eq!(format_time(3599).chars().count(), 5);
}

#[test]
fn clock_readings_give_the_seconds_back() {
    for secs in [0i64, 7, 59, 60, 61, 3599, 3600, 3661, 86399, 360000, 1234567] {
        let text = format_time(secs);
        let fields: Vec<i64> = text.split(':').map(|x| x.parse().unwrap()).collect();
        assert_eq!(fields.len(), if secs >= 3600 { 3 } else { 2 });
        assert_eq!(fields.iter().fold(0, |a, x| a * 60 + x), secs);
        for f in text.split(':').skip(1) {
            assert_eq!(f.len(), 2);
        }
    }
}

#[test]
fn surrounding_whitespace_and_unit_case_do_not_matter() {
    let p = DurationPattern::new();
    for s in ["30s", "5min", "2h", "7M", "invalid"] {
        let d = parse_duration(&p, s);
        assert_eq!(parse_duration(&p, &format!(" \t{}\n ", s)), d);
        assert_eq!(parse_duration(&p, &s.to_ascii_uppercase()), d);
        assert_eq!(parse_duration(&p, &s.to_ascii_lowercase()), d);
    }
}
