use agent_witness::calendar::{civil_from_days, days_from_civil, floor_div};
use agent_witness::clock::clamp_millis;
use agent_witness::keys::{clamp_row, list_action, row_above, row_below, truncate, Key, ListAction};
use agent_witness::liveness::saturating_difference;
use agent_witness::num::{decimal_i64, pad_left, pad_right, parse_nat, zero_pad};
use agent_witness::order::text_less;
use agent_witness::shell::{split_segments, Sep};
use agent_witness::split::{lines, one_line};
use agent_witness::table::render_grid;
use agent_witness::text::{trim, trim_end};
use agent_witness::timefmt::{format_duration_ms, format_utc};
use agent_witness::window::{window_mode_from_flags, window_since_ms, WindowKind, WindowMode};

const NOW: i64 = 1_700_000_000_000;
const DAY_MS: i64 = 86_400_000;

#[test]
fn days_and_dates_are_inverse() {
    assert_eq!(days_from_civil(1970, 1, 1), 0);
    assert_eq!(days_from_civil(2000, 3, 1), 11_017);
    assert_eq!(civil_from_days(11_016), (2000, 2, 29));
    assert_eq!(civil_from_days(-1), (1969, 12, 31));
    for days in [-800_000, -1, 0, 59, 60, 11_016, 19_675, 900_000] {
        let (y, m, d) = civil_from_days(days);
        assert_eq!(days_from_civil(y, m, d), days);
    }
    assert_eq!(floor_div(-1, 10), -1);
    assert_eq!(floor_div(19, 10), 1);
}

#[test]
fn times_before_the_epoch_are_told() {
    assert_eq!(format_utc(-1), "1969-12-31 23:59:59Z");
    assert_eq!(format_duration_ms(999), "999ms");
    assert_eq!(format_duration_ms(59_999), "59.9s");
    assert_eq!(format_duration_ms(3_600_000), "60m00s");
}

#[test]
fn the_clock_stays_in_its_range() {
    assert_eq!(clamp_millis(Some(5)), 5);
    assert_eq!(clamp_millis(Some(u128::MAX)), i64::MAX);
    assert_eq!(clamp_millis(None), 0);
}

#[test]
fn windows_begin_at_midnight_and_hold_each_other() {
    let today = window_since_ms(WindowMode::Today, NOW).unwrap();
    let week = window_since_ms(WindowMode::Week, NOW).unwrap();
    assert_eq!(today % DAY_MS, 0);
    assert_eq!(week, today - 6 * DAY_MS);
    assert_eq!(window_since_ms(WindowMode::All, NOW), None);
    let since = WindowMode::Since { span_ms: 5 };
    assert_eq!(window_since_ms(since, NOW), Some(NOW - 5));
    assert_eq!(window_since_ms(since, i64::MIN), Some(i64::MIN));
    assert_eq!(since.kind(), WindowKind::Since);
}

#[test]
fn window_errors_say_what_is_wrong() {
    assert_eq!(
        window_mode_from_flags(true, true, None).unwrap_err().message(),
        "--today, --week, and --since are mutually exclusive; pass at most one"
    );
    assert!(window_mode_from_flags(false, false, Some("x"))
        .unwrap_err()
        .message()
        .contains("\"x\""));
}

#[test]
fn clipped_texts_end_with_a_mark() {
    assert_eq!(truncate("abcdef", 6), "abcdef");
    assert_eq!(truncate("abcdefg", 6), "abcde…");
    assert_eq!(truncate("ab", 0), "…");
}

#[test]
fn keys_move_inside_a_list() {
    assert_eq!(list_action(Key::Char('j')), list_action(Key::Down));
    assert_eq!(list_action(Key::Char('q')), list_action(Key::Esc));
    assert_eq!(list_action(Key::Char('x')), list_action(Key::Other));
    assert!(matches!(list_action(Key::Enter), ListAction::Confirm));
    assert_eq!(row_below(0, 2), 1);
    assert_eq!(row_below(1, 2), 1);
    assert_eq!(row_below(0, 0), 0);
    assert_eq!(row_above(0), 0);
    assert_eq!(row_above(2), 1);
    assert_eq!(clamp_row(9, 3), 2);
    assert_eq!(clamp_row(9, 0), 0);
}

#[test]
fn numbers_are_written_and_read() {
    assert_eq!(decimal_i64(i64::MIN), "-9223372036854775808");
    assert_eq!(parse_nat("042", 100), Some(42));
    assert_eq!(parse_nat("101", 100), None);
    assert_eq!(parse_nat("", 100), None);
    assert_eq!(pad_left("ab", 4), "  ab");
    assert_eq!(pad_right("ab", 4), "ab  ");
    assert_eq!(zero_pad(7, 3), "007");
    assert_eq!(saturating_difference(i64::MIN, 1), i64::MIN);
}

#[test]
fn texts_are_cut_as_their_lines_and_words() {
    assert_eq!(lines("a\r\n\nb\n"), vec!["a", "", "b"]);
    assert_eq!(one_line("a\n  b\tc"), "a   b c");
    assert_eq!(trim("\u{a0} x \n"), "x");
    assert_eq!(trim_end(" x "), " x");
    assert!(text_less("a", "ab"));
    assert!(text_less("Z", "a"));
}

#[test]
fn commands_are_cut_at_their_separators() {
    let segments = split_segments("a b | c && d ; e");
    let words: Vec<Vec<String>> = segments.iter().map(|s| s.tokens.clone()).collect();
    assert_eq!(words, vec![vec!["a", "b"], vec!["c"], vec!["d"], vec!["e"]]);
    assert_eq!(segments[1].join, Some(Sep::Pipe));
}

#[test]
fn columns_are_as_wide_as_their_widest_cell() {
    let row = |a: &str, b: &str| vec![a.to_string(), b.to_string()];
    let text = render_grid(&vec![row("id", "n"), row("long-id", "1")], 2);
    let lines: Vec<&str> = text.lines().collect();
    assert_eq!(lines.len(), 2);
    assert_eq!(lines[0].find('n'), lines[1].find('1'));
}
