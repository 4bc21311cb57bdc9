use sofka::logs::LogsView;
use sofka::pretty::{ExternalFormat, JSON_CACHE_LIMIT};

const LINE: &str = "2026-01-01T00:00:00Z {\"a\":1}";
const PRETTY: &str = "2026-01-01T00:00:00Z {\n  \"a\": 1\n}";

#[test]
fn toggling_the_json_view_pretty_prints_existing_lines() {
    let mut v = LogsView::new();
    v.push_line(LINE.to_string());
    v.push_line("2026-01-01T00:00:01Z plain text".to_string());
    assert_eq!(v.display_line(0), LINE);
    let reqs = v.toggle_json();
    assert!(v.json);
    assert!(reqs.is_empty());
    assert_eq!(v.display_line(0), PRETTY);
    assert_eq!(v.display_line(1), "2026-01-01T00:00:01Z plain text");
    // 28 bytes for the JSON line, 12 (text) + 21 (head) + 21 (timestamp)
    // for its record, then 31 bytes for the plain line.
    assert_eq!(v.json_budget, JSON_CACHE_LIMIT - 28 - 54 - 31);
    assert_eq!(v.meta[0].json_charge, 82);
    assert!(v.meta[1].pretty.is_none());
    // Off again: the raw lines show, and nothing is looked at twice.
    let reqs = v.toggle_json();
    assert!(!v.json && reqs.is_empty());
    assert_eq!(v.display_line(0), LINE);
    let budget = v.json_budget;
    v.toggle_json();
    assert_eq!(v.json_budget, budget);
    assert_eq!(v.display_line(0), PRETTY);
}

#[test]
fn lines_pushed_while_the_json_view_is_on_are_formatted_on_arrival() {
    let mut v = LogsView::new();
    v.toggle_json();
    let p = v.push_line(LINE.to_string());
    assert_eq!(p, 0);
    assert_eq!(v.display_line(0), PRETTY);
    assert!(v.meta[0].checked_json);
    assert_eq!(v.json_budget, JSON_CACHE_LIMIT - 82);
}

#[test]
fn an_external_formatter_gets_the_records_to_format() {
    let mut v = LogsView::new();
    v.format_command = vec!["jq".to_string()];
    v.push_line(LINE.to_string());
    v.push_line("2026-01-01T00:00:01Z plain".to_string());
    v.push_line("2026-01-01T00:00:02Z [1,2]".to_string());
    // Pushed while the view is off: not looked at yet.
    assert!(!v.meta[0].checked_json);
    let reqs = v.toggle_json();
    assert_eq!(
        reqs,
        vec![(0, 21, "{\"a\":1}".to_string()), (2, 21, "[1,2]".to_string())]
    );
    let line = v.lines[0].clone();
    v.meta[0].json_outcome(&line, 21, ExternalFormat::Formatted("a=1".to_string()), &mut v.json_budget, &mut v.format_broken);
    assert_eq!(v.display_line(0), "2026-01-01T00:00:00Z a=1");
    let line = v.lines[2].clone();
    v.meta[2].json_outcome(&line, 21, ExternalFormat::Missing, &mut v.json_budget, &mut v.format_broken);
    assert!(v.format_broken);
    assert_eq!(v.display_line(2), "2026-01-01T00:00:02Z [1,2]");
    // A broken formatter is not asked again.
    v.push_line("2026-01-01T00:00:03Z {\"b\":2}".to_string());
    assert!(v.prepare_json().is_empty());
}

#[test]
fn prepare_json_does_nothing_while_the_view_is_off() {
    let mut v = LogsView::new();
    v.push_line(LINE.to_string());
    assert!(v.prepare_json().is_empty());
    assert!(!v.meta[0].checked_json);
    assert_eq!(v.json_budget, JSON_CACHE_LIMIT);
}

#[test]
fn hiding_timestamps_hides_them_in_pretty_forms_too() {
    let mut v = LogsView::new();
    v.push_line(LINE.to_string());
    v.toggle_json();
    v.toggle_timestamps();
    assert_eq!(v.display_line(0), "{\n  \"a\": 1\n}");
    v.toggle_timestamps();
    assert_eq!(v.display_line(0), PRETTY);
}
