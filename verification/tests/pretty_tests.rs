use sofka::logs::LogLineMeta;
use sofka::pretty::{ExternalFormat, JSON_RECORD_LIMIT};

fn builtin(line: &str, budget: &mut usize) -> LogLineMeta {
    let mut m = LogLineMeta::parse(line, Some(0));
    let mut broken = false;
    let r = m.format_json(line, budget, &Vec::new(), &mut broken);
    assert!(r.is_none());
    assert!(!broken);
    m
}

#[test]
fn json_after_a_timestamp_is_pretty_printed_and_charged() {
    let line = "2026-06-30T12:52:20.876Z {\"a\":1}";
    let mut budget = 1000;
    let m = builtin(line, &mut budget);
    assert_eq!(m.pretty.as_deref(), Some("2026-06-30T12:52:20.876Z {\n  \"a\": 1\n}"));
    // 32 bytes for the line, then 12 (text) + 25 (head) + 25 (timestamp).
    assert_eq!(budget, 1000 - 32 - 62);
    assert_eq!(m.json_charge, 94);
    assert!(m.checked_json);
}

#[test]
fn json_after_a_source_prefix_keeps_the_prefix() {
    let line = "[pod/app] {\"b\":[1,2]}";
    let mut budget = 1000;
    let m = builtin(line, &mut budget);
    assert_eq!(m.pretty.as_deref(), Some("[pod/app] {\n  \"b\": [\n    1,\n    2\n  ]\n}"));
}

#[test]
fn a_line_is_looked_at_once() {
    let line = "{\"a\":1}";
    let mut budget = 100;
    let mut m = builtin(line, &mut budget);
    let after = budget;
    let mut broken = false;
    m.format_json(line, &mut budget, &Vec::new(), &mut broken);
    assert_eq!(budget, after);
}

#[test]
fn non_json_lines_and_invalid_json_keep_no_record() {
    let mut budget = 1000;
    let m = builtin("plain text", &mut budget);
    assert!(m.pretty.is_none());
    assert_eq!(budget, 1000 - 10);
    let m = builtin("{not json", &mut budget);
    assert!(m.pretty.is_none());
    assert_eq!(budget, 1000 - 10 - 9);
}

#[test]
fn a_line_larger_than_the_budget_is_skipped_without_charge() {
    let mut budget = 5;
    let m = builtin("{\"a\":1}", &mut budget);
    assert!(m.pretty.is_none());
    assert_eq!(budget, 5);
    assert_eq!(m.json_charge, 0);
    assert!(m.checked_json);
}

#[test]
fn a_formatted_record_that_does_not_fit_is_dropped_but_the_line_stays_charged() {
    let mut budget = 10;
    let m = builtin("{\"a\":1}", &mut budget);
    assert!(m.pretty.is_none());
    assert_eq!(budget, 3);
    assert_eq!(m.json_charge, 7);
}

#[test]
fn long_records_are_left_to_external_formatters() {
    let line = format!("{{\"k\":\"{}\"}}", "x".repeat(JSON_RECORD_LIMIT));
    let mut budget = 1 << 20;
    let m = builtin(&line, &mut budget);
    assert!(m.pretty.is_none());

    let mut m = LogLineMeta::parse(&line, Some(0));
    let mut budget = 1 << 20;
    let mut broken = false;
    let req = m.format_json(&line, &mut budget, &vec!["jq".to_string()], &mut broken);
    let (te, payload) = req.unwrap();
    assert_eq!(te, 0);
    assert_eq!(payload, line);
}

#[test]
fn external_outcomes() {
    let line = "[web] {\"a\":1}";
    let mut m = LogLineMeta::parse(line, Some(0));
    let mut budget = 1000;
    let mut broken = false;
    let (te, payload) = m.format_json(line, &mut budget, &vec!["fmt".to_string()], &mut broken).unwrap();
    assert_eq!(te, 6);
    assert_eq!(payload, "{\"a\":1}");
    m.json_outcome(line, te, ExternalFormat::Formatted("a=1".to_string()), &mut budget, &mut broken);
    assert_eq!(m.pretty.as_deref(), Some("[web] a=1"));
    assert_eq!(budget, 1000 - 13 - 9);
    assert!(!broken);

    let mut m = LogLineMeta::parse(line, Some(0));
    let (te, _) = m.format_json(line, &mut budget, &vec!["fmt".to_string()], &mut broken).unwrap();
    m.json_outcome(line, te, ExternalFormat::Missing, &mut budget, &mut broken);
    assert!(broken);
    assert!(m.pretty.is_none());
    // Once the formatter is known to be missing, no record is requested.
    let mut m = LogLineMeta::parse(line, Some(0));
    assert!(m.format_json(line, &mut budget, &vec!["fmt".to_string()], &mut broken).is_none());
}

#[test]
fn a_bad_source_label_is_not_a_prefix() {
    let mut budget = 1000;
    let m = builtin("[a b] {\"a\":1}", &mut budget);
    assert!(m.pretty.is_none());
    let m = builtin("[] {\"a\":1}", &mut budget);
    assert!(m.pretty.is_none());
}
