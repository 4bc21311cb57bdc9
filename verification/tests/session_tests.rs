use sofka::logs::{clean_log_line, log_anchor, log_buffer_cap, log_tail_and_since, lookback_message, LogLineMeta, LogsView};
use sofka::session::{App, Mode};

fn s(text: &str) -> String {
    text.to_string()
}

fn strings(items: &[&str]) -> Vec<String> {
    items.iter().map(|t| t.to_string()).collect()
}

fn app() -> App {
    App {
        mode: Mode::Table,
        namespace: s("default"),
        default_namespace: s("default"),
        context: s("prod"),
        ns_filter: String::new(),
        ns_list: strings(&["<all>", "kube-system", "default", "apps"]),
        namespace_favorites: vec![],
        recent_namespaces: vec![],
        headers: strings(&["NAME", "READY", "AGE"]),
        sort_picker_filter: String::new(),
        sort_column: None,
        sort_desc: false,
        copy_picker_fields: vec![],
        copy_picker_filter: String::new(),
        ctx_filter: String::new(),
        ctx_filtering: false,
        ctx_list: vec![],
        ctx_selected: None,
        ns_selected: None,
        sort_selected: None,
        copy_selected: None,
        launch_namespace: None,
        readonly: false,
        readonly_override: None,
        kind: Some(s("deployments")),
        flash: String::new(),
        flash_err: false,
    }
}

#[test]
fn namespaces_list_favourites_then_recents_then_the_rest() {
    let mut a = app();
    a.mode = Mode::Namespaces;
    a.namespace = s("team-x");
    a.namespace_favorites = strings(&["monitoring", "", "apps"]);
    a.note_recent_namespace("kube-system");
    a.note_recent_namespace("gone");
    a.note_recent_namespace("<all>");
    assert!(a.is_recent_namespace("gone"));
    assert!(a.is_favorite_namespace("apps"));
    assert!(!a.is_favorite_namespace("default"));
    let cands = a.namespace_candidates();
    assert_eq!(cands, strings(&["apps", "default", "kube-system", "team-x"]));
    assert_eq!(
        a.filtered_namespaces(&[]),
        strings(&["<all>", "monitoring", "apps", "kube-system", "default", "team-x"])
    );
}

#[test]
fn namespace_filter_ranks_by_score_then_name() {
    let mut a = app();
    a.ns_filter = s("a");
    let cands = a.namespace_candidates();
    assert_eq!(cands, strings(&["apps", "default", "kube-system"]));
    let scores = [Some(5), None, Some(5)];
    assert_eq!(a.filtered_namespaces(&scores), strings(&["<all>", "apps", "kube-system"]));
    let scores = [Some(1), Some(9), Some(5)];
    assert_eq!(a.filtered_namespaces(&scores), strings(&["<all>", "default", "kube-system", "apps"]));
}

#[test]
fn recents_stay_distinct_newest_first_and_bounded() {
    let mut a = app();
    for i in 0..12 {
        a.note_recent_namespace(&format!("ns{i}"));
    }
    a.note_recent_namespace("ns5");
    a.context = s("other");
    assert!(!a.is_recent_namespace("ns5"));
    a.context = s("prod");
    let recents = a.recent_namespaces_for_context();
    assert_eq!(recents, strings(&["ns5", "ns11", "ns10", "ns9", "ns8", "ns7", "ns6", "ns4"]));
}

#[test]
fn sort_picker_pins_the_default_entry() {
    let mut a = app();
    assert_eq!(a.filtered_sort_entries(&[]), strings(&["default (ns/name)", "NAME", "READY", "AGE"]));
    a.sort_picker_filter = s("e");
    assert_eq!(a.filtered_sort_entries(&[Some(2), None, Some(2)]), strings(&["default (ns/name)", "AGE", "NAME"]));
}

#[test]
fn sort_choice_toggles_direction() {
    let mut a = app();
    a.mode = Mode::SortPicker;
    a.apply_sort_choice("AGE");
    assert_eq!(a.mode, Mode::Table);
    assert_eq!(a.sort_column, Some(2));
    assert!(!a.sort_desc);
    assert_eq!(a.flash, "sort by AGE ↑ asc");
    a.apply_sort_choice("AGE");
    assert!(a.sort_desc);
    assert_eq!(a.flash, "sort by AGE ↓ desc");
    a.apply_sort_choice("default (ns/name)");
    assert_eq!(a.sort_column, None);
    assert_eq!(a.flash, "sort by default (ns/name)");
    a.apply_sort_choice("MISSING");
    assert_eq!(a.sort_column, None);
}

#[test]
fn copy_picker_ranks_matches() {
    let mut a = app();
    a.copy_picker_fields = vec![(s("NAME"), s("web")), (s("IP"), s("10.0.0.1")), (s("NODE"), s("n1"))];
    assert_eq!(a.filtered_copy_entries(&[]), a.copy_picker_fields);
    a.copy_picker_filter = s("1");
    assert_eq!(
        a.filtered_copy_entries(&[None, Some(3), Some(3)]),
        vec![(s("IP"), s("10.0.0.1")), (s("NODE"), s("n1"))]
    );
}

#[test]
fn copy_message_truncates_long_values() {
    let mut a = app();
    a.mode = Mode::CopyPicker;
    assert_eq!(a.copy_field("NAME", "web"), "copied NAME: web");
    assert_eq!(a.mode, Mode::Table);
    let long = "x".repeat(61);
    assert_eq!(a.copy_field("V", &long), format!("copied V: {}…", "x".repeat(60)));
    let exact = "y".repeat(60);
    assert_eq!(a.copy_field("V", &exact), format!("copied V: {exact}"));
}

#[test]
fn contexts_filter_and_disconnect() {
    let mut a = app();
    a.ctx_list = strings(&["prod", "dev", "lab"]);
    assert_eq!(a.filtered_contexts(&[]), strings(&["prod", "dev", "lab"]));
    a.ctx_filter = s("d");
    assert_eq!(a.filtered_contexts(&[Some(1), Some(1), None]), strings(&["dev", "prod"]));
    a.start_disconnected("connection refused", Some(s("payments")));
    assert_eq!(a.mode, Mode::Contexts);
    assert!(a.ctx_list.is_empty());
    assert!(a.ctx_filter.is_empty());
    assert_eq!(a.launch_namespace.as_deref(), Some("payments"));
    assert_eq!(a.flash, "cannot connect to 'prod': connection refused — pick another context");
    assert!(a.flash_err);
    a.context = String::new();
    a.start_disconnected("no kubeconfig", None);
    assert_eq!(a.flash, "cannot connect: no kubeconfig — pick another context");
    assert_eq!(a.launch_namespace, None);
}

#[test]
fn log_lines_keep_time_order() {
    let mut v = LogsView::new();
    v.push_line(s("2026-01-01T00:00:02Z second"));
    v.push_line(s("2026-01-01T00:00:01Z first"));
    v.push_line(s("no timestamp"));
    v.push_line(s("[app] 2026-01-01T00:00:01Z also first"));
    assert_eq!(
        v.lines,
        strings(&[
            "2026-01-01T00:00:01Z first",
            "[app] 2026-01-01T00:00:01Z also first",
            "2026-01-01T00:00:02Z second",
            "no timestamp",
        ])
    );
    assert_eq!(v.display_line(3), "no timestamp");
}

#[test]
fn timestamps_toggle_off_and_back() {
    let mut v = LogsView::new();
    v.push_line(s("2026-01-01T00:00:01Z hello"));
    v.push_line(s("[web] 2026-01-01T00:00:02Z there"));
    v.push_line(s("plain"));
    let before = v.lines.clone();
    v.toggle_timestamps();
    assert_eq!(v.lines, strings(&["hello", "[web] there", "plain"]));
    v.push_line(s("2026-01-01T00:00:03Z later"));
    assert_eq!(v.lines[3], "later");
    v.toggle_timestamps();
    assert_eq!(&v.lines[..3], &before[..]);
    assert_eq!(v.lines[3], "2026-01-01T00:00:03Z later");
}

#[test]
fn log_meta_reads_the_leading_timestamp() {
    let m = LogLineMeta::parse("2026-06-30T12:52:20.876Z request done", None);
    assert_eq!(m.timestamp, Some((0, s("2026-06-30T12:52:20.876Z "))));
    assert!(m.sort_time.is_some());
    let m = LogLineMeta::parse("nothing here", Some(42));
    assert_eq!(m.timestamp, None);
    assert_eq!(m.sort_time, Some(42));
}

#[test]
fn buffer_keeps_the_newest_lines() {
    let mut v = LogsView::new();
    v.push_log_lines(strings(&["a\tb", "c\r", "d", "e"]), 3);
    assert_eq!(v.lines, strings(&["c", "d", "e"]));
    assert_eq!(clean_log_line("x\ty\r\n"), "x y\n");
    assert_eq!(log_buffer_cap(true, 0, 100), 1);
    assert_eq!(log_buffer_cap(true, 5000, 100), 5000);
    assert_eq!(log_buffer_cap(false, 5000, 100), 100);
}

#[test]
fn log_tail_and_lookback() {
    assert_eq!(log_tail_and_since(300, None, &None), (300, None));
    assert_eq!(log_tail_and_since(0, None, &Some(s("1h"))), (1, Some(3600)));
    assert_eq!(log_tail_and_since(10, Some(0), &Some(s("1h"))), (10, None));
    assert_eq!(log_tail_and_since(10, Some(60), &Some(s("1h"))), (10, Some(60)));
    assert_eq!(log_tail_and_since(10, None, &Some(s("soon"))), (10, None));
    assert_eq!(log_anchor('3'), Some((900, "15m")));
    assert_eq!(log_anchor('9'), None);
    assert_eq!(lookback_message(0, "tail", 0), "showing tail (1 lines)");
    assert_eq!(lookback_message(300, "5m", 300), "showing last 5m");
}

#[test]
fn opening_the_namespace_picker_selects_the_active_namespace() {
    let mut a = app();
    a.mode = Mode::Table;
    a.ns_filter = s("kube");
    a.open_namespaces();
    assert_eq!(a.mode, Mode::Namespaces);
    assert!(a.ns_filter.is_empty());
    let list = a.filtered_namespaces(&[]);
    assert_eq!(list[a.ns_selected.unwrap()], "default");
    a.namespace = String::new();
    a.open_namespaces();
    assert_eq!(a.ns_selected, Some(0));
}

#[test]
fn best_match_cursors_skip_the_pinned_entries() {
    let mut a = app();
    a.ns_filter = s("kube");
    let cands = a.namespace_candidates();
    let scores: Vec<Option<i64>> = cands.iter().map(|n| if n.contains("kube") { Some(10) } else { None }).collect();
    a.select_best_namespace_match(&scores);
    assert_eq!(a.ns_selected, Some(1));
    let none: Vec<Option<i64>> = cands.iter().map(|_| None).collect();
    a.select_best_namespace_match(&none);
    assert_eq!(a.ns_selected, Some(0));
    a.ns_filter.clear();
    a.select_best_namespace_match(&[]);
    assert_eq!(a.ns_selected, Some(0));

    a.sort_column = Some(2);
    a.select_best_sort_match(&[]);
    assert_eq!(a.sort_selected, Some(3));
    a.sort_picker_filter = s("re");
    a.select_best_sort_match(&[None, Some(5), None]);
    assert_eq!(a.sort_selected, Some(1));
    a.select_best_sort_match(&[None, None, None]);
    assert_eq!(a.sort_selected, Some(0));
    a.select_best_copy_match();
    assert_eq!(a.copy_selected, Some(0));
}

#[test]
fn sort_picker_opens_on_the_active_column_or_warns() {
    let mut a = app();
    a.sort_column = Some(1);
    a.open_sort_picker();
    assert_eq!(a.mode, Mode::SortPicker);
    assert_eq!(a.sort_selected, Some(2));
    let mut b = app();
    b.headers.clear();
    b.open_sort_picker();
    assert_eq!(b.mode, Mode::Table);
    assert_eq!(b.flash, "no columns to sort by");
    assert!(b.flash_err);
}

#[test]
fn sort_by_age_needs_an_age_column() {
    let mut a = app();
    a.sort_by_age();
    assert_eq!(a.sort_column, Some(2));
    assert!(!a.sort_desc);
    assert_eq!(a.flash, "sort by AGE ↑ asc");
    a.sort_by_age();
    assert!(a.sort_desc);
    let mut b = app();
    b.headers = strings(&["NAME"]);
    b.sort_by_age();
    assert_eq!(b.sort_column, None);
    assert_eq!(b.flash, "view has no AGE column");
    assert!(b.flash_err);
}

#[test]
fn copy_picker_opens_on_the_row_fields_or_warns() {
    let mut a = app();
    a.open_copy_picker(vec![(s("NAME"), s("web")), (s("IP"), s("10.0.0.1"))]);
    assert_eq!(a.mode, Mode::CopyPicker);
    assert_eq!(a.copy_selected, Some(0));
    assert_eq!(a.copy_picker_fields.len(), 2);
    let mut b = app();
    b.open_copy_picker(vec![]);
    assert_eq!(b.flash, "no row selected");
    assert_eq!(b.mode, Mode::Table);
}

#[test]
fn favourite_namespaces_by_number() {
    let mut a = app();
    a.namespace_favorites = strings(&["apps", "", "kube-system"]);
    assert_eq!(a.favorite_namespace(0), Some(s("apps")));
    assert_eq!(a.favorite_namespace(1), None);
    assert_eq!(a.favorite_namespace(2), Some(s("kube-system")));
    assert_eq!(a.favorite_namespace(3), None);
}

#[test]
fn context_picker_cursor_and_switch() {
    let mut a = app();
    a.ctx_list = strings(&["dev", "prod", "stage"]);
    a.select_current_context(&[]);
    assert_eq!(a.ctx_selected, Some(1));
    a.context = s("gone");
    a.select_current_context(&[]);
    assert_eq!(a.ctx_selected, Some(0));
    a.ctx_filter = s("st");
    a.select_best_context_match(&[None, None, Some(3)]);
    assert_eq!(a.ctx_selected, Some(0));
    a.select_best_context_match(&[None, None, None]);
    assert_eq!(a.ctx_selected, None);
    a.ctx_filtering = true;
    a.mode = Mode::Contexts;
    assert_eq!(a.switch_selected_context(&[None, None, Some(3)]), None);
    a.ctx_selected = Some(0);
    assert_eq!(a.switch_selected_context(&[None, None, Some(3)]), Some(s("stage")));
    assert_eq!(a.mode, Mode::Table);
    assert!(a.ctx_filter.is_empty());
    assert!(!a.ctx_filtering);
}

#[test]
fn a_context_switch_takes_readonly_from_the_flag_or_the_config() {
    let kinds = strings(&["pods", "deployments"]);
    let mut a = app();
    a.apply_context_switch(s("dev"), true, vec![], s("default"), true, None, &kinds, None);
    assert!(a.readonly);
    a.apply_context_switch(s("prod"), false, vec![], s("default"), true, None, &kinds, None);
    assert!(!a.readonly);
    a.readonly_override = Some(false);
    a.apply_context_switch(s("dev"), true, vec![], s("default"), true, None, &kinds, None);
    assert!(!a.readonly, "--write wins over the config");
    a.readonly_override = Some(true);
    a.apply_context_switch(s("dev"), false, vec![], s("default"), true, None, &kinds, None);
    assert!(a.readonly, "--readonly wins over the config");
    assert_eq!(a.readonly_override, Some(true));
}

#[test]
fn the_launch_namespace_applies_to_the_first_switch_only() {
    let kinds = strings(&["pods"]);
    let mut a = app();
    a.launch_namespace = Some(s("team-a"));
    a.apply_context_switch(s("dev"), false, strings(&["x", "y"]), s("default"), false, None, &kinds, None);
    assert_eq!(a.namespace, "team-a");
    assert!(a.launch_namespace.is_none());
    assert_eq!(a.namespace_favorites, strings(&["x", "y"]));
    assert_eq!(a.context, "dev");
    assert!(a.ns_list.is_empty());
    a.apply_context_switch(s("prod"), false, vec![], s("kube-system"), true, None, &kinds, None);
    assert_eq!(a.namespace, "kube-system");
    // `-A` asks for all namespaces, the empty name.
    a.launch_namespace = Some(String::new());
    a.apply_context_switch(s("prod"), false, vec![], s("default"), true, None, &kinds, None);
    assert_eq!(a.namespace, "");
}

#[test]
fn a_switch_opens_the_previous_kind_or_the_default_or_pods() {
    let mut a = app();
    let r = a.apply_context_switch(s("dev"), false, vec![], s("default"), true, Some(s("nodes")), &strings(&["pods", "deployments", "nodes"]), None);
    assert_eq!(r.as_deref(), Some("deployments"));
    assert_eq!(a.kind.as_deref(), Some("deployments"));
    assert_eq!(a.flash, "Viewing deployments");
    assert!(!a.flash_err);
    let r = a.apply_context_switch(s("edge"), false, vec![], s("default"), true, Some(s("nodes")), &strings(&["pods", "nodes"]), None);
    assert_eq!(r.as_deref(), Some("nodes"));
    assert_eq!(a.flash, "deployments is unavailable in edge; viewing nodes");
    assert!(a.flash_err);
    let r = a.apply_context_switch(s("bare"), false, vec![], s("default"), false, Some(s("nodes")), &strings(&["pods"]), None);
    assert_eq!(r.as_deref(), Some("pods"));
    assert_eq!(a.flash, "Viewing pods");
    let r = a.apply_context_switch(s("empty"), false, vec![], s("default"), true, None, &strings(&["nodes"]), None);
    assert_eq!(r, None);
    assert_eq!(a.flash, "No resource matches 'pods' or 'pods' in empty");
    assert!(a.flash_err);
}

#[test]
fn a_configuration_warning_is_added_to_the_status_line() {
    let kinds = strings(&["pods"]);
    let mut a = app();
    a.kind = Some(s("pods"));
    a.apply_context_switch(s("dev"), false, vec![], s("default"), true, None, &kinds, Some(s("bad layer")));
    assert_eq!(a.flash, "bad layer");
    assert!(a.flash_err);
    a.kind = Some(s("jobs"));
    a.apply_context_switch(s("dev"), false, vec![], s("default"), true, None, &kinds, Some(s("bad layer")));
    assert_eq!(a.flash, "jobs is unavailable in dev; viewing pods; bad layer");
}
