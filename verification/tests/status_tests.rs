use sofka::logline::{pod_readiness_blocked, row_status, PodCondition, PodReadiness};
use sofka::screen::{header_title, sync_indicator, yaml_parts, SyncTone, YamlPart};
use sofka::session::Mode;

#[test]
fn sync_indicator_labels_static_documents() {
    assert_eq!(sync_indicator(Mode::Table, Mode::Detail, true).0, "● live");
    assert_eq!(sync_indicator(Mode::Table, Mode::Detail, false).0, "○ syncing");
    assert_eq!(sync_indicator(Mode::Detail, Mode::Detail, true).0, "○ static");
    assert_eq!(sync_indicator(Mode::Diff, Mode::Detail, true).0, "○ static");
    // `/` search inside a document keeps the static label…
    assert_eq!(sync_indicator(Mode::DocFilter, Mode::Detail, true).0, "○ static");
    // …but searching help (not resource data) doesn't.
    assert_eq!(sync_indicator(Mode::DocFilter, Mode::Help, true).0, "● live");
    // Events are watch-backed, genuinely live.
    assert_eq!(sync_indicator(Mode::Events, Mode::Detail, true).0, "● live");
}

#[test]
fn sync_indicator_tone_follows_the_label() {
    assert_eq!(sync_indicator(Mode::PvcExplore, Mode::Table, false), ("○ static", SyncTone::Static));
    assert_eq!(sync_indicator(Mode::Explain, Mode::Table, true), ("○ static", SyncTone::Static));
    assert_eq!(sync_indicator(Mode::Logs, Mode::Table, false), ("○ syncing", SyncTone::Syncing));
    assert_eq!(sync_indicator(Mode::DocFilter, Mode::Diff, false), ("○ static", SyncTone::Static));
}

#[test]
fn header_title_shows_connected_kubernetes_revision() {
    assert_eq!(header_title(""), " sofka ");
    assert_eq!(header_title("v1.36.2-eks-bca9cf6"), " sofka · K8s Rev: v1.36.2-eks-bca9cf6 ");
}

fn cond(kind: &str, status: &str) -> PodCondition {
    PodCondition { kind: Some(kind.to_string()), status: Some(status.to_string()) }
}

#[test]
fn readiness_is_blocked_by_a_false_ready_condition() {
    let ready = PodReadiness { conditions: Some(vec![cond("Ready", "True")]), gates: None };
    assert!(!pod_readiness_blocked(&ready));
    let not_ready = PodReadiness { conditions: Some(vec![cond("Ready", "False")]), gates: None };
    assert!(pod_readiness_blocked(&not_ready));
    // No Ready condition at all does not block by itself.
    let none = PodReadiness { conditions: None, gates: None };
    assert!(!pod_readiness_blocked(&none));
    // The first Ready condition counts.
    let two = PodReadiness { conditions: Some(vec![cond("Ready", "True"), cond("Ready", "False")]), gates: None };
    assert!(!pod_readiness_blocked(&two));
}

#[test]
fn readiness_gates_need_their_conditions_to_hold() {
    let gated = |conds: Vec<PodCondition>, gates: Vec<Option<&str>>| PodReadiness {
        conditions: Some(conds),
        gates: Some(gates.into_iter().map(|g| g.map(str::to_string)).collect()),
    };
    assert!(!pod_readiness_blocked(&gated(vec![cond("Ready", "True"), cond("lb", "True")], vec![Some("lb")])));
    assert!(pod_readiness_blocked(&gated(vec![cond("Ready", "True"), cond("lb", "False")], vec![Some("lb")])));
    assert!(pod_readiness_blocked(&gated(vec![cond("Ready", "True")], vec![Some("lb")])));
    // A gate without a condition type never passes.
    assert!(pod_readiness_blocked(&gated(vec![cond("Ready", "True")], vec![None])));
    let no_status = PodCondition { kind: Some("lb".to_string()), status: None };
    assert!(pod_readiness_blocked(&gated(vec![no_status], vec![Some("lb")])));
}

#[test]
fn running_pods_that_are_not_ready_paint_as_starting() {
    assert_eq!(row_status("Running", Some("1/2"), false), "PodInitializing");
    assert_eq!(row_status("Running", Some("2/2"), false), "Running");
    assert_eq!(row_status("Running", Some("2/2"), true), "PodInitializing");
    assert_eq!(row_status("Running", None, false), "Running");
    assert_eq!(row_status("Pending", Some("0/1"), true), "Pending");
}

fn parts(line: &str) -> Vec<(String, YamlPart)> {
    yaml_parts(line)
}

#[test]
fn yaml_highlighting() {
    // Comment kept whole.
    assert_eq!(parts("  # note"), vec![("  # note".to_string(), YamlPart::Comment)]);
    // Section header.
    assert_eq!(parts("Containers:"), vec![("Containers:".to_string(), YamlPart::Header)]);
    // key: value — key, separator, the alignment padding, then the value.
    let spans = parts("Status:    Running");
    assert_eq!(spans[0], ("Status".to_string(), YamlPart::Key));
    assert_eq!(spans.last().unwrap(), &("Running".to_string(), YamlPart::Value));
    assert_eq!(
        spans,
        vec![
            ("Status".to_string(), YamlPart::Key),
            (": ".to_string(), YamlPart::Separator),
            ("   ".to_string(), YamlPart::Padding),
            ("Running".to_string(), YamlPart::Value),
        ]
    );
}

#[test]
fn yaml_lines_that_are_not_keys_stay_whole() {
    // A URL has `: ` only after a non-key.
    assert_eq!(parts("see http://x: y"), vec![("see http://x: y".to_string(), YamlPart::Text)]);
    // A key with nothing after the separator has no value piece.
    assert_eq!(
        parts("Start Time: "),
        vec![("Start Time".to_string(), YamlPart::Key), (": ".to_string(), YamlPart::Separator)]
    );
    // Indented headers count; the first `: ` decides the key.
    assert_eq!(parts("  Labels:"), vec![("  Labels:".to_string(), YamlPart::Header)]);
    assert_eq!(parts("a: b: c")[2], ("b: c".to_string(), YamlPart::Value));
    assert_eq!(parts(""), vec![(String::new(), YamlPart::Text)]);
}
