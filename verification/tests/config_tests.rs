use sofka::config::{
    bookmark_warnings, forward_warnings, guardrail_warnings, logging_warnings, mouse_scroll_lines,
    notify_warnings, parse_level, parse_lookback, plugin_warnings, pvc_explore_warnings, sanitize, state_of,
    workspace_warnings, Bookmark, Forward, Guardrail, JournalConfig, LoggingConfig, NodeRoles, NotifyConfig, PvcExploreConfig,
    Plugin, ReadOutcome, Workspace, WorkspaceView,
};
use sofka::keys::{KeyChord, KeyCode};

fn s(text: &str) -> String {
    text.to_string()
}

#[test]
fn sanitize_maps_unsafe_chars_to_dashes() {
    assert_eq!(sanitize("prod-cluster_1.io"), "prod-cluster_1.io");
    assert_eq!(sanitize("arn:aws:eks:eu-west-1:123:cluster/prod"), "arn-aws-eks-eu-west-1-123-cluster-prod");
    assert_eq!(sanitize(".."), "--");
    assert_eq!(sanitize(""), "-");
}

#[test]
fn sanitize_keeps_dots_beside_other_characters() {
    assert_eq!(sanitize("."), "-");
    assert_eq!(sanitize(".a."), ".a.");
    assert_eq!(sanitize("é/ü"), "---");
}

#[test]
fn journal_config_defaults_and_overrides() {
    let cfg = JournalConfig::default();
    assert!(!cfg.enabled);
    assert_eq!(cfg.path(s("/state/journal.jsonl")), "/state/journal.jsonl");
    assert_eq!(cfg.max_bytes(), 8 * 1024 * 1024);
    let cfg = JournalConfig { enabled: true, file: Some(s("actions.jsonl")), max_size_mb: 0 };
    assert!(cfg.enabled);
    assert_eq!(cfg.path(s("/state/journal.jsonl")), "actions.jsonl");
    assert_eq!(cfg.max_bytes(), 64 * 1024);
}

#[test]
fn logging_defaults_to_off_under_the_state_dir() {
    let cfg = LoggingConfig::default();
    assert_eq!(cfg.level, "off");
    assert!(logging_warnings(&cfg).is_empty());
    assert_eq!(cfg.path(s("/state/logs/sofka.log")), "/state/logs/sofka.log");
    assert_eq!(cfg.max_bytes(), 8 * 1024 * 1024);
}

#[test]
fn parses_logging_section() {
    let cfg = LoggingConfig { level: s("debug"), file: Some(s("/tmp/sofka-test.log")), max_size_mb: 2 };
    assert_eq!(cfg.level, "debug");
    assert_eq!(cfg.path(s("/state/logs/sofka.log")), "/tmp/sofka-test.log");
    assert_eq!(cfg.max_bytes(), 2 * 1024 * 1024);
    assert!(logging_warnings(&cfg).is_empty());
}

#[test]
fn logging_bad_level_warns_and_empty_file_falls_back() {
    let cfg = LoggingConfig { level: s("chatty"), file: Some(s("")), max_size_mb: 8 };
    let warnings = logging_warnings(&cfg);
    assert_eq!(warnings.len(), 2, "{warnings:?}");
    assert!(warnings[0].contains("chatty"), "{warnings:?}");
    assert!(warnings[1].contains("file is empty"), "{warnings:?}");
    assert_eq!(cfg.path(s("/state/logs/sofka.log")), "/state/logs/sofka.log");
}

#[test]
fn logging_rotation_floor_survives_a_zero() {
    let cfg = LoggingConfig { level: s("off"), file: None, max_size_mb: 0 };
    assert_eq!(cfg.max_bytes(), 64 * 1024);
}

#[test]
fn rotation_saturates_instead_of_overflowing() {
    let cfg = LoggingConfig { level: s("off"), file: None, max_size_mb: u64::MAX };
    assert_eq!(cfg.max_bytes(), u64::MAX);
}

#[test]
fn log_levels_are_case_insensitive() {
    for level in ["off", "error", "warn", "info", "debug", "trace", " DEBUG "] {
        assert!(parse_level(level), "{level}");
    }
    assert!(!parse_level("verbose"));
    assert!(!parse_level(""));
}

#[test]
fn notify_warnings_flag_unknown_protocol_and_blank_executable() {
    let ok = NotifyConfig::default();
    assert!(notify_warnings(&ok).is_empty());
    let bad = NotifyConfig { bell: true, desktop: s("smoke"), command: vec![s("  "), s("x")] };
    let w = notify_warnings(&bad);
    assert_eq!(
        w,
        vec![
            s("notify: desktop 'smoke' is not osc777/osc9/both/off; using osc777"),
            s("notify: command has an empty executable; ignored"),
        ]
    );
}

#[test]
fn forward_warnings_flag_each_problem() {
    let fwd = |name: &str, target: &str, ports: &str| Forward {
        name: s(name),
        target: s(target),
        namespace: s("default"),
        ports: s(ports),
        autostart: false,
        contexts: vec![],
    };
    let good = [fwd("argocd", "svc/argocd-server", "8080:443"), fwd("db", "pod/db", "5432")];
    assert!(forward_warnings(&good).is_empty());
    let bad = [
        fwd("", "svc/x", "80"),
        fwd("api", "", "80:80:80"),
        fwd("api", "svc/api", ":80"),
        fwd("web", "svc/web", "eighty"),
    ];
    assert_eq!(
        forward_warnings(&bad),
        vec![
            s("forwards: entry with empty name"),
            s("forwards.api: empty target"),
            s("forwards.api: ports '80:80:80' is not LOCAL:REMOTE (e.g. 8080:80)"),
            s("forwards.api: duplicate name"),
            s("forwards.api: ports ':80' is not LOCAL:REMOTE (e.g. 8080:80)"),
            s("forwards.web: ports 'eighty' is not LOCAL:REMOTE (e.g. 8080:80)"),
        ]
    );
}

#[test]
fn forward_matches_listed_contexts_only() {
    let mut f = Forward::default();
    assert!(f.matches_context("anything"));
    f.contexts = vec![s("home"), s("lab")];
    assert!(f.matches_context("lab"));
    assert!(!f.matches_context("prod"));
}

#[test]
fn parses_bookmarks_and_flags_problems() {
    let b = Bookmark {
        key: Some(s("shift-1")),
        name: s("Prod API failures"),
        resource: s("pods"),
        context: Some(s("prod-eu")),
        namespace: Some(s("checkout")),
        filter: Some(s("status!=Running -l app=api")),
        sort: Some(s("RESTARTS:desc")),
        view: Some(s("xray")),
    };
    assert_eq!(b.name, "Prod API failures");
    assert_eq!(b.resource, "pods");
    assert_eq!(b.context.as_deref(), Some("prod-eu"));
    assert_eq!(b.namespace.as_deref(), Some("checkout"));
    assert_eq!(b.sort.as_deref(), Some("RESTARTS:desc"));
    assert_eq!(b.view.as_deref(), Some("xray"));
    assert!(bookmark_warnings(&[b]).is_empty());

    let bad = Bookmark {
        name: s(""),
        resource: s(""),
        key: Some(s("hyper-x")),
        view: Some(s("sidebar")),
        ..Bookmark::default()
    };
    let w = bookmark_warnings(&[bad]);
    assert!(w.iter().any(|s| s.contains("missing `name`")), "{w:?}");
    assert!(w.iter().any(|s| s.contains("missing `resource`")), "{w:?}");
    assert!(w.iter().any(|s| s.contains("invalid key")), "{w:?}");
    assert!(w.iter().any(|s| s.contains("unknown view")), "{w:?}");
}

#[test]
fn bookmark_warnings_quote_the_label() {
    let b = Bookmark { name: s("x\"y"), resource: s(""), ..Bookmark::default() };
    assert_eq!(bookmark_warnings(&[b]), vec![s("bookmark \"x\\\"y\": missing `resource`")]);
    let unnamed = Bookmark { resource: s("pods"), view: Some(s("tree")), ..Bookmark::default() };
    assert_eq!(
        bookmark_warnings(&[unnamed]),
        vec![
            s("bookmark: missing `name`"),
            s("bookmark \"<unnamed>\": unknown view \"tree\" (expected xray/pulse) — ignored"),
        ]
    );
}

#[test]
fn parses_workspaces_and_flags_problems() {
    let view = |name: &str, resource: &str| WorkspaceView {
        name: s(name),
        resource: s(resource),
        namespace: None,
        filter: None,
        sort: None,
        view: None,
    };
    let w = Workspace {
        key: Some(s("ctrl-w")),
        name: s("Checkout ops"),
        context: Some(s("prod-eu")),
        views: vec![view("API pods", "pods"), view("Ingress", "ingresses")],
    };
    assert_eq!(w.name, "Checkout ops");
    assert_eq!(w.context.as_deref(), Some("prod-eu"));
    assert_eq!(w.views.len(), 2);
    assert_eq!(w.views[0].resource, "pods");
    assert!(workspace_warnings(&[w]).is_empty());

    let bad = Workspace { name: s(""), key: Some(s("hyper-x")), ..Workspace::default() };
    let warns = workspace_warnings(&[bad]);
    assert!(warns.iter().any(|s| s.contains("missing `name`")), "{warns:?}");
    assert!(warns.iter().any(|s| s.contains("invalid key")), "{warns:?}");
    assert!(warns.iter().any(|s| s.contains("no [[workspaces.views]]")), "{warns:?}");
}

#[test]
fn workspace_view_becomes_a_bookmark() {
    let v = WorkspaceView {
        name: s("API pods"),
        resource: s("pods"),
        namespace: Some(s("checkout")),
        filter: Some(s("-l app=api")),
        sort: None,
        view: Some(s("pulse")),
    };
    let b = v.as_bookmark();
    assert_eq!(b.key, None);
    assert_eq!(b.context, None);
    assert_eq!(b.name, "API pods");
    assert_eq!(b.namespace.as_deref(), Some("checkout"));
    assert_eq!(b.filter.as_deref(), Some("-l app=api"));
    assert_eq!(b.view.as_deref(), Some("pulse"));
}

#[test]
fn guardrail_warnings_number_from_one() {
    let g = |c: Option<&str>| Guardrail { confirmation: c.map(s), ..Guardrail::default() };
    let w = guardrail_warnings(&[g(Some("confirm")), g(None), g(Some("yes please"))]);
    assert_eq!(
        w,
        vec![s(
            "guardrail #3: unknown confirmation \"yes please\" (expected confirm/type-resource-name/type-context-name) — treated as confirm"
        )]
    );
}

#[test]
fn mouse_scroll_lines_defaults_and_bounds() {
    let mut w = Vec::new();
    assert_eq!(mouse_scroll_lines(None, &mut w), 3);
    assert_eq!(mouse_scroll_lines(Some(7), &mut w), 7);
    assert!(w.is_empty());
    assert_eq!(mouse_scroll_lines(Some(0), &mut w), 1);
    assert_eq!(mouse_scroll_lines(Some(250), &mut w), 100);
    assert_eq!(
        w,
        vec![
            s("mouse_scroll_lines: 0 is not allowed — using 1"),
            s("mouse_scroll_lines: 250 is above the maximum of 100 — using 100"),
        ]
    );
}

#[test]
fn lookback_parses_units() {
    assert_eq!(parse_lookback("30s"), Ok(30));
    assert_eq!(parse_lookback(" 15m "), Ok(900));
    assert_eq!(parse_lookback("4h"), Ok(14400));
    assert_eq!(parse_lookback("2d"), Ok(172800));
    assert!(parse_lookback("soon").is_err());
    assert!(parse_lookback("10").is_err());
    assert!(parse_lookback("1x").is_err());
    assert!(parse_lookback("99999999999999999999d").is_err());
}

#[test]
fn pvc_explore_ttl_must_parse_and_be_positive() {
    assert!(pvc_explore_warnings(&PvcExploreConfig::default()).is_empty());
    let bad = PvcExploreConfig { image: s(" "), ttl: s("0m") };
    assert_eq!(
        pvc_explore_warnings(&bad),
        vec![
            s("pvc_explore: image is empty — helper pods cannot be created"),
            s("pvc_explore: ttl \"0m\" must be positive; using 30m"),
        ]
    );
    let odd = PvcExploreConfig { image: s("busybox"), ttl: s("later") };
    let w = pvc_explore_warnings(&odd);
    assert_eq!(w.len(), 1);
    assert!(w[0].starts_with("pvc_explore: ttl: ") && w[0].ends_with("; using 30m"), "{w:?}");
}

#[test]
fn node_roles_compile_sorts_dedups_and_drops_empty_prefixes() {
    let roles = NodeRoles {
        label_prefixes: vec![s("b/"), s(""), s("a/"), s("b/"), s("")],
        label_keys: vec![s("zone"), s("role"), s("zone")],
    };
    let (compiled, warnings) = roles.compile();
    assert_eq!(compiled.label_prefixes, vec![s("a/"), s("b/")]);
    assert_eq!(compiled.label_keys, vec![s("role"), s("zone")]);
    assert_eq!(warnings, vec![s("node_roles.label_prefixes: empty prefix ignored"); 2]);
    let (again, more) = compiled.compile();
    assert_eq!(again.label_prefixes, compiled.label_prefixes);
    assert!(more.is_empty());
}

#[test]
fn read_outcomes_have_labels() {
    assert_eq!(state_of(&ReadOutcome::Loaded), "loaded");
    assert_eq!(state_of(&ReadOutcome::Absent), "absent");
    assert_eq!(state_of(&ReadOutcome::Invalid(s("bad"))), "invalid - skipped");
}

#[test]
fn key_chords_parse() {
    let k = KeyChord::parse("ctrl-g").unwrap();
    assert_eq!(k, KeyChord { code: KeyCode::Char('g'), ctrl: true, alt: false, shift: false });
    assert_eq!(KeyChord::parse("G").unwrap().code, KeyCode::Char('G'));
    assert_eq!(KeyChord::parse("-").unwrap().code, KeyCode::Char('-'));
    assert_eq!(KeyChord::parse("f10").unwrap().code, KeyCode::F(10));
    assert_eq!(KeyChord::parse("Control-PageDown").unwrap(), KeyChord {
        code: KeyCode::PageDown,
        ctrl: true,
        alt: false,
        shift: false
    });
    assert_eq!(KeyChord::parse("shift-tab").unwrap(), KeyChord { code: KeyCode::Tab, ctrl: false, alt: false, shift: true });
    assert!(KeyChord::parse("hyper-u").is_err());
    assert!(KeyChord::parse("shift--").is_err());
    assert!(KeyChord::parse("f25").is_err());
    assert!(KeyChord::parse("").is_err());
    assert_eq!(KeyChord::parse("meta-x").unwrap_err(), "unrecognized key chord 'meta-x'");
}

fn plugin(key: &str, name: &str, command: &str) -> Plugin {
    Plugin { key: s(key), name: s(name), command: s(command), ..Plugin::default() }
}

#[test]
fn plugin_warnings_flag_bad_output_and_timeout() {
    let mut p = plugin("ctrl-x", "bad", "true");
    p.output = Some(s("sidebar"));
    p.timeout = Some(s("soon"));
    let w = plugin_warnings(&[p]);
    assert_eq!(w.len(), 2, "{w:?}");
    assert!(w.iter().any(|s| s.contains("unknown output")));
    assert!(w.iter().any(|s| s.contains("timeout")));
}

#[test]
fn plugin_warnings_flag_shell_script_placeholders() {
    let mut script = plugin("ctrl-x", "script", "kubectl logs -n $NAMESPACE \"$1\"");
    script.args = vec![s("$NAME")];
    script.shell = true;
    let mut positional = plugin("ctrl-y", "positional", "kubectl logs -n \"$1\" \"$2\"");
    positional.args = vec![s("$NAMESPACE"), s("$NAME")];
    positional.shell = true;
    let direct = plugin("ctrl-z", "direct", "$NAME");
    let w = plugin_warnings(&[script, positional, direct]);
    assert_eq!(w.len(), 1, "{w:?}");
    assert!(w[0].contains("\"script\"") && w[0].contains("$NAMESPACE"), "{w:?}");
}

#[test]
fn plugin_warnings_spell_out_each_problem() {
    let mut p = plugin("hyper-x", "odd", "sh");
    p.prompt = Some(s("sometimes"));
    p.timeout = Some(s("90s"));
    let w = plugin_warnings(&[p]);
    assert_eq!(
        w,
        vec![
            s("plugin \"odd\": invalid key — unrecognized key chord 'hyper-x'"),
            s("plugin \"odd\": unknown prompt \"sometimes\" (expected missing/always) — using missing"),
        ]
    );
    let mut palette_only = plugin("", "palette", "true");
    palette_only.palette = Some(s("pal"));
    palette_only.output = Some(s("report"));
    assert!(plugin_warnings(&[palette_only]).is_empty());
    let keyless = plugin("", "keyless", "true");
    assert_eq!(plugin_warnings(&[keyless]), vec![s("plugin \"keyless\": invalid key — unrecognized key chord ''")]);
    let mut late = plugin("g", "late", "echo $FILTER and $NS");
    late.shell = true;
    late.timeout = Some(s("soon"));
    assert_eq!(
        plugin_warnings(&[late]),
        vec![
            s("plugin \"late\": timeout: 'soon' is not a duration such as 30s, 15m, 4h or 2d — using 30s"),
            s("plugin \"late\": shell command contains $NS, which sofka does not expand there — pass it in args and use \"$1\""),
        ]
    );
}
