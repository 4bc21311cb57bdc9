use sofka::layers::TomlValue;
use sofka::loader::{dropin_files, override_dirs, parse_document, resolve_layers, skin_override, Layer};


fn get<'a>(v: &'a TomlValue, key: &str) -> Option<&'a TomlValue> {
    match v {
        TomlValue::Table(es) => es.iter().find(|(k, _)| k == key).map(|(_, v)| v),
        _ => None,
    }
}

fn text(v: Option<&TomlValue>) -> Option<&str> {
    match v {
        Some(TomlValue::String(s)) => Some(s.as_str()),
        _ => None,
    }
}

fn flag(v: Option<&TomlValue>) -> Option<bool> {
    match v {
        Some(TomlValue::Boolean(b)) => Some(*b),
        _ => None,
    }
}

fn layer(name: &str, body: &str) -> Layer {
    (name.to_string(), parse_document(name, body), None)
}

#[test]
fn override_paths_follow_cluster_then_context() {
    assert_eq!(
        override_dirs("prod-cluster", "prod-ctx"),
        vec!["clusters/prod-cluster".to_string(), "clusters/prod-cluster/prod-ctx".to_string()]
    );
    // No cluster name (in-cluster) — no override levels at all.
    assert!(override_dirs("", "ctx").is_empty());
    // No context name — cluster level only.
    assert_eq!(override_dirs("c1", "").len(), 1);
}

#[test]
fn override_dirs_sanitize_both_names() {
    assert_eq!(
        override_dirs("arn:aws:eks/prod", ".."),
        vec!["clusters/arn-aws-eks-prod".to_string(), "clusters/arn-aws-eks-prod/--".to_string()]
    );
}

#[test]
fn dropin_files_keep_documents_sorted_by_name() {
    let entries: Vec<(String, bool)> = [
        ("20-personal.toml", true),
        ("README.md", true),
        ("10-team.yaml", true),
        ("40-typed.toml", true),
        ("30-broken.yml", true),
        ("50-dir.toml", false),
        (".toml", true),
        ("noext", true),
        ("60-upper.TOML", true),
    ]
    .iter()
    .map(|(n, f)| (n.to_string(), *f))
    .collect();
    assert_eq!(
        dropin_files(&entries),
        vec!["10-team.yaml", "20-personal.toml", "30-broken.yml", "40-typed.toml"]
    );
    assert!(dropin_files(&Vec::new()).is_empty());
}

#[test]
fn parse_document_reads_toml_and_yaml_by_name() {
    let t = parse_document("config.toml", "default_namespace = \"base\"\nreadonly = false\n").unwrap();
    let t = TomlValue::Table(t);
    assert_eq!(text(get(&t, "default_namespace")), Some("base"));
    assert_eq!(flag(get(&t, "readonly")), Some(false));
    let y = parse_document("10-team.yaml", "default_namespace: team\nreadonly: true\n").unwrap();
    let y = TomlValue::Table(y);
    assert_eq!(text(get(&y, "default_namespace")), Some("team"));
    assert_eq!(flag(get(&y, "readonly")), Some(true));
    let yml = parse_document("c.yml", "readonly: true\n").unwrap();
    assert_eq!(flag(get(&TomlValue::Table(yml), "readonly")), Some(true));
    // YAML read as TOML fails: the name decides the reader.
    assert!(parse_document("config.toml", "readonly: true\n").is_err());
    assert!(parse_document("config.toml", "not valid toml [[[").is_err());
    assert!(parse_document("30-broken.yml", "aliases: [unclosed\n").is_err());
    assert_eq!(
        parse_document("list.yaml", "- a\n- b\n").unwrap_err(),
        "the document is not a table of settings"
    );
}

#[test]
fn dropins_merge_in_order_before_cluster_overrides() {
    let base = parse_document(
        "config.toml",
        "default_namespace = \"base\"\nreadonly = false\n[aliases]\npo = \"pods\"\n",
    )
    .unwrap();
    let dropins = vec![
        layer("conf.d/10-team.yaml", "default_namespace: team\nreadonly: true\naliases:\n  svc: services\n"),
        layer("conf.d/20-personal.toml", "default_namespace = \"personal\"\n[aliases]\ndep = \"deployments\"\n"),
        layer("conf.d/30-broken.yml", "aliases: [unclosed\n"),
    ];
    let (laid_base, merged, overlay, warnings) = resolve_layers(Some(base), dropins, Vec::new());
    assert_eq!(text(get(&laid_base, "default_namespace")), Some("base"));
    assert_eq!(text(get(&merged, "default_namespace")), Some("personal"));
    assert_eq!(flag(get(&merged, "readonly")), Some(true));
    let aliases = get(&merged, "aliases").unwrap();
    for (alias, kind) in [("po", "pods"), ("svc", "services"), ("dep", "deployments")] {
        assert_eq!(text(get(aliases, alias)), Some(kind));
    }
    assert!(matches!(&overlay, TomlValue::Table(es) if es.is_empty()));
    assert_eq!(warnings.len(), 1, "{warnings:?}");
    assert!(warnings[0].starts_with("ignoring invalid conf.d/30-broken.yml: "), "{}", warnings[0]);

    let base = parse_document("config.toml", "readonly = false\n").unwrap();
    let dropins = vec![layer("conf.d/10-team.yaml", "readonly: true\n")];
    let overrides = vec![layer("clusters/c1/config.toml", "readonly = false\n[skin]\nname = \"nord\"\n")];
    let (_, merged, overlay, warnings) = resolve_layers(Some(base), dropins, overrides);
    assert_eq!(flag(get(&merged, "readonly")), Some(false), "cluster override wins over drop-ins");
    assert_eq!(text(get(get(&overlay, "skin").unwrap(), "name")), Some("nord"));
    assert_eq!(flag(get(&overlay, "readonly")), Some(false));
    assert!(warnings.is_empty());
}

#[test]
fn malformed_override_warns_and_is_skipped() {
    let base = parse_document("config.toml", "default_namespace = \"base\"\n").unwrap();
    let overrides = vec![layer("clusters/c1/config.toml", "not valid toml [[[")];
    let (_, merged, overlay, warnings) = resolve_layers(Some(base), Vec::new(), overrides);
    assert_eq!(warnings.len(), 1);
    assert_eq!(text(get(&merged, "default_namespace")), Some("base"));
    assert!(matches!(&overlay, TomlValue::Table(es) if es.is_empty()));
}

#[test]
fn refused_plugin_controls_skip_the_layer_with_a_warning() {
    let base = parse_document("config.toml", "plugins_merge = 'invalid'\nplugins = []\nreadonly = true\n").unwrap();
    let dropins = vec![layer("conf.d/10.toml", "plugins_remove = 'x'\nreadonly = false\n")];
    let (laid_base, merged, _, warnings) = resolve_layers(Some(base), dropins, Vec::new());
    assert!(matches!(&laid_base, TomlValue::Table(es) if es.is_empty()));
    assert!(get(&merged, "readonly").is_none());
    assert_eq!(
        warnings,
        vec![
            "ignoring invalid base config: plugins_merge must be \"replace\" or \"name\"".to_string(),
            "ignoring invalid conf.d/10.toml: plugins_remove must be a list of plugin names".to_string(),
        ]
    );
}

#[test]
fn no_layers_give_an_empty_table() {
    let (b, m, o, w) = resolve_layers(None, Vec::new(), Vec::new());
    for v in [&b, &m, &o] {
        assert!(matches!(v, TomlValue::Table(es) if es.is_empty()));
    }
    assert!(w.is_empty());
}

#[test]
fn the_overlay_pins_a_skin_by_name() {
    let overrides = vec![
        layer("clusters/c1/config.toml", "[skin]\nname = \"nord\"\nbackground = true\n"),
        layer("clusters/c1/ctx/config.yaml", "skin:\n  name: gruvbox-dark\n"),
    ];
    let (_, merged, overlay, _) = resolve_layers(None, Vec::new(), overrides);
    assert_eq!(skin_override(&overlay).as_deref(), Some("gruvbox-dark"));
    assert_eq!(flag(get(get(&merged, "skin").unwrap(), "background")), Some(true));
    let dropins = vec![layer("conf.d/10.toml", "[skin]\nname = \"nord\"\n")];
    let (_, _, overlay, _) = resolve_layers(None, dropins, Vec::new());
    assert_eq!(skin_override(&overlay), None);
    let numbered = vec![layer("clusters/c1/config.toml", "[skin]\nname = 3\n")];
    let (_, _, overlay, _) = resolve_layers(None, Vec::new(), numbered);
    assert_eq!(skin_override(&overlay), None);
}

#[test]
fn a_layer_that_fails_the_type_check_is_skipped_on_its_own() {
    let base = parse_document("config.toml", "readonly = false\ndefault_namespace = \"base\"\n").unwrap();
    let mut typed = layer("conf.d/40-typed.toml", "readonly = \"yes\"\n");
    typed.2 = Some("invalid type: string \"yes\", expected a boolean".to_string());
    let dropins = vec![layer("conf.d/10-team.yaml", "default_namespace: team\n"), typed];
    let overrides = vec![layer("clusters/c1/config.toml", "readonly = true\n")];
    let (_, merged, overlay, warnings) = resolve_layers(Some(base), dropins, overrides);
    assert_eq!(text(get(&merged, "default_namespace")), Some("team"));
    assert_eq!(flag(get(&merged, "readonly")), Some(true));
    assert_eq!(flag(get(&overlay, "readonly")), Some(true));
    assert_eq!(
        warnings,
        vec!["ignoring invalid conf.d/40-typed.toml: invalid type: string \"yes\", expected a boolean".to_string()]
    );
}
