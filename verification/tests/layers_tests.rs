use sofka::layers::{merge, merge_config, merged_value, plugin_controls, ControlError, PluginMerge, TomlValue};

fn conv(v: toml::Value) -> TomlValue {
    match v {
        toml::Value::String(s) => TomlValue::String(s),
        toml::Value::Integer(i) => TomlValue::Integer(i),
        toml::Value::Float(f) => TomlValue::Float(f.to_bits()),
        toml::Value::Boolean(b) => TomlValue::Boolean(b),
        toml::Value::Datetime(d) => TomlValue::Datetime(d.to_string()),
        toml::Value::Array(a) => TomlValue::Array(a.into_iter().map(conv).collect()),
        toml::Value::Table(t) => TomlValue::Table(t.into_iter().map(|(k, v)| (k, conv(v))).collect()),
    }
}

fn table(s: &str) -> Vec<(String, TomlValue)> {
    match val(s) {
        TomlValue::Table(es) => es,
        _ => unreachable!(),
    }
}

fn val(s: &str) -> TomlValue {
    conv(toml::Value::Table(s.parse::<toml::Table>().unwrap()))
}

fn get<'a>(v: &'a TomlValue, key: &str) -> Option<&'a TomlValue> {
    match v {
        TomlValue::Table(es) => es.iter().find(|(k, _)| k == key).map(|(_, v)| v),
        _ => None,
    }
}

fn text<'a>(v: &'a TomlValue, key: &str) -> Option<&'a str> {
    match get(v, key) {
        Some(TomlValue::String(s)) => Some(s.as_str()),
        _ => None,
    }
}

fn array<'a>(v: &'a TomlValue, key: &str) -> &'a Vec<TomlValue> {
    match get(v, key) {
        Some(TomlValue::Array(a)) => a,
        other => panic!("no array under {key}: {other:?}"),
    }
}

fn entries_len(v: &TomlValue, key: &str) -> usize {
    match get(v, key) {
        Some(TomlValue::Table(es)) => es.len(),
        other => panic!("no table under {key}: {other:?}"),
    }
}

fn plugin_names(base: &TomlValue) -> Vec<&str> {
    array(base, "plugins").iter().map(|p| text(p, "name").unwrap()).collect()
}

#[test]
fn plugin_name_merge_replaces_whole_entries_and_preserves_order() {
    let mut base = val(r#"
plugins = [
    { name = "a", command = "old", args = ["old"], mutating = false },
    { name = "b", command = "keep" },
    { name = "a", command = "duplicate" },
]
bookmarks = [{ name = "old", resource = "pods" }]
"#);
    merge_config(
        &mut base,
        table(r#"
plugins_merge = "name"
plugins = [
    { name = "a", command = "first" },
    { name = "c", command = "new" },
    { name = "a", command = "last" },
    { name = "A", command = "case-sensitive" },
]
bookmarks = []
"#),
    )
    .unwrap();
    assert_eq!(plugin_names(&base), ["a", "b", "c", "A"]);
    let first = &array(&base, "plugins")[0];
    assert_eq!(text(first, "command"), Some("last"));
    assert!(get(first, "args").is_none());
    assert!(get(first, "mutating").is_none());
    assert!(array(&base, "bookmarks").is_empty());
    assert!(get(&base, "plugins_merge").is_none());

    merge_config(&mut base, table("plugins_merge = 'name'\nplugins = []")).unwrap();
    assert_eq!(array(&base, "plugins").len(), 4);
    merge_config(&mut base, table("plugins = []")).unwrap();
    assert!(array(&base, "plugins").is_empty());
}

#[test]
fn plugin_removal_runs_before_addition_and_does_not_carry_forward() {
    let mut base = val("plugins = [{ name = 'a', command = 'old' }, { name = 'b', command = 'keep' }]");
    merge_config(&mut base, table("plugins_remove = ['a', 'absent']")).unwrap();
    assert_eq!(array(&base, "plugins").len(), 1);
    merge_config(&mut base, table("plugins_merge = 'name'\nplugins = [{ name = 'a', command = 'new' }]")).unwrap();
    merge_config(
        &mut base,
        table("plugins_remove = ['b']\nplugins_merge = 'name'\nplugins = [{ name = 'b', command = 'redefined' }]"),
    )
    .unwrap();
    assert_eq!(plugin_names(&base), ["a", "b"]);
    assert_eq!(text(&array(&base, "plugins")[1], "command"), Some("redefined"));
}

#[test]
fn invalid_plugin_controls_do_not_change_the_base() {
    for text in [
        "plugins_merge = 'invalid'",
        "plugins_merge = true",
        "plugins_remove = 'a'",
        "plugins_remove = [1]",
    ] {
        let mut base = val("plugins = [{ name = 'a', command = 'keep' }]");
        let before = format!("{base:?}");
        assert!(merge_config(&mut base, table(text)).is_err(), "{text}");
        assert_eq!(format!("{base:?}"), before);
    }
}

#[test]
fn invalid_controls_name_the_control_at_fault() {
    let mut base = val("x = 1");
    assert_eq!(merge_config(&mut base, table("plugins_merge = 'Name'")), Err(ControlError::PluginsMerge));
    assert_eq!(merge_config(&mut base, table("plugins_merge = 1")), Err(ControlError::PluginsMerge));
    assert_eq!(merge_config(&mut base, table("plugins_remove = 'a'")), Err(ControlError::PluginsRemove));
    assert_eq!(
        merge_config(&mut base, table("plugins_merge = 'bad'\nplugins_remove = 3")),
        Err(ControlError::PluginsMerge)
    );
}

#[test]
fn plugin_controls_default_to_replace_and_no_removals() {
    let (mode, names) = plugin_controls(&table("x = 1")).unwrap();
    assert_eq!(mode, PluginMerge::Replace);
    assert!(names.is_empty());
    let (mode, names) = plugin_controls(&table("plugins_merge = 'name'\nplugins_remove = ['a', 'b']")).unwrap();
    assert_eq!(mode, PluginMerge::Name);
    assert_eq!(names, vec!["a".to_string(), "b".to_string()]);
    let (mode, _) = plugin_controls(&table("plugins_merge = 'replace'")).unwrap();
    assert_eq!(mode, PluginMerge::Replace);
}

#[test]
fn merge_tables_key_by_key_scalars_and_arrays_replace() {
    let mut base = val(r##"
            default_namespace = "default"
            default_resource = "pods"

            [aliases]
            dep = "deployments"

            [[plugins]]
            key = "g"
            name = "base-plugin"
            command = "true"

            [skin]
            name = "gruvbox-dark"
            [skin.colors]
            red = "#ff0000"
        "##);
    merge(
        &mut base,
        val(r##"
                default_namespace = "kube-system"

                [aliases]
                ks = "kustomizations"

                [[plugins]]
                key = "h"
                name = "override-plugin"
                command = "false"

                [skin]
                name = "catppuccin-latte"
                [skin.colors]
                blue = "#0000ff"
            "##),
    );
    // scalars replace
    assert_eq!(text(&base, "default_namespace"), Some("kube-system"));
    let skin = get(&base, "skin").unwrap();
    assert_eq!(text(skin, "name"), Some("catppuccin-latte"));
    // untouched base values survive
    assert_eq!(text(&base, "default_resource"), Some("pods"));
    // tables merge
    assert_eq!(entries_len(&base, "aliases"), 2);
    assert_eq!(entries_len(skin, "colors"), 2);
    // arrays replace wholesale
    assert_eq!(array(&base, "plugins").len(), 1);
    assert_eq!(text(&array(&base, "plugins")[0], "name"), Some("override-plugin"));
}

#[test]
fn a_scalar_replaces_a_table_and_a_table_replaces_a_scalar() {
    let mut base = val("a = { b = 1 }\nc = 2");
    merge(&mut base, val("a = 5\nc = { d = 'x' }"));
    assert!(matches!(get(&base, "a"), Some(TomlValue::Integer(5))));
    assert_eq!(entries_len(&base, "c"), 1);
    let whole = merged_value(val("a = 1"), TomlValue::Boolean(true));
    assert!(matches!(whole, TomlValue::Boolean(true)));
}

#[test]
fn floats_and_dates_pass_through_unchanged() {
    let mut base = val("ratio = 0.5");
    merge(&mut base, val("when = 1979-05-27T07:32:00Z\nratio = 2.25"));
    assert!(matches!(get(&base, "ratio"), Some(TomlValue::Float(bits)) if f64::from_bits(*bits) == 2.25));
    assert!(matches!(get(&base, "when"), Some(TomlValue::Datetime(d)) if d == "1979-05-27T07:32:00Z"));
}

#[test]
fn laying_a_document_twice_gives_the_same_result() {
    let over = "a = 1\n[t]\nx = 2\n[t.u]\ny = [1, 2]";
    let mut once = val("b = 0\n[t]\nz = 1");
    merge(&mut once, val(over));
    let mut twice = val("b = 0\n[t]\nz = 1");
    merge(&mut twice, val(over));
    merge(&mut twice, val(over));
    assert_eq!(format!("{once:?}"), format!("{twice:?}"));
}

#[test]
fn name_merge_keeps_unnamed_entries_and_one_entry_per_name() {
    let mut base = val("plugins = [{ command = 'anon' }, { name = 'x', command = '1' }]");
    merge_config(
        &mut base,
        table("plugins_merge = 'name'\nplugins = [{ command = 'anon2' }, { name = 'x', command = '2' }, { name = 'y' }]"),
    )
    .unwrap();
    let plugins = array(&base, "plugins");
    assert_eq!(plugins.len(), 4);
    assert_eq!(text(&plugins[0], "command"), Some("anon"));
    assert_eq!(text(&plugins[1], "command"), Some("2"));
    assert_eq!(text(&plugins[2], "command"), Some("anon2"));
    assert_eq!(text(&plugins[3], "name"), Some("y"));
}

#[test]
fn removal_without_a_base_plugin_list_changes_nothing() {
    let mut base = val("x = 1");
    merge_config(&mut base, table("plugins_remove = ['a']")).unwrap();
    assert!(get(&base, "plugins").is_none());
    assert!(get(&base, "plugins_remove").is_none());
    assert!(matches!(get(&base, "x"), Some(TomlValue::Integer(1))));
}

#[test]
fn an_empty_layer_changes_nothing() {
    let text = "a = 1\nplugins = [{ name = 'p', command = 'x' }]\n[t]\nk = 'v'";
    let mut base = val(text);
    merge_config(&mut base, Vec::new()).unwrap();
    assert_eq!(format!("{base:?}"), format!("{:?}", val(text)));
}
