use sofka::keymap::{Action, KeyItem, KeySetting, KeysConfig, Keymap, ScopeSetting};
use sofka::keys::{overlaps, KeyChord, KeyCode, KeyPress};

fn setting(v: &toml::Value) -> KeySetting {
    match v {
        toml::Value::String(s) => KeySetting::Text(s.clone()),
        toml::Value::Array(items) => KeySetting::List(
            items
                .iter()
                .map(|i| match i {
                    toml::Value::String(s) => KeyItem::Text(s.clone()),
                    other => KeyItem::Other(other.type_str().to_string()),
                })
                .collect(),
        ),
        _ => KeySetting::Other,
    }
}

fn scope(v: &toml::Value) -> ScopeSetting {
    match v {
        toml::Value::Table(t) => ScopeSetting::Table(t.iter().map(|(k, v)| (k.clone(), setting(v))).collect()),
        _ => ScopeSetting::Other,
    }
}

fn keys_of(v: Option<&toml::Value>) -> KeysConfig {
    match v {
        None => KeysConfig::Table(Vec::new()),
        Some(toml::Value::Table(t)) => KeysConfig::Table(t.iter().map(|(k, v)| (k.clone(), scope(v))).collect()),
        Some(_) => KeysConfig::Other,
    }
}

fn compile(text: &str) -> Result<Keymap, Vec<String>> {
    let table: toml::Table = text.parse().unwrap();
    Keymap::compile(&keys_of(table.get("keys")))
}

fn press(code: KeyCode, ctrl: bool) -> KeyPress {
    KeyPress { code, ctrl, alt: false, shift: false }
}

#[test]
fn defaults_have_no_conflicts() {
    assert_eq!(compile("").unwrap(), Keymap::default());
}

#[test]
fn paging_requires_releasing_delete_and_keeps_text_editing() {
    let text = r#"
            [keys.navigation]
            page_up = ["pageup", "ctrl-b", "ctrl-u"]
            page_down = ["pagedown", "ctrl-f", "ctrl-d"]
        "#;
    let errors = compile(text).unwrap_err().join("\n");
    assert!(errors.contains("keys.table"), "{errors}");
    assert!(errors.contains("ctrl-d"), "{errors}");
    assert!(errors.contains("delete"), "{errors}");
    assert!(errors.contains("page_down"), "{errors}");
    let map = compile(&format!("{text}\n[keys.table]\ndelete = 'alt-d'\n")).unwrap();
    for scope in ["table", "detail", "diff", "events", "help", "logs"] {
        assert_eq!(map.action(scope, &press(KeyCode::Char('d'), true)), Some(Action::PageDown));
    }
    assert_eq!(map.action("prompt", &press(KeyCode::Char('u'), true)), Some(Action::ClearLine));
}

#[test]
fn resource_and_log_shortcuts_support_overrides_and_conflicts() {
    for (scope, action, default, custom) in [
        ("table", Action::SortAge, 'A', "f8"),
        ("table", Action::NamespaceSelected, 'W', "f9"),
        ("logs", Action::LogMarker, 'm', "f10"),
    ] {
        let key = press(KeyCode::Char(default), false);
        assert_eq!(Keymap::default().action(scope, &key), Some(action));
        let setting = format!("[keys.{scope}]\n{} = '{custom}'", action.name());
        let map = compile(&setting).unwrap();
        assert_eq!(map.label(scope, action), custom);
        assert_eq!(map.action(scope, &key), None);
        let disabled = compile(&format!("[keys.{scope}]\n{} = []", action.name())).unwrap();
        assert_eq!(disabled.action(scope, &key), None);
        let conflict = format!("[keys.{scope}]\n{} = 'w'", action.name());
        assert!(compile(&conflict).unwrap_err().iter().any(|e| e.contains("conflicts")));
    }
    let map = Keymap::default();
    for (scope, key, action) in [("table", 'a', Action::Attach), ("table", 'w', Action::Wide), ("logs", 'w', Action::Wrap)] {
        assert_eq!(map.action(scope, &press(KeyCode::Char(key), false)), Some(action));
    }
}

#[test]
fn local_override_replaces_shared_keys_and_empty_array_disables() {
    let map = compile(
        r#"
            [keys.navigation]
            page_down = "alt-d"
            [keys.logs]
            page_down = []
            [keys.table]
            page_down = ["f8", "f9"]
        "#,
    )
    .unwrap();
    assert_eq!(map.label("table", Action::PageDown), "f8 / f9");
    assert_eq!(map.label("logs", Action::PageDown), "unbound");
    assert_eq!(map.label("help", Action::PageDown), "alt-d");
    assert_eq!(map.action("table", &press(KeyCode::PageDown, false)), None);
}

#[test]
fn equivalent_key_spellings_cannot_bypass_conflict_checks() {
    for text in [
        "[keys.table]\npage_up = 'ctrl-D'",
        "[keys.table]\npage_up = 'shift-tab'",
        "[keys.table]\npage_up = 'shift-g'",
    ] {
        assert!(compile(text).unwrap_err().iter().any(|e| e.contains("conflicts")), "{text}");
    }
    let map = compile("[keys.table]\npage_up = ['ctrl-u', 'control-U']").unwrap();
    assert_eq!(map.chords("table", Action::PageUp).len(), 1);
}

#[test]
fn invalid_scopes_actions_and_chords_report_the_path() {
    for (text, path) in [
        ("[keys.table]\npaeg_up = 'f8'", "keys.table.paeg_up"),
        ("[keys.unknown]", "keys.unknown"),
        ("[keys.unknown]\npage_up = 'f8'", "keys.unknown"),
        ("[keys.input]\npage_up = 'f8'", "keys.input.page_up"),
        ("[keys.table]\npage_up = 'hyper-u'", "keys.table.page_up"),
        ("[keys.table]\npage_up = ['ctrl-u', 'shift--']", "keys.table.page_up"),
    ] {
        assert!(compile(text).unwrap_err().iter().any(|e| e.contains(path)), "{text}");
    }
}

#[test]
fn unmigrated_palette_fields_warn_and_keep_scoped_settings() {
    let map = compile("[keys]\npalette_next = 'ctrl-n'\n[keys.command]\ndown = 'f8'").unwrap();
    assert_eq!(map.label("command", Action::Down), "f8");
    assert!(map.warnings()[0].contains("[keys.command] down"));
}

#[test]
fn global_quit_and_compact_are_reassignable() {
    let map = compile(
        r#"
            [keys.global]
            quit = "alt-q"
            compact = []
            [keys.command]
            accept = "ctrl-c"
        "#,
    )
    .unwrap();
    assert_eq!(map.label("table", Action::Quit), "alt-q");
    assert_eq!(map.label("prompt", Action::Compact), "unbound");
    assert_eq!(map.label("command", Action::Accept), "ctrl-c");
}

#[test]
fn keys_that_are_not_a_table_are_rejected() {
    assert_eq!(Keymap::compile(&KeysConfig::Other).unwrap_err(), vec!["keys: expected a table".to_string()]);
    assert_eq!(compile("[keys]\ntable = 3").unwrap_err(), vec!["keys.table: expected a table of actions".to_string()]);
    assert_eq!(compile("[keys.nowhere]\nup = 'k'").unwrap_err(), vec!["keys.nowhere: unknown scope".to_string()]);
}

#[test]
fn bad_key_values_name_their_type() {
    let errors = compile("[keys.table]\npage_up = ['f8', 3, true]").unwrap_err();
    assert_eq!(
        errors,
        vec![
            "keys.table.page_up: expected a key string, got integer".to_string(),
            "keys.table.page_up: expected a key string, got boolean".to_string(),
        ]
    );
    let errors = compile("[keys.table]\npage_up = 7").unwrap_err();
    assert_eq!(errors, vec!["keys.table.page_up: expected a key string or an array of key strings".to_string()]);
    let errors = compile("[keys.table]\npage_up = 'hyper-u'").unwrap_err();
    assert_eq!(errors, vec!["keys.table.page_up: unrecognized key chord 'hyper-u'".to_string()]);
}

#[test]
fn conflicts_name_the_key_and_both_actions() {
    let errors = compile("[keys.table]\nwide = 'a'").unwrap_err();
    assert_eq!(errors, vec!["keys.table: a conflicts between attach and wide".to_string()]);
}

#[test]
fn legacy_settings_leave_a_note_naming_the_new_place() {
    let map = compile("[keys]\npalette_accept = 'ctrl-y'").unwrap();
    assert_eq!(
        map.warnings(),
        &["keys.palette_accept: legacy setting ignored; move its value to [keys.command] accept".to_string()]
    );
    assert!(map.is_default());
}

#[test]
fn default_labels_and_first_labels() {
    let map = Keymap::default();
    assert_eq!(map.label("table", Action::Down), "j / down");
    assert_eq!(map.first_label("table", Action::Down), "j");
    assert_eq!(map.label("detail", Action::Down), "j / down / shift-down");
    assert_eq!(map.label("table", Action::PageDown), "pagedown / ctrl-f / shift-pagedown");
    assert_eq!(map.label("command", Action::Down), "tab / down");
    assert_eq!(map.label("table", Action::Command), ":");
    assert_eq!(map.label("help", Action::Help), "unbound");
    assert_eq!(map.label("nowhere", Action::Help), "unbound");
    assert_eq!(map.first_label("table", Action::PluginActivity), "ctrl-alt-t");
    assert_eq!(map.label("prompt", Action::DeleteWord), "ctrl-w / alt-backspace / ctrl-backspace");
    assert_eq!(map.label("table", Action::Mark), "space");
    assert!(map.is_default());
    assert!(map.warnings().is_empty());
}

#[test]
fn confirm_cancels_on_any_key_unless_back_is_set() {
    let map = Keymap::default();
    assert_eq!(map.action("confirm", &press(KeyCode::Char('z'), false)), Some(Action::Back));
    assert_eq!(map.wheel_action("confirm", true), Some(Action::Back));
    assert_eq!(map.wheel_action("table", true), Some(Action::Down));
    assert_eq!(map.wheel_action("table", false), Some(Action::Up));
    let strict = compile("[keys.confirm]\nback = 'esc'").unwrap();
    assert_eq!(strict.action("confirm", &press(KeyCode::Char('z'), false)), None);
    assert_eq!(strict.wheel_action("confirm", true), None);
    assert!(!strict.is_default());
    assert_eq!(map.action("nowhere", &press(KeyCode::Char('j'), false)), None);
}

#[test]
fn explicit_completion_keys_leave_text_editing() {
    let map = compile("[keys.command]\ndown = 'ctrl-w'").unwrap();
    assert_eq!(map.label("command", Action::Down), "ctrl-w");
    assert_eq!(map.label("command", Action::DeleteWord), "alt-backspace / ctrl-backspace");
    assert_eq!(map.label("prompt", Action::DeleteWord), "ctrl-w / alt-backspace / ctrl-backspace");
}

#[test]
fn entries_list_every_binding_by_scope() {
    let map = Keymap::default();
    let entries = map.entries();
    assert_eq!(entries[0].0, "adjacent");
    assert_eq!(entries[0].1, Action::Accept);
    assert!(entries.windows(2).all(|w| w[0].0 <= w[1].0));
    assert!(entries.iter().any(|(s, a, c)| *s == "table" && *a == Action::Quit && c.len() == 1));
    let tables = entries.iter().filter(|(s, _, _)| *s == "table").count();
    assert!(tables > 60);
    let mut seen = std::collections::HashSet::new();
    for (s, a, c) in &entries {
        assert!(seen.insert((*s, a.name())), "{s} {a:?} listed twice");
        assert_eq!(*c, map.chords(s, *a));
    }
}

#[test]
fn actions_know_their_names_kinds_and_anchors() {
    assert_eq!(Action::SortAge.name(), "sort_age");
    assert_eq!(Action::SortAge.description(), "sort by age; repeat to invert");
    assert_eq!(Action::Cordon.kinds(), Some(vec!["nodes"]));
    assert_eq!(Action::Inspect.kinds(), Some(vec!["secrets", "persistentvolumeclaims"]));
    assert_eq!(Action::Down.kinds(), None);
    assert_eq!(Action::Anchor3.log_anchor(), Some('3'));
    assert_eq!(Action::Up.log_anchor(), None);
    assert_eq!(Action::favorite_namespaces()[8], Action::FavoriteNamespace9);
}

#[test]
fn chords_match_however_spelled() {
    let g = KeyChord::parse("G").unwrap();
    let shift_g = KeyChord::parse("shift-g").unwrap();
    assert!(overlaps(&g, &shift_g));
    assert!(g.matches(&KeyPress { code: KeyCode::Char('g'), ctrl: false, alt: false, shift: true }));
    assert!(!g.matches(&KeyPress { code: KeyCode::Char('g'), ctrl: false, alt: false, shift: false }));
    let ctrl_d = KeyChord::parse("ctrl-D").unwrap();
    assert!(ctrl_d.matches(&KeyPress { code: KeyCode::Char('d'), ctrl: true, alt: false, shift: false }));
    let backtab = KeyChord::parse("backtab").unwrap();
    assert!(overlaps(&backtab, &KeyChord::parse("shift-tab").unwrap()));
    assert!(!overlaps(&backtab, &KeyChord::parse("tab").unwrap()));
    let q = KeyChord::parse("?").unwrap();
    assert!(q.matches(&KeyPress { code: KeyCode::Char('?'), ctrl: false, alt: false, shift: true }));
    assert_eq!(KeyChord::parse("ctrl-alt-f12").unwrap().label(), "ctrl-alt-f12");
    assert_eq!(KeyChord::parse("SHIFT-Up").unwrap().label(), "shift-up");
    assert_eq!(KeyChord::parse("space").unwrap().label(), "space");
}
