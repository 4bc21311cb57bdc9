use sofka::config::{Bookmark, Plugin, Workspace, WorkspaceView};
use sofka::help::{describe_binding, filter_help, help_key_width, help_lines, HelpLine};
use sofka::keymap::{Action, Keymap};

fn s(t: &str) -> String {
    t.to_string()
}

fn bind(k: &str, d: &str) -> HelpLine {
    HelpLine::Binding(s(k), s(d))
}

#[test]
fn help_descriptions_add_context_where_needed() {
    assert_eq!(describe_binding("table", Action::Drain), "open node drain options for the current or marked nodes");
    assert_eq!(
        describe_binding("drain", Action::Quit),
        "cancel the form or active drain; accepted requests cannot be reversed"
    );
    assert_eq!(describe_binding("drain", Action::PageUp), "page up");
    assert_eq!(
        describe_binding("table", Action::FavoriteNamespace3),
        "select configured favourite namespace 3; also in the namespace switcher while the filter is empty"
    );
    assert_eq!(describe_binding("logs", Action::FavoriteNamespace3), "select configured favourite namespace 3");
    assert_eq!(describe_binding("detail", Action::AutoRefresh), "toggle refresh (YAML, decoded Secret, describe)");
    assert_eq!(describe_binding("diff", Action::AutoRefresh), "toggle refresh (keep the comparison baseline)");
    assert_eq!(describe_binding("events", Action::Fullscreen), "toggle fullscreen for text selection (no borders or scrollbars)");
    assert_eq!(describe_binding("logs", Action::Up), "up");
}

#[test]
fn help_lists_bindings_by_scope_then_the_reference() {
    let lines = help_lines(&Keymap::default(), &[], &[], &[]);
    assert_eq!(lines[0], HelpLine::Blank);
    assert_eq!(lines[1], HelpLine::Heading(s("  Keys: adjacent")));
    assert_eq!(lines[2], bind("enter", "accept selection or input"));
    assert!(lines.contains(&HelpLine::Heading(s("  Keys: table"))));
    assert!(lines.contains(&bind("right", "fill the highlighted palette suggestion and keep typing")));
    assert!(lines.contains(&HelpLine::Text(s("  Range selection keeps separate marks; other keys end the range."))));
    assert!(!lines.contains(&HelpLine::Heading(s("  Plugins"))));
    let n = lines.len();
    assert_eq!(lines[n - 3], HelpLine::Heading(s("  Help navigation")));
    assert_eq!(lines[n - 2], bind("esc", "clear the search or close help"));
    assert_eq!(lines[n - 1], bind("q / ?", "close help and return to the previous screen"));
}

#[test]
fn help_shows_plugins_bookmarks_and_workspaces() {
    let plugins = vec![
        Plugin {
            key: s("ctrl-x"),
            palette: Some(s("tail")),
            name: s("tailer"),
            scopes: vec![s("pods"), s("jobs")],
            ..Plugin::default()
        },
        Plugin { key: s("hyper-x"), name: s("odd"), ..Plugin::default() },
    ];
    let bookmarks = vec![
        Bookmark { key: Some(s("G")), name: s("prod"), ..Bookmark::default() },
        Bookmark { key: None, name: s("dev"), ..Bookmark::default() },
    ];
    let workspaces = vec![Workspace {
        key: Some(s("ctrl-o")),
        name: s("ops"),
        views: vec![WorkspaceView::default(), WorkspaceView::default()],
        ..Workspace::default()
    }];
    let lines = help_lines(&Keymap::default(), &plugins, &bookmarks, &workspaces);
    let at = lines.iter().position(|l| *l == HelpLine::Heading(s("  Plugins"))).unwrap();
    assert_eq!(lines[at - 1], HelpLine::Blank);
    assert_eq!(lines[at + 1], bind("ctrl-x / :tail", "tailer (pods, jobs)"));
    assert_eq!(lines[at + 2], bind("hyper-x?", "odd (all resources)"));
    assert_eq!(lines[at + 3], HelpLine::Heading(s("  Node drain controls")));
    assert!(lines.contains(&bind("G", "★ prod")));
    assert!(lines.contains(&bind(":", "★ dev")));
    assert!(lines.contains(&bind("ctrl-o", "▦ ops (2 views · Tab to cycle)")));
}

#[test]
fn help_search_keeps_headings_with_their_matches() {
    let lines = help_lines(&Keymap::default(), &[], &[], &[]);
    let (all, title) = filter_help(lines.clone(), "");
    assert_eq!(all, lines);
    assert_eq!(title, " Help ");
    let (shown, title) = filter_help(lines.clone(), "RENAME");
    assert_eq!(shown, vec![HelpLine::Heading(s("  Keys: contexts")), bind("r / R", "rename")]);
    assert_eq!(title, " Help · /RENAME [1] ");
    let (shown, title) = filter_help(lines, "help navigation");
    assert_eq!(shown, vec![HelpLine::Heading(s("  Help navigation"))]);
    assert_eq!(title, " Help · /help navigation [1] ");
}

#[test]
fn help_search_separates_sections_with_a_blank_line() {
    let lines = help_lines(&Keymap::default(), &[], &[], &[]);
    let (shown, _) = filter_help(lines, "toggle refresh");
    assert_eq!(
        shown,
        vec![
            HelpLine::Heading(s("  Keys: detail")),
            bind("r", "toggle refresh (YAML, decoded Secret, describe)"),
            HelpLine::Blank,
            HelpLine::Heading(s("  Keys: diff")),
            bind("r", "toggle refresh (keep the comparison baseline)"),
        ]
    );
}

#[test]
fn help_key_column_fits_the_widest_key_within_half_the_room() {
    assert_eq!(help_key_width(&vec![], 100), 14);
    assert_eq!(help_key_width(&vec![], 10), 3);
    assert_eq!(help_key_width(&vec![], 0), 1);
    let lines = vec![bind("ctrl-x", "a"), HelpLine::Heading(s("a long heading here")), bind("pagedown / ctrl-f", "b")];
    assert_eq!(help_key_width(&lines, 200), 17);
    assert_eq!(help_key_width(&lines, 24), 10);
}
