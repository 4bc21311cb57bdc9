use sofka::session::Mode;
use sofka::hints::{confirm_action_hint, favorite_namespace_entries, header_hints, key_hint, navigation_hint, TableKind};
use sofka::screen::{cell_width, doc_title};
use sofka::keymap::{Action, Keymap};

fn kind(plural: &str) -> TableKind {
    TableKind {
        plural: plural.to_string(),
        group: String::new(),
        scalable: false,
        flux_suspendable: false,
        argocd: false,
        cronjob: false,
        external_secret: false,
    }
}

#[test]
fn key_hint_shows_first_keys_two_spaces_apart() {
    let map = Keymap::default();
    let hint = key_hint(&map, "table", &vec![(Action::Open, "containers"), (Action::Logs, "logs")]);
    assert_eq!(hint, "enter:containers  l:logs");
    assert_eq!(key_hint(&map, "table", &vec![]), "");
    assert_eq!(key_hint(&map, "nowhere", &vec![(Action::Open, "open")]), "unbound:open");
}

#[test]
fn table_hint_cycles_views_and_adds_verbs_when_the_header_cannot() {
    let map = Keymap::default();
    assert_eq!(
        navigation_hint(&map, "table", false, false, 200),
        "tab/backtab: resources  ::command  ?:help  /:filter  S:sort  space:mark  esc:back"
    );
    assert_eq!(
        navigation_hint(&map, "table", true, false, 100),
        "tab/backtab: workspace  ::command  ?:help  /:filter  y:yaml  d:describe  l:logs  e:edit  s:shell/scale  ctrl-d:delete  S:sort  space:mark  esc:back"
    );
    assert!(navigation_hint(&map, "table", false, true, 200).contains("y:yaml"));
}

#[test]
fn other_scopes_show_the_actions_they_bind() {
    let map = Keymap::default();
    assert_eq!(navigation_hint(&map, "port_forward_picker", false, false, 80), "enter:start  e:edit local port  esc:back");
    assert_eq!(
        navigation_hint(&map, "contexts", false, false, 80),
        "esc:back or clear search  enter:accept selection or input  r:rename  space:fleet mark"
    );
    let logs = navigation_hint(&map, "logs", false, false, 80);
    assert!(logs.starts_with("esc:back or clear search  /:filter  s:follow  m:add visual log marker"));
    assert!(logs.ends_with("pageup:page up  pagedown:page down"));
    assert_eq!(navigation_hint(&map, "port_forwards", false, false, 80), "esc:back or clear search  k:up  j:down  enter:start  x:toggle");
}

#[test]
fn header_rows_follow_the_kind() {
    let pods = header_hints(&kind("pods"), Mode::Table);
    assert_eq!(pods.len(), 5);
    assert_eq!(pods[0], vec![(Action::Open, "containers"), (Action::Logs, "logs"), (Action::PreviousLogs, "prev logs")]);
    let nodes = header_hints(&kind("nodes"), Mode::Table);
    assert_eq!(nodes[1], vec![(Action::Cordon, "cordon"), (Action::Uncordon, "uncordon"), (Action::Drain, "drain")]);
    assert!(header_hints(&kind("pods"), Mode::Logs).is_empty());
}

#[test]
fn header_rows_add_scale_and_controller_rows_up_to_five() {
    let mut k = kind("widgets");
    k.scalable = true;
    k.flux_suspendable = true;
    let rows = header_hints(&k, Mode::Table);
    assert_eq!(rows.len(), 5);
    assert_eq!(rows[1], vec![(Action::ShellOrScale, "scale")]);
    assert_eq!(rows[4], vec![(Action::ActionMenu, "flux menu")]);
    k.argocd = true;
    k.cronjob = true;
    assert_eq!(header_hints(&k, Mode::Table).len(), 5);
    let mut md = kind("machinedeployments");
    md.group = "cluster.x-k8s.io".to_string();
    assert_eq!(header_hints(&md, Mode::Table)[0][0], (Action::Open, "machines"));
    let mut deploy = kind("deployments");
    deploy.scalable = true;
    assert_eq!(header_hints(&deploy, Mode::Table)[1][0], (Action::ShellOrScale, "scale"));
    assert_eq!(header_hints(&deploy, Mode::Table).len(), 5);
    assert_eq!(header_hints(&kind("helmreleases"), Mode::Table)[3], vec![(Action::Open, "helm history")]);
}

#[test]
fn confirm_hint_mentions_force_only_when_supported() {
    let map = Keymap::default();
    assert!(confirm_action_hint(&map, true).contains("toggle force"));
    assert!(!confirm_action_hint(&map, false).contains("toggle force"));
    assert!(confirm_action_hint(&map, true).contains("cascade"));
    assert!(!confirm_action_hint(&map, false).contains("cascade"));
    assert_eq!(confirm_action_hint(&map, false), "y:confirm  esc:cancel");
    assert_eq!(confirm_action_hint(&map, true), "y:confirm  esc:cancel  f:toggle force  c:cascade");
}

#[test]
fn cells_measure_terminal_columns() {
    assert_eq!(cell_width("abc"), 3);
    assert_eq!(cell_width("日本"), 4);
    assert_eq!(cell_width(""), 0);
}

#[test]
fn doc_titles_show_the_search_and_match_position() {
    assert_eq!(doc_title("pod", "", 0, 0), " pod ");
    assert_eq!(doc_title("pod", "err", 0, 0), " pod · /err [no matches] ");
    assert_eq!(doc_title("pod", "err", 5, 1), " pod · /err [2/5] ");
    assert_eq!(doc_title("pod", "err", 5, 9), " pod · /err [5/5] ");
}

#[test]
fn favorite_namespaces_fill_the_header_until_the_width_runs_out() {
    let k = Keymap::default();
    let favs: Vec<String> = ["default", "", "kube-system", "monitoring"].iter().map(|s| s.to_string()).collect();
    let key1 = k.first_label("table", Action::FavoriteNamespace1).to_string();
    let key3 = k.first_label("table", Action::FavoriteNamespace3).to_string();
    let (all, ellipsis) = favorite_namespace_entries(&k, &favs, "kube-system", 200);
    assert!(!ellipsis);
    // The unnamed second favourite is skipped.
    assert_eq!(all.len(), 3);
    assert_eq!(all[0].namespace, "default");
    assert_eq!(all[0].key, key1);
    assert!(!all[0].current);
    assert_eq!(all[1].namespace, "kube-system");
    assert_eq!(all[1].key, key3);
    assert!(all[1].current);
    // Room for the first entry and an ellipsis only.
    let first = 3 + key1.chars().count() + "default".len();
    let (some, ellipsis) = favorite_namespace_entries(&k, &favs, "", first + 3);
    assert_eq!(some.len(), 1);
    assert!(ellipsis);
    let (some, ellipsis) = favorite_namespace_entries(&k, &favs, "", first + 2);
    assert_eq!(some.len(), 1);
    assert!(!ellipsis);
    let (none, ellipsis) = favorite_namespace_entries(&k, &favs, "", 2);
    assert!(none.is_empty());
    assert!(!ellipsis);
}

#[test]
fn full_screen_modes_hide_the_header_hints() {
    use_modes();
}

fn use_modes() {
    for m in [Mode::Detail, Mode::Diff, Mode::Events, Mode::Logs, Mode::Help, Mode::Xray, Mode::PortForwards, Mode::Argocd] {
        assert!(sofka::hints::is_full_screen(m), "{m:?}");
        assert!(header_hints(&kind("pods"), m).is_empty());
    }
    for m in [Mode::Table, Mode::Namespaces, Mode::Contexts, Mode::Prompt, Mode::Filter, Mode::PortForwardPicker] {
        assert!(!sofka::hints::is_full_screen(m), "{m:?}");
        assert!(!header_hints(&kind("pods"), m).is_empty());
    }
}
