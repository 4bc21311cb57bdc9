//! Key hints: the short "key:what" lists the header and the bottom line
//! show, built from the effective bindings.

use crate::config::same_text;
use crate::keymap::{
    action_description, bound_in, chords_or_none, favorite_actions, label_of, Action, Keymap, KeymapView,
};
use crate::session::Mode;
use crate::screen::{header_hints_fit, HEADER_CHROME, HEADER_HINTS_WIDTH, HEADER_INFO_MIN};
use vstd::prelude::*;
use vstd::string::StringExecFns;

verus! {

/// The hint for one action: its first key, a colon, and the label.
pub open spec fn hint_item(v: KeymapView, scope: Seq<char>, p: (Action, Seq<char>)) -> Seq<char> {
    label_of(bound_in(v, scope, p.0), true) + ":"@ + p.1
}

/// Texts joined by `sep`.
pub open spec fn join(items: Seq<Seq<char>>, sep: Seq<char>) -> Seq<char>
    decreases items.len(),
{
    if items.len() == 0 {
        Seq::empty()
    } else if items.len() == 1 {
        items[0]
    } else {
        join(items.drop_last(), sep) + sep + items.last()
    }
}

/// The hints for `pairs` of actions and labels, two spaces apart.
pub open spec fn key_hint_text(v: KeymapView, scope: Seq<char>, pairs: Seq<(Action, Seq<char>)>) -> Seq<char> {
    join(pairs.map_values(|p: (Action, Seq<char>)| hint_item(v, scope, p)), "  "@)
}

/// The texts of action and label pairs.
pub open spec fn pairs_view(pairs: Seq<(Action, &'static str)>) -> Seq<(Action, Seq<char>)> {
    pairs.map_values(|p: (Action, &'static str)| (p.0, p.1@))
}

/// Show the first effective binding of each action, with its label:
/// `key:label` items two spaces apart.
pub fn key_hint(keymap: &Keymap, scope: &str, actions: &Vec<(Action, &'static str)>) -> (r: String)
    ensures
        r@ == key_hint_text(keymap@, scope@, pairs_view(actions@)),
{
    let ghost items = pairs_view(actions@).map_values(|p: (Action, Seq<char>)| hint_item(keymap@, scope@, p));
    let mut out = String::new();
    let mut k: usize = 0;
    while k < actions.len()
        invariant
            k <= actions@.len(),
            items == pairs_view(actions@).map_values(|p: (Action, Seq<char>)| hint_item(keymap@, scope@, p)),
            out@ == join(items.take(k as int), "  "@),
        decreases actions@.len() - k,
    {
        if k > 0 {
            out.append("  ");
        }
        let (action, label) = actions[k];
        let key = keymap.first_label(scope, action);
        out.append(key);
        out.append(":");
        out.append(label);
        proof {
            let t = items.take(k + 1);
            assert(t.drop_last() =~= items.take(k as int));
            assert(items[k as int] == hint_item(keymap@, scope@, (action, label@)));
            if k == 0 {
                assert(out@ =~= join(t, "  "@));
            } else {
                assert(out@ =~= join(t.drop_last(), "  "@) + "  "@ + t.last());
            }
        }
        k = k + 1;
    }
    assert(items.take(actions@.len() as int) =~= items);
    out
}

/// The table's bottom-line actions; the verbs the header shows join them
/// when the header is hidden or too narrow for its hints.
pub open spec fn table_hint_pairs(compact: bool) -> Seq<(Action, Seq<char>)> {
    seq![(Action::Command, "command"@), (Action::Help, "help"@), (Action::Filter, "filter"@)] + (if compact {
        seq![
            (Action::Yaml, "yaml"@),
            (Action::Describe, "describe"@),
            (Action::Logs, "logs"@),
            (Action::Edit, "edit"@),
            (Action::ShellOrScale, "shell/scale"@),
            (Action::Delete, "delete"@),
        ]
    } else {
        Seq::empty()
    }) + seq![(Action::Sort, "sort"@), (Action::Mark, "mark"@), (Action::Back, "back"@)]
}

/// The actions a scope's bottom line prefers to show, in order.
pub open spec fn preferred_actions(scope: Seq<char>) -> Seq<Action> {
    if scope == "logs"@ {
        seq![
            Action::Back,
            Action::Filter,
            Action::Follow,
            Action::LogMarker,
            Action::LogWarnings,
            Action::Json,
            Action::Wrap,
            Action::Stream,
            Action::Copy,
            Action::Save,
            Action::PageUp,
            Action::PageDown,
        ]
    } else if scope == "detail"@ || scope == "diff"@ || scope == "events"@ {
        seq![
            Action::Back,
            Action::Filter,
            Action::NextMatch,
            Action::PreviousMatch,
            Action::Wrap,
            Action::Fullscreen,
            Action::Copy,
            Action::PageUp,
            Action::PageDown,
        ]
    } else if scope == "pvc_explore"@ {
        seq![Action::Back, Action::SwitchPane, Action::Accept, Action::Parent, Action::Copy, Action::Shell, Action::Refresh]
    } else if scope == "port_forwards"@ {
        seq![Action::Back, Action::Up, Action::Down, Action::Start, Action::Toggle]
    } else if scope == "contexts"@ {
        seq![Action::Back, Action::Accept, Action::Rename, Action::FleetMark]
    } else {
        seq![
            Action::Back,
            Action::Up,
            Action::Down,
            Action::Accept,
            Action::Logs,
            Action::Refresh,
            Action::Filter,
            Action::Delete,
            Action::Help,
        ]
    }
}

/// The actions of `acts` that the scope binds, each with its description.
pub open spec fn bound_pairs(v: KeymapView, scope: Seq<char>, acts: Seq<Action>) -> Seq<(Action, Seq<char>)>
    decreases acts.len(),
{
    if acts.len() == 0 {
        Seq::empty()
    } else {
        let r = bound_pairs(v, scope, acts.drop_last());
        if bound_in(v, scope, acts.last()) is Some {
            r.push((acts.last(), action_description(acts.last())))
        } else {
            r
        }
    }
}

/// The bottom-line hint of a scope. The table shows how to cycle views
/// (through a workspace's views when one is open), then its actions; the
/// port-forward picker its own three; other scopes the actions they
/// prefer and bind, with their descriptions.
pub open spec fn navigation_hint_text(v: KeymapView, scope: Seq<char>, workspace: bool, compact: bool) -> Seq<char> {
    if scope == "table"@ {
        label_of(bound_in(v, scope, Action::NextView), true) + "/"@ + label_of(bound_in(v, scope, Action::PreviousView), true)
            + ": "@ + (if workspace { "workspace"@ } else { "resources"@ }) + "  "@ + key_hint_text(v, scope, table_hint_pairs(compact))
    } else if scope == "port_forward_picker"@ {
        key_hint_text(v, scope, seq![(Action::Accept, "start"@), (Action::Edit, "edit local port"@), (Action::Back, "back"@)])
    } else {
        key_hint_text(v, scope, bound_pairs(v, scope, preferred_actions(scope)))
    }
}

fn table_pairs(compact: bool) -> (r: Vec<(Action, &'static str)>)
    ensures
        pairs_view(r@) == table_hint_pairs(compact),
{
    let mut r = vec![(Action::Command, "command"), (Action::Help, "help"), (Action::Filter, "filter")];
    if compact {
        r.push((Action::Yaml, "yaml"));
        r.push((Action::Describe, "describe"));
        r.push((Action::Logs, "logs"));
        r.push((Action::Edit, "edit"));
        r.push((Action::ShellOrScale, "shell/scale"));
        r.push((Action::Delete, "delete"));
    }
    r.push((Action::Sort, "sort"));
    r.push((Action::Mark, "mark"));
    r.push((Action::Back, "back"));
    assert(pairs_view(r@) =~= table_hint_pairs(compact));
    r
}

fn preferred_of(scope: &str) -> (r: Vec<Action>)
    ensures
        r@ == preferred_actions(scope@),
{
    let s = String::from_str(scope);
    let r = if same_text(&s, "logs") {
        vec![
            Action::Back,
            Action::Filter,
            Action::Follow,
            Action::LogMarker,
            Action::LogWarnings,
            Action::Json,
            Action::Wrap,
            Action::Stream,
            Action::Copy,
            Action::Save,
            Action::PageUp,
            Action::PageDown,
        ]
    } else if same_text(&s, "detail") || same_text(&s, "diff") || same_text(&s, "events") {
        vec![
            Action::Back,
            Action::Filter,
            Action::NextMatch,
            Action::PreviousMatch,
            Action::Wrap,
            Action::Fullscreen,
            Action::Copy,
            Action::PageUp,
            Action::PageDown,
        ]
    } else if same_text(&s, "pvc_explore") {
        vec![Action::Back, Action::SwitchPane, Action::Accept, Action::Parent, Action::Copy, Action::Shell, Action::Refresh]
    } else if same_text(&s, "port_forwards") {
        vec![Action::Back, Action::Up, Action::Down, Action::Start, Action::Toggle]
    } else if same_text(&s, "contexts") {
        vec![Action::Back, Action::Accept, Action::Rename, Action::FleetMark]
    } else {
        vec![
            Action::Back,
            Action::Up,
            Action::Down,
            Action::Accept,
            Action::Logs,
            Action::Refresh,
            Action::Filter,
            Action::Delete,
            Action::Help,
        ]
    };
    assert(r@ =~= preferred_actions(scope@));
    r
}

/// The bottom-line hint of scope `scope`; `workspace` when a workspace is
/// open, `hide_header` when the header is hidden, and `width` the
/// terminal's.
pub fn navigation_hint(keymap: &Keymap, scope: &str, workspace: bool, hide_header: bool, width: u16) -> (r: String)
    ensures
        r@ == navigation_hint_text(
            keymap@,
            scope@,
            workspace,
            hide_header || !(width - HEADER_CHROME >= HEADER_INFO_MIN + HEADER_HINTS_WIDTH),
        ),
{
    let s = String::from_str(scope);
    if same_text(&s, "table") {
        let compact = hide_header || !header_hints_fit(width);
        let mut out = String::new();
        out.append(keymap.first_label(scope, Action::NextView));
        out.append("/");
        out.append(keymap.first_label(scope, Action::PreviousView));
        out.append(": ");
        out.append(if workspace { "workspace" } else { "resources" });
        out.append("  ");
        let hint = key_hint(keymap, scope, &table_pairs(compact));
        out.append(hint.as_str());
        return out;
    }
    if same_text(&s, "port_forward_picker") {
        let pairs = vec![(Action::Accept, "start"), (Action::Edit, "edit local port"), (Action::Back, "back")];
        assert(pairs_view(pairs@) =~= seq![(Action::Accept, "start"@), (Action::Edit, "edit local port"@), (Action::Back, "back"@)]);
        return key_hint(keymap, scope, &pairs);
    }
    let preferred = preferred_of(scope);
    let mut available: Vec<(Action, &'static str)> = Vec::new();
    let mut k: usize = 0;
    while k < preferred.len()
        invariant
            k <= preferred@.len(),
            pairs_view(available@) == bound_pairs(keymap@, scope@, preferred@.take(k as int)),
        decreases preferred@.len() - k,
    {
        let a = preferred[k];
        proof {
            assert(preferred@.take(k + 1).drop_last() =~= preferred@.take(k as int));
        }
        if keymap.binds(scope, a) {
            let ghost prev = available@;
            available.push((a, a.description()));
            assert(pairs_view(available@) =~= pairs_view(prev).push((a, action_description(a))));
        }
        k = k + 1;
    }
    assert(preferred@.take(preferred@.len() as int) =~= preferred@);
    key_hint(keymap, scope, &available)
}

/// Rows of action and label pairs.
pub open spec fn rows_view(rows: Seq<Vec<(Action, &'static str)>>) -> Seq<Seq<(Action, Seq<char>)>> {
    rows.map_values(|r: Vec<(Action, &'static str)>| pairs_view(r@))
}

/// The verbs the header offers for a kind of table, row by row.
#[verifier::opaque]
pub open spec fn kind_hint_rows(kind: Seq<char>) -> Seq<Seq<(Action, Seq<char>)>> {
    if kind == "pods"@ {
        seq![seq![(Action::Open, "containers"@), (Action::Logs, "logs"@), (Action::PreviousLogs, "prev logs"@)], seq![(Action::ShellOrScale, "shell"@), (Action::ActionMenu, "transfer"@), (Action::PortForward, "port-fwd"@)], seq![(Action::Yaml, "yaml"@), (Action::Describe, "describe"@), (Action::Events, "events"@)], seq![(Action::Edit, "edit"@), (Action::Node, "node"@), (Action::Owner, "owner"@)], seq![(Action::Explain, "explain"@), (Action::Timeline, "timeline"@), (Action::Delete, "delete"@)]]
    } else if kind == "deployments"@ || kind == "statefulsets"@ {
        seq![seq![(Action::Open, "pods"@), (Action::Logs, "logs"@), (Action::Events, "events"@)], seq![(Action::ShellOrScale, "scale"@), (Action::RestartOrRefresh, "restart"@), (Action::SetImage, "image"@)], seq![(Action::Yaml, "yaml"@), (Action::Describe, "describe"@), (Action::Edit, "edit"@)], seq![(Action::Explain, "explain"@), (Action::Timeline, "timeline"@), (Action::PortForward, "port-fwd"@)], seq![(Action::Delete, "delete"@)]]
    } else if kind == "daemonsets"@ {
        seq![seq![(Action::Open, "pods"@), (Action::Logs, "logs"@), (Action::Events, "events"@)], seq![(Action::RestartOrRefresh, "restart"@), (Action::SetImage, "image"@)], seq![(Action::Yaml, "yaml"@), (Action::Describe, "describe"@), (Action::Edit, "edit"@)], seq![(Action::Explain, "explain"@), (Action::Delete, "delete"@)]]
    } else if kind == "replicasets"@ || kind == "jobs"@ {
        seq![seq![(Action::Open, "pods"@), (Action::Logs, "logs"@), (Action::Events, "events"@)], seq![(Action::Yaml, "yaml"@), (Action::Describe, "describe"@), (Action::Edit, "edit"@)], seq![(Action::Explain, "explain"@), (Action::Owner, "owner"@), (Action::Delete, "delete"@)]]
    } else if kind == "services"@ {
        seq![seq![(Action::Open, "pods"@), (Action::PortForward, "port-fwd"@)], seq![(Action::Yaml, "yaml"@), (Action::Describe, "describe"@), (Action::Edit, "edit"@)], seq![(Action::CopyCell, "copy cell"@), (Action::Delete, "delete"@)]]
    } else if kind == "nodes"@ {
        seq![seq![(Action::Open, "pods"@), (Action::Yaml, "yaml"@), (Action::Describe, "describe"@)], seq![(Action::Cordon, "cordon"@), (Action::Uncordon, "uncordon"@), (Action::Drain, "drain"@)], seq![(Action::Delete, "delete"@)]]
    } else if kind == "namespaces"@ {
        seq![seq![(Action::Open, "switch to"@), (Action::Yaml, "yaml"@), (Action::Describe, "describe"@)], seq![(Action::Edit, "edit"@), (Action::Delete, "delete"@)]]
    } else if kind == "helm"@ {
        seq![seq![(Action::Open, "history"@)], seq![(Action::Yaml, "yaml"@), (Action::Describe, "describe"@)], seq![(Action::Delete, "uninstall"@)]]
    } else if kind == "helmhistory"@ {
        seq![seq![(Action::Open, "values"@), (Action::RestartOrRefresh, "rollback"@)], seq![(Action::Delete, "uninstall"@)]]
    } else if kind == "customresourcedefinitions"@ {
        seq![seq![(Action::Open, "resources"@), (Action::Yaml, "yaml"@), (Action::Describe, "describe"@)], seq![(Action::Edit, "edit"@), (Action::Delete, "delete"@)]]
    } else if kind == "secrets"@ {
        seq![seq![(Action::Inspect, "decode"@), (Action::Yaml, "yaml"@), (Action::Describe, "describe"@)], seq![(Action::Edit, "edit"@), (Action::Events, "events"@), (Action::CopyName, "copy name"@)], seq![(Action::Delete, "delete"@)]]
    } else if kind == "persistentvolumeclaims"@ {
        seq![seq![(Action::Inspect, "browse"@), (Action::ShellOrScale, "shell"@), (Action::Describe, "describe"@)], seq![(Action::Yaml, "yaml"@), (Action::Events, "events"@), (Action::CopyName, "copy name"@)], seq![(Action::Delete, "delete"@)]]
    } else {
        seq![seq![(Action::Open, "yaml"@), (Action::Describe, "describe"@), (Action::Events, "events"@)], seq![(Action::Edit, "edit"@), (Action::CopyName, "copy name"@), (Action::CopyCell, "copy cell"@)], seq![(Action::Delete, "delete"@)]]
    }
}

fn kind_rows_of(kind: &str) -> (r: Vec<Vec<(Action, &'static str)>>)
    ensures
        rows_view(r@) == kind_hint_rows(kind@),
{
    reveal(kind_hint_rows);
    let k = String::from_str(kind);
    let r = 
    if same_text(&k, "pods") {
        vec![vec![(Action::Open, "containers"), (Action::Logs, "logs"), (Action::PreviousLogs, "prev logs")], vec![(Action::ShellOrScale, "shell"), (Action::ActionMenu, "transfer"), (Action::PortForward, "port-fwd")], vec![(Action::Yaml, "yaml"), (Action::Describe, "describe"), (Action::Events, "events")], vec![(Action::Edit, "edit"), (Action::Node, "node"), (Action::Owner, "owner")], vec![(Action::Explain, "explain"), (Action::Timeline, "timeline"), (Action::Delete, "delete")]]
    } else if same_text(&k, "deployments") || same_text(&k, "statefulsets") {
        vec![vec![(Action::Open, "pods"), (Action::Logs, "logs"), (Action::Events, "events")], vec![(Action::ShellOrScale, "scale"), (Action::RestartOrRefresh, "restart"), (Action::SetImage, "image")], vec![(Action::Yaml, "yaml"), (Action::Describe, "describe"), (Action::Edit, "edit")], vec![(Action::Explain, "explain"), (Action::Timeline, "timeline"), (Action::PortForward, "port-fwd")], vec![(Action::Delete, "delete")]]
    } else if same_text(&k, "daemonsets") {
        vec![vec![(Action::Open, "pods"), (Action::Logs, "logs"), (Action::Events, "events")], vec![(Action::RestartOrRefresh, "restart"), (Action::SetImage, "image")], vec![(Action::Yaml, "yaml"), (Action::Describe, "describe"), (Action::Edit, "edit")], vec![(Action::Explain, "explain"), (Action::Delete, "delete")]]
    } else if same_text(&k, "replicasets") || same_text(&k, "jobs") {
        vec![vec![(Action::Open, "pods"), (Action::Logs, "logs"), (Action::Events, "events")], vec![(Action::Yaml, "yaml"), (Action::Describe, "describe"), (Action::Edit, "edit")], vec![(Action::Explain, "explain"), (Action::Owner, "owner"), (Action::Delete, "delete")]]
    } else if same_text(&k, "services") {
        vec![vec![(Action::Open, "pods"), (Action::PortForward, "port-fwd")], vec![(Action::Yaml, "yaml"), (Action::Describe, "describe"), (Action::Edit, "edit")], vec![(Action::CopyCell, "copy cell"), (Action::Delete, "delete")]]
    } else if same_text(&k, "nodes") {
        vec![vec![(Action::Open, "pods"), (Action::Yaml, "yaml"), (Action::Describe, "describe")], vec![(Action::Cordon, "cordon"), (Action::Uncordon, "uncordon"), (Action::Drain, "drain")], vec![(Action::Delete, "delete")]]
    } else if same_text(&k, "namespaces") {
        vec![vec![(Action::Open, "switch to"), (Action::Yaml, "yaml"), (Action::Describe, "describe")], vec![(Action::Edit, "edit"), (Action::Delete, "delete")]]
    } else if same_text(&k, "helm") {
        vec![vec![(Action::Open, "history")], vec![(Action::Yaml, "yaml"), (Action::Describe, "describe")], vec![(Action::Delete, "uninstall")]]
    } else if same_text(&k, "helmhistory") {
        vec![vec![(Action::Open, "values"), (Action::RestartOrRefresh, "rollback")], vec![(Action::Delete, "uninstall")]]
    } else if same_text(&k, "customresourcedefinitions") {
        vec![vec![(Action::Open, "resources"), (Action::Yaml, "yaml"), (Action::Describe, "describe")], vec![(Action::Edit, "edit"), (Action::Delete, "delete")]]
    } else if same_text(&k, "secrets") {
        vec![vec![(Action::Inspect, "decode"), (Action::Yaml, "yaml"), (Action::Describe, "describe")], vec![(Action::Edit, "edit"), (Action::Events, "events"), (Action::CopyName, "copy name")], vec![(Action::Delete, "delete")]]
    } else if same_text(&k, "persistentvolumeclaims") {
        vec![vec![(Action::Inspect, "browse"), (Action::ShellOrScale, "shell"), (Action::Describe, "describe")], vec![(Action::Yaml, "yaml"), (Action::Events, "events"), (Action::CopyName, "copy name")], vec![(Action::Delete, "delete")]]
    } else {
        vec![vec![(Action::Open, "yaml"), (Action::Describe, "describe"), (Action::Events, "events")], vec![(Action::Edit, "edit"), (Action::CopyName, "copy name"), (Action::CopyCell, "copy cell")], vec![(Action::Delete, "delete")]]
    };
    proof {
        assert(rows_view(r@) =~~= kind_hint_rows(kind@));
    }
    r
}

/// What the header knows of the current table: the kind's plural name and
/// API group (empty when unknown), and what the kind supports.
#[derive(Clone, Debug)]
pub struct TableKind {
    pub plural: String,
    pub group: String,
    pub scalable: bool,
    pub flux_suspendable: bool,
    pub argocd: bool,
    pub cronjob: bool,
    pub external_secret: bool,
}

/// A row of one pair when `on`.
pub open spec fn row_if(on: bool, a: Action, label: Seq<char>) -> Seq<Seq<(Action, Seq<char>)>> {
    if on {
        seq![seq![(a, label)]]
    } else {
        Seq::empty()
    }
}

/// Kinds whose own rows already offer scaling, or that cannot scale.
pub open spec fn scales_in_own_rows(plural: Seq<char>) -> bool {
    plural == "deployments"@ || plural == "statefulsets"@ || plural == "pods"@ || plural == "persistentvolumeclaims"@
}

/// The verbs of a table's kind; Cluster API machine deployments have their
/// own.
pub open spec fn base_rows(k: TableKind) -> Seq<Seq<(Action, Seq<char>)>> {
    if k.plural@ == "machinedeployments"@ && k.group@ == "cluster.x-k8s.io"@ {
        seq![
            seq![(Action::Open, "machines"@), (Action::Yaml, "yaml"@), (Action::Describe, "describe"@)],
            seq![(Action::Edit, "edit"@), (Action::Delete, "delete"@)],
        ]
    } else {
        kind_hint_rows(k.plural@)
    }
}

/// The verbs of a table's kind, with a scale row second for scalable kinds
/// whose rows do not already offer it.
pub open spec fn scaled_rows(k: TableKind) -> Seq<Seq<(Action, Seq<char>)>> {
    if k.scalable && !scales_in_own_rows(k.plural@) {
        base_rows(k).insert(1, seq![(Action::ShellOrScale, "scale"@)])
    } else {
        base_rows(k)
    }
}

/// The rows of the controllers a table's kind belongs to.
pub open spec fn extra_rows(k: TableKind) -> Seq<Seq<(Action, Seq<char>)>> {
    row_if(k.flux_suspendable, Action::ActionMenu, "flux menu"@) + row_if(k.argocd, Action::ActionMenu, "suspend/sync"@)
        + row_if(k.plural@ == "helmreleases"@, Action::Open, "helm history"@) + row_if(
        k.cronjob,
        Action::ActionMenu,
        "trigger/suspend"@,
    ) + row_if(k.external_secret, Action::RestartOrRefresh, "force-sync"@)
}

/// The header's action rows for a table: the verbs of its kind, a scale
/// row second for other scalable kinds, then the rows of the controllers it
/// belongs to; at most five rows, which is what the header box holds.
pub open spec fn header_hint_rows(k: TableKind) -> Seq<Seq<(Action, Seq<char>)>> {
    let all = scaled_rows(k) + extra_rows(k);
    if all.len() > 5 {
        all.take(5)
    } else {
        all
    }
}

/// Every kind has at least two rows of verbs.
proof fn lemma_kind_rows_len(kind: Seq<char>)
    ensures
        kind_hint_rows(kind).len() >= 2,
{
    reveal(kind_hint_rows);
}

fn push_row_if(rows: &mut Vec<Vec<(Action, &'static str)>>, on: bool, a: Action, label: &'static str)
    ensures
        rows_view(final(rows)@) == rows_view(old(rows)@) + row_if(on, a, label@),
{
    if on {
        let ghost prev = rows@;
        rows.push(vec![(a, label)]);
        assert(pairs_view(seq![(a, label)]) =~= seq![(a, label@)]);
        assert(rows_view(rows@) =~~= rows_view(prev) + row_if(on, a, label@));
    } else {
        assert(rows_view(rows@) =~= rows_view(old(rows)@) + row_if(on, a, label@));
    }
}

fn scaled_rows_of(k: &TableKind) -> (r: Vec<Vec<(Action, &'static str)>>)
    ensures
        rows_view(r@) == scaled_rows(*k),
{
    let plural = &k.plural;
    let mut lines = if same_text(plural, "machinedeployments") && same_text(&k.group, "cluster.x-k8s.io") {
        let m = vec![
            vec![(Action::Open, "machines"), (Action::Yaml, "yaml"), (Action::Describe, "describe")],
            vec![(Action::Edit, "edit"), (Action::Delete, "delete")],
        ];
        assert(rows_view(m@) =~~= seq![
            seq![(Action::Open, "machines"@), (Action::Yaml, "yaml"@), (Action::Describe, "describe"@)],
            seq![(Action::Edit, "edit"@), (Action::Delete, "delete"@)],
        ]);
        m
    } else {
        kind_rows_of(plural.as_str())
    };
    assert(rows_view(lines@) == base_rows(*k));
    let own = same_text(plural, "deployments") || same_text(plural, "statefulsets") || same_text(plural, "pods")
        || same_text(plural, "persistentvolumeclaims");
    proof {
        lemma_kind_rows_len(plural@);
        assert(rows_view(lines@).len() == lines@.len());
    }
    if k.scalable && !own {
        let ghost prev = lines@;
        lines.insert(1, vec![(Action::ShellOrScale, "scale")]);
        assert(rows_view(lines@) =~~= rows_view(prev).insert(1, seq![(Action::ShellOrScale, "scale"@)]));
    }
    lines
}

/// The modes whose full-screen view replaces the table, so the header
/// shows no per-kind hints.
pub open spec fn full_screen(mode: Mode) -> bool {
    mode == Mode::Detail || mode == Mode::Diff || mode == Mode::Events || mode == Mode::Logs || mode == Mode::LogFilter
        || mode == Mode::DocFilter || mode == Mode::Help || mode == Mode::Pulse || mode == Mode::Xray || mode
        == Mode::Explain || mode == Mode::Timeline || mode == Mode::Gitops || mode == Mode::Argocd || mode
        == Mode::Adjacent || mode == Mode::PortForwards
}

/// Whether `mode` shows a full-screen view (see `full_screen`).
pub fn is_full_screen(mode: Mode) -> (r: bool)
    ensures
        r == full_screen(mode),
{
    match mode {
        Mode::Detail | Mode::Diff | Mode::Events | Mode::Logs | Mode::LogFilter | Mode::DocFilter | Mode::Help
        | Mode::Pulse | Mode::Xray | Mode::Explain | Mode::Timeline | Mode::Gitops | Mode::Argocd | Mode::Adjacent
        | Mode::PortForwards => true,
        _ => false,
    }
}

/// Per-kind action hints for the header: only the verbs that do something
/// for the current kind, as rows of action and label. Empty in a mode whose
/// full-screen view (logs, detail, help, ...) replaces the table.
pub fn header_hints(k: &TableKind, mode: Mode) -> (r: Vec<Vec<(Action, &'static str)>>)
    ensures
        rows_view(r@) == if full_screen(mode) { Seq::empty() } else { header_hint_rows(*k) },
{
    let full_screen = is_full_screen(mode);
    if full_screen {
        let r: Vec<Vec<(Action, &'static str)>> = Vec::new();
        assert(rows_view(r@) =~= Seq::<Seq<(Action, Seq<char>)>>::empty());
        return r;
    }
    let mut lines = scaled_rows_of(k);
    let ghost start = rows_view(lines@);
    push_row_if(&mut lines, k.flux_suspendable, Action::ActionMenu, "flux menu");
    push_row_if(&mut lines, k.argocd, Action::ActionMenu, "suspend/sync");
    push_row_if(&mut lines, same_text(&k.plural, "helmreleases"), Action::Open, "helm history");
    push_row_if(&mut lines, k.cronjob, Action::ActionMenu, "trigger/suspend");
    push_row_if(&mut lines, k.external_secret, Action::RestartOrRefresh, "force-sync");
    assert(rows_view(lines@) =~= start + extra_rows(*k));
    let ghost full = lines@;
    lines.truncate(5);
    proof {
        if full.len() > 5 {
            assert(rows_view(lines@) =~= rows_view(full).take(5));
        }
    }
    lines
}

/// The confirm prompt's hint pairs: confirm and cancel, then, when the
/// action can be forced, force and cascade.
pub open spec fn confirm_pairs(allows_force: bool) -> Seq<(Action, Seq<char>)> {
    seq![(Action::Accept, "confirm"@), (Action::Back, "cancel"@)] + if allows_force {
        seq![(Action::Force, "toggle force"@), (Action::Cascade, "cascade"@)]
    } else {
        Seq::empty()
    }
}

/// The confirm prompt's key hint (see `confirm_pairs`).
pub fn confirm_action_hint(keymap: &Keymap, allows_force: bool) -> (r: String)
    ensures
        r@ == key_hint_text(keymap@, "confirm"@, confirm_pairs(allows_force)),
{
    let mut actions = vec![(Action::Accept, "confirm"), (Action::Back, "cancel")];
    if allows_force {
        actions.push((Action::Force, "toggle force"));
        actions.push((Action::Cascade, "cascade"));
    }
    assert(pairs_view(actions@) =~= confirm_pairs(allows_force));
    key_hint(keymap, "confirm", &actions)
}

/// A favourite namespace shown in the header: the first key of its
/// shortcut, its name, and whether it is the active namespace.
#[derive(Clone, Debug, PartialEq, Eq)]
pub struct FavoriteEntry {
    pub key: String,
    pub namespace: String,
    pub current: bool,
}

/// The favourite namespaces from `i` on that fit in `width` columns with
/// `used` already taken, and whether an ellipsis follows them: each shown
/// favourite is named, has a shortcut bound in the table, and takes three
/// columns of spacing besides its key and its name; the first that does not
/// fit ends the list, with an ellipsis when three columns are left for it.
pub open spec fn favorites_from(k: KeymapView, favs: Seq<Seq<char>>, current: Seq<char>, width: int, i: int, used: int) -> (
    Seq<(Seq<char>, Seq<char>, bool)>,
    bool,
)
    decreases favs.len() - i,
{
    if i < 0 || i >= favs.len() || i >= 9 {
        (Seq::empty(), false)
    } else {
        let ns = favs[i];
        let b = bound_in(k, "table"@, favorite_actions()[i]);
        if ns.len() == 0 || chords_or_none(b).len() == 0 {
            favorites_from(k, favs, current, width, i + 1, used)
        } else {
            let key = label_of(b, true);
            let ew = 3 + crate::text::str_width(key) + crate::text::str_width(ns);
            if used + ew > width {
                (Seq::empty(), used + 3 <= width)
            } else {
                let rest = favorites_from(k, favs, current, width, i + 1, used + ew);
                (seq![(key, ns, ns == current)] + rest.0, rest.1)
            }
        }
    }
}

/// The entries as (key, namespace, current).
pub open spec fn favorites_view(es: Seq<FavoriteEntry>) -> Seq<(Seq<char>, Seq<char>, bool)> {
    es.map_values(|e: FavoriteEntry| (e.key@, e.namespace@, e.current))
}

/// The favourite namespaces the header shows in `width` columns (see
/// `favorites_from`), and whether an ellipsis follows them.
pub fn favorite_namespace_entries(keymap: &Keymap, favorites: &Vec<String>, namespace: &str, width: usize) -> (r: (
    Vec<FavoriteEntry>,
    bool,
))
    ensures
        (favorites_view(r.0@), r.1) == favorites_from(
            keymap@,
            crate::config::texts(favorites@),
            namespace@,
            width as int,
            0,
            0,
        ),
{
    let actions = Action::favorite_namespaces();
    let ghost favs = crate::config::texts(favorites@);
    let mut out: Vec<FavoriteEntry> = Vec::new();
    let mut used: usize = 0;
    let mut i: usize = 0;
    let n = if favorites.len() < 9 { favorites.len() } else { 9 };
    let ghost total = favorites_from(keymap@, favs, namespace@, width as int, 0, 0);
    assert(favorites_view(out@) =~= Seq::<(Seq<char>, Seq<char>, bool)>::empty());
    while i < n
        invariant
            actions@ == favorite_actions(),
            favs == crate::config::texts(favorites@),
            n == (if favorites@.len() < 9 { favorites@.len() } else { 9 }),
            i <= n,
            used <= width,
            total == favorites_from(keymap@, favs, namespace@, width as int, 0, 0),
            total == ({
                let rest = favorites_from(keymap@, favs, namespace@, width as int, i as int, used as int);
                (favorites_view(out@) + rest.0, rest.1)
            }),
        decreases n - i,
    {
        let ns = &favorites[i];
        let action = actions[i];
        assert(favs[i as int] == ns@);
        let ghost rest_before = favorites_from(keymap@, favs, namespace@, width as int, i as int, used as int);
        if crate::text::chars_of(ns.as_str()).len() == 0 || keymap.chords("table", action).len() == 0 {
            i = i + 1;
            continue;
        }
        let key = keymap.first_label("table", action);
        let kw = crate::text::str_width_of(key);
        let nw = crate::text::str_width_of(ns.as_str());
        let room = width - used;
        let fits = match kw.checked_add(nw) {
            Some(x) => match x.checked_add(3) {
                Some(ew) => if ew <= room {
                    Some(ew)
                } else {
                    None
                },
                None => None,
            },
            None => None,
        };
        match fits {
            None => {
                let ellipsis = room >= 3;
                return (out, ellipsis);
            },
            Some(ew) => {
                let ghost before = favorites_view(out@);
                let current = same_text(ns, namespace);
                out.push(FavoriteEntry { key: String::from_str(key), namespace: ns.clone(), current });
                proof {
                    assert(favorites_view(out@) =~= before.push((key@, ns@, ns@ == namespace@)));
                }
                used = used + ew;
            },
        }
        i = i + 1;
    }
    (out, false)
}

} // verus!
