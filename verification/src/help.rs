//! The help screen's content: every binding of every scope with what it
//! does, the command reference, plugins, bookmarks and workspaces, and the
//! search that keeps each matching line with its section heading.

use crate::config::{same_text, texts, Bookmark, Plugin, Workspace};
use crate::hints::join;
use crate::keymap::{
    action_description, all_entries, bound_in, entries_view, label_of, strs_view, Action, Keymap, KeymapView,
};
use crate::keys::{chord_label, chord_of, KeyChord};
use crate::text::{decimal, decimal_string, occurs_in, str_width, str_width_of};
use vstd::prelude::*;
use vstd::string::StringExecFns;

verus! {

/// One line of the help screen: blank, a section heading, plain text, or a
/// key with what it does.
#[derive(Clone, Debug, PartialEq, Eq)]
pub enum HelpLine {
    Blank,
    Heading(String),
    Text(String),
    Binding(String, String),
}

/// A help line as (kind, first text, second text): kind 0 is blank, 1 a
/// heading, 2 plain text, 3 a binding of a key (first) to what it does
/// (second).
pub type HelpLineView = (u8, Seq<char>, Seq<char>);

/// A help line's view.
pub open spec fn hl(k: u8, a: Seq<char>, b: Seq<char>) -> HelpLineView {
    (k, a, b)
}

/// The view of a help line.
pub open spec fn line_view(l: HelpLine) -> HelpLineView {
    match l {
        HelpLine::Blank => hl(0, Seq::empty(), Seq::empty()),
        HelpLine::Heading(t) => hl(1, t@, Seq::empty()),
        HelpLine::Text(t) => hl(2, t@, Seq::empty()),
        HelpLine::Binding(k, d) => hl(3, k@, d@),
    }
}

/// The views of help lines.
pub open spec fn help_view(v: Seq<HelpLine>) -> Seq<HelpLineView> {
    v.map_values(|l: HelpLine| line_view(l))
}

fn heading(t: &str) -> (r: HelpLine)
    ensures
        line_view(r) == hl(1, t@, Seq::empty()),
{
    HelpLine::Heading(String::from_str(t))
}

fn text_line(t: &str) -> (r: HelpLine)
    ensures
        line_view(r) == hl(2, t@, Seq::empty()),
{
    HelpLine::Text(String::from_str(t))
}

fn binding(k: &str, d: &str) -> (r: HelpLine)
    ensures
        line_view(r) == hl(3, k@, d@),
{
    HelpLine::Binding(String::from_str(k), String::from_str(d))
}

fn push_line(lines: &mut Vec<HelpLine>, l: HelpLine)
    ensures
        help_view(final(lines)@) == help_view(old(lines)@).push(line_view(l)),
{
    lines.push(l);
    assert(help_view(lines@) =~= help_view(old(lines)@).push(line_view(l)));
}

fn append_lines(lines: &mut Vec<HelpLine>, more: Vec<HelpLine>)
    ensures
        help_view(final(lines)@) == help_view(old(lines)@) + help_view(more@),
{
    let ghost start = help_view(lines@);
    let ghost all = more@;
    let total = more.len();
    let mut rest = more;
    let mut k: usize = 0;
    while rest.len() > 0
        invariant
            total == all.len(),
            k <= all.len(),
            rest@ == all.skip(k as int),
            help_view(lines@) == start + help_view(all.take(k as int)),
        decreases rest@.len(),
    {
        let l = rest.remove(0);
        assert(l == all[k as int]);
        push_line(lines, l);
        assert(help_view(all.take(k + 1)) =~= help_view(all.take(k as int)).push(line_view(all[k as int])));
        assert(rest@ =~= all.skip(k + 1));
        k = k + 1;
    }
    assert(all.take(all.len() as int) =~= all);
}

/// What help says an action does in a scope: a fuller text for the
/// bindings whose short description needs context, else the description.
pub open spec fn help_description(scope: Seq<char>, a: Action) -> Seq<char> {
    if scope == "table"@ && a == Action::Drain {
        "open node drain options for the current or marked nodes"@
    } else if scope == "drain"@ {
        match a {
            Action::Accept => "review options; close a completed drain"@,
            Action::Back | Action::Quit => "cancel the form or active drain; accepted requests cannot be reversed"@,
            Action::Toggle => "toggle the selected drain option"@,
            Action::Down => "select the next drain option"@,
            Action::Up => "select the previous drain option"@,
            _ => action_description(a),
        }
    } else if scope == "table"@ && a == Action::Describe {
        "describe; experimental native backend: --experimental-describe or experimental.native_describe in config"@
    } else if scope == "table"@ && a == Action::RestartOrRefresh {
        "restart workloads (marked rows, or current); force-sync external secrets; rollback Helm history; refresh elsewhere"@
    } else if scope == "table"@ && a == Action::Logs {
        "logs (marked pods, or current row)"@
    } else if scope == "table"@ && a == Action::ActionMenu {
        "action menu: Flux suspend/resume/reconcile (includes HelmChart; HelmRelease: + force reconcile); Argo CD suspend/resume (Application: + sync); CronJobs trigger/suspend/resume; pods file transfer"@
    } else if scope == "port_forward_picker"@ && a == Action::Edit {
        "edit local port of the selected mapping"@
    } else if scope == "logs"@ && a == Action::Lookback {
        "set lookback (s/m/h/d); kubelet logs also accept tail"@
    } else if a == Action::LogMarker {
        "add visual marker at the log tail (excluded from copy/save)"@
    } else if a == Action::Fullscreen {
        "toggle fullscreen for text selection (no borders or scrollbars)"@
    } else if a == Action::AutoRefresh && scope == "detail"@ {
        "toggle refresh (YAML, decoded Secret, describe)"@
    } else if a == Action::AutoRefresh && scope == "diff"@ {
        "toggle refresh (keep the comparison baseline)"@
    } else if a == Action::Filter && scope == "table"@ {
        "filter rows: text contiguous, a|b either, ~fuzzy; label:text searches labels locally"@
    } else if scope == "table"@ && is_namespace_key(a) {
        action_description(a) + "; also in the namespace switcher while the filter is empty"@
    } else {
        action_description(a)
    }
}

/// The actions that pick all namespaces or a favourite one.
pub open spec fn is_namespace_key(a: Action) -> bool {
    match a {
        Action::AllNamespaces | Action::FavoriteNamespace1 | Action::FavoriteNamespace2 | Action::FavoriteNamespace3
        | Action::FavoriteNamespace4 | Action::FavoriteNamespace5 | Action::FavoriteNamespace6
        | Action::FavoriteNamespace7 | Action::FavoriteNamespace8 | Action::FavoriteNamespace9 => true,
        _ => false,
    }
}

fn is_namespace_key_of(a: Action) -> (r: bool)
    ensures
        r == is_namespace_key(a),
{
    match a {
        Action::AllNamespaces | Action::FavoriteNamespace1 | Action::FavoriteNamespace2 | Action::FavoriteNamespace3
        | Action::FavoriteNamespace4 | Action::FavoriteNamespace5 | Action::FavoriteNamespace6
        | Action::FavoriteNamespace7 | Action::FavoriteNamespace8 | Action::FavoriteNamespace9 => true,
        _ => false,
    }
}

/// What help says `action` does in the scope named `scope`.
pub fn describe_binding(scope: &str, a: Action) -> (r: String)
    ensures
        r@ == help_description(scope@, a),
{
    let s = String::from_str(scope);
    let table = same_text(&s, "table");
    if table && a == Action::Drain {
        String::from_str("open node drain options for the current or marked nodes")
    } else if same_text(&s, "drain") {
        match a {
            Action::Accept => String::from_str("review options; close a completed drain"),
            Action::Back | Action::Quit => String::from_str(
                "cancel the form or active drain; accepted requests cannot be reversed",
            ),
            Action::Toggle => String::from_str("toggle the selected drain option"),
            Action::Down => String::from_str("select the next drain option"),
            Action::Up => String::from_str("select the previous drain option"),
            _ => String::from_str(a.description()),
        }
    } else if table && a == Action::Describe {
        String::from_str(
            "describe; experimental native backend: --experimental-describe or experimental.native_describe in config",
        )
    } else if table && a == Action::RestartOrRefresh {
        String::from_str(
            "restart workloads (marked rows, or current); force-sync external secrets; rollback Helm history; refresh elsewhere",
        )
    } else if table && a == Action::Logs {
        String::from_str("logs (marked pods, or current row)")
    } else if table && a == Action::ActionMenu {
        String::from_str(
            "action menu: Flux suspend/resume/reconcile (includes HelmChart; HelmRelease: + force reconcile); Argo CD suspend/resume (Application: + sync); CronJobs trigger/suspend/resume; pods file transfer",
        )
    } else if same_text(&s, "port_forward_picker") && a == Action::Edit {
        String::from_str("edit local port of the selected mapping")
    } else if same_text(&s, "logs") && a == Action::Lookback {
        String::from_str("set lookback (s/m/h/d); kubelet logs also accept tail")
    } else if a == Action::LogMarker {
        String::from_str("add visual marker at the log tail (excluded from copy/save)")
    } else if a == Action::Fullscreen {
        String::from_str("toggle fullscreen for text selection (no borders or scrollbars)")
    } else if a == Action::AutoRefresh && same_text(&s, "detail") {
        String::from_str("toggle refresh (YAML, decoded Secret, describe)")
    } else if a == Action::AutoRefresh && same_text(&s, "diff") {
        String::from_str("toggle refresh (keep the comparison baseline)")
    } else if a == Action::Filter && table {
        String::from_str("filter rows: text contiguous, a|b either, ~fuzzy; label:text searches labels locally")
    } else if table && is_namespace_key_of(a) {
        let mut d = String::from_str(a.description());
        d.append("; also in the namespace switcher while the filter is empty");
        d
    } else {
        String::from_str(a.description())
    }
}

/// The command reference, after the key bindings; `complete` is the label
/// of the palette's completion keys.
pub open spec fn commands_section(complete: Seq<char>) -> Seq<HelpLineView> {
    seq![
        hl(2, "  Range selection keeps separate marks; other keys end the range."@, Seq::empty()),
        hl(1, "  Commands (enter in the command palette)"@, Seq::empty()),
        hl(3, ":<resource>"@, "global command palette - fuzzy over kinds + commands"@),
        hl(3, complete, "fill the highlighted palette suggestion and keep typing"@),
        hl(3, ":<res> <ns>"@, "switch kind and namespace at once (all/* = all namespaces)"@),
        hl(3, ":ns <name>"@, "change namespace, keep resource (all/* = all); from Namespaces, return or open Pods"@),
        hl(3, ":ctx · :pulse"@, "switch context (launch: sofka ctx) · cluster-health dashboard"@),
        hl(3, ":fleet"@, "cross-context health dashboard for configured contexts"@),
        hl(3, ":xray · :diff"@, "hierarchical tree · live-vs-last-applied diff"@),
        hl(3, ":events"@, "browse all events"@),
        hl(3, ":pf"@, "view/stop background port-forwards"@),
        hl(3, ":skin"@, "switch color skin live"@),
        hl(3, ":mouse"@, "switch mouse capture on/off for text selection"@),
        hl(3, ":reload · :config · :info"@, "reload config · config sources + warnings · runtime diagnostics"@),
        hl(3, ":can-i"@, "what you can do here · :can-i <verb> <resource> [ns] checks one action"@),
        hl(3, ":resource -n ns --context ctx /filter"@, "query resource, namespace, context and filter together"@),
        hl(3, ":resource @context [namespace]"@, "switch context and resource (select to fill context, then add namespace)"@),
        hl(3, ":rightsize"@, "historical right-sizing: P50/P95/P99 usage → suggested requests + patch (needs [providers.metrics])"@),
        hl(3, ":gitops · :flux"@, "Flux owner, source, revisions & reconciliation chain"@),
        hl(3, ":argocd · :argo"@, "Argo CD Application sync/health, source, managed resources & what's blocking"@),
        hl(3, ":journal · :audit"@, "session-local log of the mutating actions you've taken"@),
        hl(3, "Command error"@, "esc dismiss · PgUp/PgDn scroll · d debug if shell is missing"@),
        hl(3, ":debug"@, "pod: ephemeral debug container · node: privileged debug pod"@),
        hl(3, ":debug-clean"@, "delete the node debugger pods launched this session"@),
        hl(3, ":bundle · :bundle-save"@, "assemble a redacted diagnostic bundle for the selection · write it to a file"@),
        hl(3, ":snapshot [fmt] · :snapshots"@, "capture the current view (text/json/yaml) · browse saved snapshots"@),
        hl(3, ":pvc-clean"@, "delete helper pods left behind by a session that exited uncleanly (:pvc-cleanup)"@),
        hl(3, ":plugin-cancel"@, "cancel the active plugin and its temporary forward"@),
        hl(3, ":plugin-activity"@, "reopen plugin activity or its completed report"@),
        hl(3, "Esc / Ctrl+C (activity)"@, "hide without cancelling / cancel the focused plugin"@),
    ]
}

fn push_commands(lines: &mut Vec<HelpLine>, keymap: &Keymap)
    ensures
        help_view(final(lines)@) == help_view(old(lines)@) + commands_section(label_of(bound_in(keymap@, "command"@, Action::Complete), false)),
{
    let ghost start = help_view(lines@);
    let more = vec![
        text_line("  Range selection keeps separate marks; other keys end the range."),
        heading("  Commands (enter in the command palette)"),
        binding(":<resource>", "global command palette - fuzzy over kinds + commands"),
        binding(keymap.label("command", Action::Complete), "fill the highlighted palette suggestion and keep typing"),
        binding(":<res> <ns>", "switch kind and namespace at once (all/* = all namespaces)"),
        binding(":ns <name>", "change namespace, keep resource (all/* = all); from Namespaces, return or open Pods"),
        binding(":ctx · :pulse", "switch context (launch: sofka ctx) · cluster-health dashboard"),
        binding(":fleet", "cross-context health dashboard for configured contexts"),
        binding(":xray · :diff", "hierarchical tree · live-vs-last-applied diff"),
        binding(":events", "browse all events"),
        binding(":pf", "view/stop background port-forwards"),
        binding(":skin", "switch color skin live"),
        binding(":mouse", "switch mouse capture on/off for text selection"),
        binding(":reload · :config · :info", "reload config · config sources + warnings · runtime diagnostics"),
        binding(":can-i", "what you can do here · :can-i <verb> <resource> [ns] checks one action"),
        binding(":resource -n ns --context ctx /filter", "query resource, namespace, context and filter together"),
        binding(":resource @context [namespace]", "switch context and resource (select to fill context, then add namespace)"),
        binding(":rightsize", "historical right-sizing: P50/P95/P99 usage → suggested requests + patch (needs [providers.metrics])"),
        binding(":gitops · :flux", "Flux owner, source, revisions & reconciliation chain"),
        binding(":argocd · :argo", "Argo CD Application sync/health, source, managed resources & what's blocking"),
        binding(":journal · :audit", "session-local log of the mutating actions you've taken"),
        binding("Command error", "esc dismiss · PgUp/PgDn scroll · d debug if shell is missing"),
        binding(":debug", "pod: ephemeral debug container · node: privileged debug pod"),
        binding(":debug-clean", "delete the node debugger pods launched this session"),
        binding(":bundle · :bundle-save", "assemble a redacted diagnostic bundle for the selection · write it to a file"),
        binding(":snapshot [fmt] · :snapshots", "capture the current view (text/json/yaml) · browse saved snapshots"),
        binding(":pvc-clean", "delete helper pods left behind by a session that exited uncleanly (:pvc-cleanup)"),
        binding(":plugin-cancel", "cancel the active plugin and its temporary forward"),
        binding(":plugin-activity", "reopen plugin activity or its completed report"),
        binding("Esc / Ctrl+C (activity)", "hide without cancelling / cancel the focused plugin"),
    ];
    append_lines(lines, more);
    assert(help_view(lines@) =~= start + commands_section(label_of(bound_in(keymap@, "command"@, Action::Complete), false)));
}

/// The help lines for the first `n` bindings of `es`: a blank line and a
/// heading before each new scope, then each binding's keys and what it does.
pub open spec fn entry_lines(v: KeymapView, es: Seq<(Seq<char>, Action, Seq<KeyChord>)>, n: int) -> Seq<HelpLineView>
    decreases n,
{
    if n <= 0 {
        Seq::empty()
    } else {
        let e = es[n - 1];
        let prev = if n == 1 { ""@ } else { es[n - 2].0 };
        entry_lines(v, es, n - 1) + (if e.0 != prev {
            seq![hl(0, Seq::empty(), Seq::empty()), hl(1, "  Keys: "@ + e.0, Seq::empty())]
        } else {
            Seq::empty()
        }) + seq![hl(3, label_of(bound_in(v, e.0, e.1), false), help_description(e.0, e.1))]
    }
}

/// The label of a key chord as configuration spells it; a chord that does
/// not parse is shown as written with a question mark.
pub open spec fn chord_text(k: Seq<char>) -> Seq<char> {
    match chord_of(k) {
        Some(c) => chord_label(c),
        None => k + "?"@,
    }
}

/// How help shows a plugin's triggers: its chord and palette command.
pub open spec fn plugin_key(p: Plugin) -> Seq<char> {
    join(
        (if p.key@.len() == 0 { Seq::empty() } else { seq![chord_text(p.key@)] }) + (match p.palette {
            Some(c) => seq![":"@ + c@],
            None => Seq::empty(),
        }),
        " / "@,
    )
}

/// The help line of a plugin: its triggers, its name and where it applies.
pub open spec fn plugin_line(p: Plugin) -> HelpLineView {
    hl(
        3,
        plugin_key(p),
        p.name@ + " ("@ + (if p.scopes@.len() == 0 { "all resources"@ } else { join(texts(p.scopes@), ", "@) }) + ")"@,
    )
}

/// The help line of a bookmark: its chord, or `:` when it has none.
pub open spec fn bookmark_line(b: Bookmark) -> HelpLineView {
    hl(
        3,
        match b.key {
            Some(k) => chord_text(k@),
            None => ":"@,
        },
        "★ "@ + b.name@,
    )
}

/// The help line of a workspace: its chord, name and number of views.
pub open spec fn workspace_line(w: Workspace) -> HelpLineView {
    hl(
        3,
        match w.key {
            Some(k) => chord_text(k@),
            None => ":"@,
        },
        "▦ "@ + w.name@ + " ("@ + decimal(w.views@.len()) + " views · Tab to cycle)"@,
    )
}

/// A section of lines under a heading, after a blank line; nothing when
/// there are no lines.
pub open spec fn section(title: Seq<char>, body: Seq<HelpLineView>) -> Seq<HelpLineView> {
    if body.len() == 0 {
        Seq::empty()
    } else {
        seq![hl(0, Seq::empty(), Seq::empty()), hl(1, title, Seq::empty())] + body
    }
}

/// The node drain controls.
pub open spec fn drain_section() -> Seq<HelpLineView> {
    seq![
        hl(1, "  Node drain controls"@, Seq::empty()),
        hl(3, "PgUp/PgDn (node drain)"@, "scroll options, confirmation, or progress"@),
        hl(3, "PgUp/PgDn (confirm/input)"@, "scroll popup text"@),
    ]
}

/// How to leave help.
pub open spec fn help_nav_section(v: KeymapView) -> Seq<HelpLineView> {
    seq![
        hl(1, "  Help navigation"@, Seq::empty()),
        hl(3, label_of(bound_in(v, "help"@, Action::Back), false), "clear the search or close help"@),
        hl(3, label_of(bound_in(v, "help"@, Action::Close), false), "close help and return to the previous screen"@),
    ]
}

/// The whole help screen, unfiltered.
pub open spec fn help_text(v: KeymapView, ps: Seq<Plugin>, bs: Seq<Bookmark>, ws: Seq<Workspace>) -> Seq<HelpLineView> {
    let es = all_entries(v);
    entry_lines(v, es, es.len() as int) + commands_section(label_of(bound_in(v, "command"@, Action::Complete), false))
        + section("  Plugins"@, ps.map_values(|p: Plugin| plugin_line(p))) + drain_section() + section(
        "  Bookmarks"@,
        bs.map_values(|b: Bookmark| bookmark_line(b)),
    ) + section("  Workspaces"@, ws.map_values(|w: Workspace| workspace_line(w))) + help_nav_section(v)
}

fn join_texts(parts: &Vec<String>, sep: &str) -> (r: String)
    ensures
        r@ == join(texts(parts@), sep@),
{
    let mut out = String::new();
    let mut k: usize = 0;
    while k < parts.len()
        invariant
            k <= parts@.len(),
            out@ == join(texts(parts@).take(k as int), sep@),
        decreases parts@.len() - k,
    {
        if k > 0 {
            out.append(sep);
        }
        out.append(parts[k].as_str());
        proof {
            let t = texts(parts@).take(k + 1);
            assert(t.drop_last() =~= texts(parts@).take(k as int));
            if k == 0 {
                assert(out@ =~= join(t, sep@));
            } else {
                assert(out@ =~= join(t.drop_last(), sep@) + sep@ + t.last());
            }
        }
        k = k + 1;
    }
    assert(texts(parts@).take(parts@.len() as int) =~= texts(parts@));
    out
}

fn chord_text_of(k: &str) -> (r: String)
    ensures
        r@ == chord_text(k@),
{
    match KeyChord::parse(k) {
        Ok(c) => c.label(),
        Err(_) => {
            let mut s = String::from_str(k);
            s.append("?");
            s
        },
    }
}

fn plugin_line_of(p: &Plugin) -> (r: HelpLine)
    ensures
        line_view(r) == plugin_line(*p),
{
    let mut parts: Vec<String> = Vec::new();
    let empty_key = same_text(&p.key, "");
    proof {
        reveal_strlit("");
        assert(p.key@.len() == 0 ==> p.key@ =~= ""@);
    }
    if !empty_key {
        parts.push(chord_text_of(p.key.as_str()));
    }
    if let Some(c) = &p.palette {
        let mut cmd = String::from_str(":");
        cmd.append(c.as_str());
        parts.push(cmd);
    }
    proof {
        assert(texts(parts@) =~= (if p.key@.len() == 0 { Seq::empty() } else { seq![chord_text(p.key@)] }) + (match p.palette {
            Some(c) => seq![":"@ + c@],
            None => Seq::empty(),
        }));
    }
    let key = join_texts(&parts, " / ");
    let mut d = String::from_str(p.name.as_str());
    d.append(" (");
    if p.scopes.len() == 0 {
        d.append("all resources");
    } else {
        let sc = join_texts(&p.scopes, ", ");
        d.append(sc.as_str());
    }
    d.append(")");
    HelpLine::Binding(key, d)
}

fn key_or_colon(key: &Option<String>) -> (r: String)
    ensures
        r@ == match *key {
            Some(k) => chord_text(k@),
            None => ":"@,
        },
{
    match key {
        Some(k) => chord_text_of(k.as_str()),
        None => String::from_str(":"),
    }
}

fn bookmark_line_of(b: &Bookmark) -> (r: HelpLine)
    ensures
        line_view(r) == bookmark_line(*b),
{
    let mut d = String::from_str("★ ");
    d.append(b.name.as_str());
    HelpLine::Binding(key_or_colon(&b.key), d)
}

fn workspace_line_of(w: &Workspace) -> (r: HelpLine)
    ensures
        line_view(r) == workspace_line(*w),
{
    let mut d = String::from_str("▦ ");
    d.append(w.name.as_str());
    d.append(" (");
    let n = decimal_string(w.views.len() as u64);
    d.append(n.as_str());
    d.append(" views · Tab to cycle)");
    HelpLine::Binding(key_or_colon(&w.key), d)
}

fn push_plugins(lines: &mut Vec<HelpLine>, ps: &[Plugin])
    ensures
        help_view(final(lines)@) == help_view(old(lines)@) + section("  Plugins"@, ps@.map_values(|p: Plugin| plugin_line(p))),
{
    let ghost start = help_view(lines@);
    if ps.len() == 0 {
        assert(help_view(lines@) =~= start + section("  Plugins"@, ps@.map_values(|p: Plugin| plugin_line(p))));
        return;
    }
    push_line(lines, HelpLine::Blank);
    push_line(lines, heading("  Plugins"));
    let ghost head = help_view(lines@);
    let mut k: usize = 0;
    while k < ps.len()
        invariant
            k <= ps@.len(),
            help_view(lines@) == head + ps@.take(k as int).map_values(|p: Plugin| plugin_line(p)),
        decreases ps@.len() - k,
    {
        push_line(lines, plugin_line_of(&ps[k]));
        assert(ps@.take(k + 1).map_values(|p: Plugin| plugin_line(p)) =~= ps@.take(k as int).map_values(
            |p: Plugin| plugin_line(p),
        ).push(plugin_line(ps@[k as int])));
        k = k + 1;
    }
    assert(ps@.take(ps@.len() as int) =~= ps@);
    assert(help_view(lines@) =~= start + section("  Plugins"@, ps@.map_values(|p: Plugin| plugin_line(p))));
}

fn push_bookmarks(lines: &mut Vec<HelpLine>, bs: &[Bookmark])
    ensures
        help_view(final(lines)@) == help_view(old(lines)@) + section(
            "  Bookmarks"@,
            bs@.map_values(|b: Bookmark| bookmark_line(b)),
        ),
{
    let ghost start = help_view(lines@);
    if bs.len() == 0 {
        assert(help_view(lines@) =~= start + section("  Bookmarks"@, bs@.map_values(|b: Bookmark| bookmark_line(b))));
        return;
    }
    push_line(lines, HelpLine::Blank);
    push_line(lines, heading("  Bookmarks"));
    let ghost head = help_view(lines@);
    let mut k: usize = 0;
    while k < bs.len()
        invariant
            k <= bs@.len(),
            help_view(lines@) == head + bs@.take(k as int).map_values(|b: Bookmark| bookmark_line(b)),
        decreases bs@.len() - k,
    {
        push_line(lines, bookmark_line_of(&bs[k]));
        assert(bs@.take(k + 1).map_values(|b: Bookmark| bookmark_line(b)) =~= bs@.take(k as int).map_values(
            |b: Bookmark| bookmark_line(b),
        ).push(bookmark_line(bs@[k as int])));
        k = k + 1;
    }
    assert(bs@.take(bs@.len() as int) =~= bs@);
    assert(help_view(lines@) =~= start + section("  Bookmarks"@, bs@.map_values(|b: Bookmark| bookmark_line(b))));
}

fn push_workspaces(lines: &mut Vec<HelpLine>, ws: &[Workspace])
    ensures
        help_view(final(lines)@) == help_view(old(lines)@) + section(
            "  Workspaces"@,
            ws@.map_values(|w: Workspace| workspace_line(w)),
        ),
{
    let ghost start = help_view(lines@);
    if ws.len() == 0 {
        assert(help_view(lines@) =~= start + section("  Workspaces"@, ws@.map_values(|w: Workspace| workspace_line(w))));
        return;
    }
    push_line(lines, HelpLine::Blank);
    push_line(lines, heading("  Workspaces"));
    let ghost head = help_view(lines@);
    let mut k: usize = 0;
    while k < ws.len()
        invariant
            k <= ws@.len(),
            help_view(lines@) == head + ws@.take(k as int).map_values(|w: Workspace| workspace_line(w)),
        decreases ws@.len() - k,
    {
        push_line(lines, workspace_line_of(&ws[k]));
        assert(ws@.take(k + 1).map_values(|w: Workspace| workspace_line(w)) =~= ws@.take(k as int).map_values(
            |w: Workspace| workspace_line(w),
        ).push(workspace_line(ws@[k as int])));
        k = k + 1;
    }
    assert(ws@.take(ws@.len() as int) =~= ws@);
    assert(help_view(lines@) =~= start + section("  Workspaces"@, ws@.map_values(|w: Workspace| workspace_line(w))));
}

fn push_entries(lines: &mut Vec<HelpLine>, keymap: &Keymap)
    ensures
        help_view(final(lines)@) == help_view(old(lines)@) + entry_lines(
            keymap@,
            all_entries(keymap@),
            all_entries(keymap@).len() as int,
        ),
{
    let ghost start = help_view(lines@);
    let entries = keymap.entries();
    let ghost es = all_entries(keymap@);
    assert(entries_view(entries@) == es);
    let mut prev: &str = "";
    let mut k: usize = 0;
    while k < entries.len()
        invariant
            k <= entries@.len(),
            entries_view(entries@) == es,
            es == all_entries(keymap@),
            prev@ == (if k == 0 { ""@ } else { es[k - 1].0 }),
            help_view(lines@) == start + entry_lines(keymap@, es, k as int),
        decreases entries@.len() - k,
    {
        let (scope, action, _) = entries[k];
        assert(scope@ == es[k as int].0 && action == es[k as int].1);
        let p = String::from_str(prev);
        if !same_text(&p, scope) {
            push_line(lines, HelpLine::Blank);
            let mut h = String::from_str("  Keys: ");
            h.append(scope);
            push_line(lines, HelpLine::Heading(h));
        }
        let key = String::from_str(keymap.label(scope, action));
        let d = describe_binding(scope, action);
        push_line(lines, HelpLine::Binding(key, d));
        assert(help_view(lines@) =~= start + entry_lines(keymap@, es, k + 1));
        prev = scope;
        k = k + 1;
    }
}

/// The help screen's lines, unfiltered: every binding by scope, the
/// command reference, plugins, the drain controls, bookmarks, workspaces,
/// and how to leave help.
pub fn help_lines(keymap: &Keymap, plugins: &[Plugin], bookmarks: &[Bookmark], workspaces: &[Workspace]) -> (r: Vec<HelpLine>)
    ensures
        help_view(r@) == help_text(keymap@, plugins@, bookmarks@, workspaces@),
{
    let mut lines: Vec<HelpLine> = Vec::new();
    assert(help_view(lines@) =~= Seq::<HelpLineView>::empty());
    push_entries(&mut lines, keymap);
    push_commands(&mut lines, keymap);
    push_plugins(&mut lines, plugins);
    let more = vec![
        heading("  Node drain controls"),
        binding("PgUp/PgDn (node drain)", "scroll options, confirmation, or progress"),
        binding("PgUp/PgDn (confirm/input)", "scroll popup text"),
    ];
    append_lines(&mut lines, more);
    push_bookmarks(&mut lines, bookmarks);
    push_workspaces(&mut lines, workspaces);
    let nav = vec![
        heading("  Help navigation"),
        binding(keymap.label("help", Action::Back), "clear the search or close help"),
        binding(keymap.label("help", Action::Close), "close help and return to the previous screen"),
    ];
    append_lines(&mut lines, nav);
    proof {
        let v = keymap@;
        let es = all_entries(v);
        assert(help_view(lines@) =~= help_text(v, plugins@, bookmarks@, workspaces@));
    }
    lines
}

/// `str::to_lowercase`: Unicode lower case. Its result is only named.
pub uninterp spec fn lowercase(s: Seq<char>) -> Seq<char>;

/// `str::to_lowercase`, whose result is only named.
#[verifier::external_body]
fn to_lowercase(s: &str) -> (r: String)
    ensures
        r@ == lowercase(s@),
{
    s.to_lowercase()
}

/// The text of a help line, as search sees it.
pub open spec fn line_text(l: HelpLineView) -> Seq<char> {
    l.1 + l.2
}

/// The search's state: the lines shown so far, a heading waiting for its
/// first match, and how many lines matched.
pub type FilterState = (Seq<HelpLineView>, Option<HelpLineView>, nat);

/// The search taking in one line: an empty line is skipped; a non-binding
/// line becomes the waiting heading; a matching line shows the waiting
/// heading first (after a blank line, unless it is the first shown) and
/// then itself if it is a binding.
pub open spec fn filter_step(st: FilterState, l: HelpLineView, needle: Seq<char>) -> FilterState {
    let text = line_text(l);
    if text.len() == 0 {
        st
    } else {
        let is_binding = l.0 == 3;
        let waiting = if !is_binding { Some(l) } else { st.1 };
        if occurs_in(lowercase(text), needle) {
            let shown = match waiting {
                Some(h) => (if st.0.len() > 0 { st.0.push(hl(0, Seq::empty(), Seq::empty())) } else { st.0 }).push(h),
                None => st.0,
            };
            (if is_binding { shown.push(l) } else { shown }, None, st.2 + 1)
        } else {
            (st.0, waiting, st.2)
        }
    }
}

/// The search over the first `n` lines.
pub open spec fn filter_upto(lines: Seq<HelpLineView>, needle: Seq<char>, n: int) -> FilterState
    decreases n,
{
    if n <= 0 {
        (Seq::empty(), None, 0)
    } else {
        filter_step(filter_upto(lines, needle, n - 1), lines[n - 1], needle)
    }
}

/// The lines help shows for search text `filter`, with the title: all of
/// them under ` Help ` when the search is empty; else the matching lines
/// with their headings, under a title that repeats the search and counts
/// the matches.
pub open spec fn filtered_help(lines: Seq<HelpLineView>, filter: Seq<char>) -> (Seq<HelpLineView>, Seq<char>) {
    let needle = lowercase(filter);
    if needle.len() == 0 {
        (lines, " Help "@)
    } else {
        let st = filter_upto(lines, needle, lines.len() as int);
        (st.0, " Help · /"@ + filter + " ["@ + decimal(st.2) + "] "@)
    }
}

fn copy_line(l: &HelpLine) -> (r: HelpLine)
    ensures
        line_view(r) == line_view(*l),
{
    match l {
        HelpLine::Blank => HelpLine::Blank,
        HelpLine::Heading(t) => HelpLine::Heading(String::from_str(t.as_str())),
        HelpLine::Text(t) => HelpLine::Text(String::from_str(t.as_str())),
        HelpLine::Binding(k, d) => HelpLine::Binding(String::from_str(k.as_str()), String::from_str(d.as_str())),
    }
}

fn text_of(l: &HelpLine) -> (r: String)
    ensures
        r@ == line_text(line_view(*l)),
{
    match l {
        HelpLine::Blank => String::new(),
        HelpLine::Heading(t) => String::from_str(t.as_str()),
        HelpLine::Text(t) => String::from_str(t.as_str()),
        HelpLine::Binding(k, d) => {
            let mut s = String::from_str(k.as_str());
            s.append(d.as_str());
            s
        },
    }
}

fn is_binding_line(l: &HelpLine) -> (r: bool)
    ensures
        r == (line_view(*l).0 == 3),
{
    match l {
        HelpLine::Binding(_, _) => true,
        _ => false,
    }
}

/// The lines and title help shows for the search text `filter` (see
/// `filtered_help`).
pub fn filter_help(lines: Vec<HelpLine>, filter: &str) -> (r: (Vec<HelpLine>, String))
    ensures
        (help_view(r.0@), r.1@) == filtered_help(help_view(lines@), filter@),
{
    let needle = to_lowercase(filter);
    proof {
        reveal_strlit("");
    }
    if same_text(&needle, "") {
        assert(needle@.len() == 0);
        return (lines, String::from_str(" Help "));
    }
    assert(needle@.len() != 0) by {
        if needle@.len() == 0 {
            assert(needle@ =~= ""@);
        }
    }
    let ghost lv = help_view(lines@);
    let mut shown: Vec<HelpLine> = Vec::new();
    let mut waiting: Option<HelpLine> = None;
    let mut matches: usize = 0;
    let mut k: usize = 0;
    while k < lines.len()
        invariant
            k <= lines@.len(),
            lv == help_view(lines@),
            matches <= k,
            filter_upto(lv, needle@, k as int) == (help_view(shown@), match waiting {
                Some(h) => Some(line_view(h)),
                None => None,
            }, matches as nat),
        decreases lines@.len() - k,
    {
        let l = &lines[k];
        let text = text_of(l);
        assert(lv[k as int] == line_view(*l));
        proof {
            reveal_strlit("");
        }
        if !same_text(&text, "") {
            assert(text@.len() != 0) by {
                if text@.len() == 0 {
                    assert(text@ =~= ""@);
                }
            }
            let binding = is_binding_line(l);
            if !binding {
                waiting = Some(copy_line(l));
            }
            let low = to_lowercase(text.as_str());
            if crate::text::contains_str(low.as_str(), needle.as_str()) {
                matches = matches + 1;
                let w = waiting;
                waiting = None;
                match w {
                    Some(h) => {
                        if shown.len() > 0 {
                            push_line(&mut shown, HelpLine::Blank);
                        }
                        push_line(&mut shown, h);
                    },
                    None => {},
                }
                if binding {
                    push_line(&mut shown, copy_line(l));
                }
            }
        } else {
            assert(text@ =~= ""@);
        }
        k = k + 1;
    }
    let mut title = String::from_str(" Help · /");
    title.append(filter);
    title.append(" [");
    let n = decimal_string(matches as u64);
    title.append(n.as_str());
    title.append("] ");
    (shown, title)
}

/// The widest key among the bindings of the first `n` lines.
pub open spec fn widest_key(lines: Seq<HelpLineView>, n: int) -> Option<nat>
    decreases n,
{
    if n <= 0 {
        None
    } else {
        let rest = widest_key(lines, n - 1);
        if lines[n - 1].0 == 3 {
            let w = str_width(lines[n - 1].1) as nat;
            match rest {
                Some(m) => Some(if m < w { w } else { m }),
                None => Some(w),
            }
        } else {
            rest
        }
    }
}

/// The width of help's key column: the widest key (14 when there is none),
/// at most half the room left inside the borders, at least 1.
pub open spec fn help_key_width_of(lines: Seq<HelpLineView>, width: nat) -> nat {
    let w = match widest_key(lines, lines.len() as int) {
        Some(m) => m,
        None => 14,
    };
    let cap: nat = (if width >= 4 { (width - 4) as nat } else { 0nat }) / 2;
    let c: nat = if w < cap { w } else { cap };
    if c < 1 { 1 } else { c }
}

fn key_width_of(l: &HelpLine) -> (r: Option<usize>)
    ensures
        r == (if line_view(*l).0 == 3 { Some(str_width(line_view(*l).1)) } else { None::<usize> }),
{
    match l {
        HelpLine::Binding(k, _) => Some(str_width_of(k.as_str())),
        _ => None,
    }
}

/// The width of help's key column for `lines` in a box `width` wide.
pub fn help_key_width(lines: &Vec<HelpLine>, width: usize) -> (r: usize)
    ensures
        r == help_key_width_of(help_view(lines@), width as nat),
{
    let ghost lv = help_view(lines@);
    let mut widest: Option<usize> = None;
    let mut k: usize = 0;
    while k < lines.len()
        invariant
            k <= lines@.len(),
            lv == help_view(lines@),
            match widest {
                Some(m) => widest_key(lv, k as int) == Some(m as nat),
                None => widest_key(lv, k as int) is None,
            },
        decreases lines@.len() - k,
    {
        assert(lv[k as int] == line_view(lines@[k as int]));
        match key_width_of(&lines[k]) {
            Some(w) => {
                widest = match widest {
                    Some(m) => Some(if m < w { w } else { m }),
                    None => Some(w),
                };
            },
            None => {},
        }
        k = k + 1;
    }
    let w = match widest {
        Some(m) => m,
        None => 14,
    };
    let cap = (if width >= 4 { width - 4 } else { 0 }) / 2;
    let c = if w < cap { w } else { cap };
    if c < 1 { 1 } else { c }
}

/// `s` without its blank lines.
pub open spec fn unblanked(s: Seq<HelpLineView>) -> Seq<HelpLineView>
    decreases s.len(),
{
    if s.len() == 0 {
        Seq::empty()
    } else if s.last().0 == 0 {
        unblanked(s.drop_last())
    } else {
        unblanked(s.drop_last()).push(s.last())
    }
}

/// `idx` shows that `out` is `lines` with some lines left out: each line of
/// `out` is the line of `lines` at the matching index, and the indices
/// strictly increase (so no line of `lines` is shown twice or out of order).
pub open spec fn picks(out: Seq<HelpLineView>, lines: Seq<HelpLineView>, idx: Seq<int>) -> bool {
    &&& idx.len() == out.len()
    &&& forall|k: int| 0 <= k < idx.len() ==> 0 <= #[trigger] idx[k] < lines.len() && out[k] == lines[idx[k]]
    &&& forall|a: int, b: int| 0 <= a < b < idx.len() ==> #[trigger] idx[a] < #[trigger] idx[b]
}

proof fn lemma_picks_push(out: Seq<HelpLineView>, lines: Seq<HelpLineView>, idx: Seq<int>, j: int)
    requires
        picks(out, lines, idx),
        0 <= j < lines.len(),
        forall|k: int| 0 <= k < idx.len() ==> #[trigger] idx[k] < j,
    ensures
        picks(out.push(lines[j]), lines, idx.push(j)),
{
    let o2 = out.push(lines[j]);
    let i2 = idx.push(j);
    assert forall|k: int| 0 <= k < i2.len() implies 0 <= #[trigger] i2[k] < lines.len() && o2[k] == lines[i2[k]] by {
        if k < idx.len() {
            assert(i2[k] == idx[k] && o2[k] == out[k]);
        }
    }
    assert forall|a: int, b: int| 0 <= a < b < i2.len() implies #[trigger] i2[a] < #[trigger] i2[b] by {
        if b < idx.len() {
            assert(i2[a] == idx[a] && i2[b] == idx[b]);
        } else {
            assert(i2[a] == idx[a]);
        }
    }
}

proof fn lemma_unblanked_push(s: Seq<HelpLineView>, x: HelpLineView)
    ensures
        unblanked(s.push(x)) == if x.0 == 0 { unblanked(s) } else { unblanked(s).push(x) },
{
    assert(s.push(x).drop_last() =~= s);
}

proof fn lemma_unblanked_picks(lines: Seq<HelpLineView>, n: int) -> (idx: Seq<int>)
    requires
        0 <= n <= lines.len(),
    ensures
        picks(unblanked(lines.take(n)), lines, idx),
        forall|k: int| 0 <= k < idx.len() ==> #[trigger] idx[k] < n,
    decreases n,
{
    if n == 0 {
        assert(lines.take(0) =~= Seq::<HelpLineView>::empty());
        Seq::empty()
    } else {
        let prev = lemma_unblanked_picks(lines, n - 1);
        assert(lines.take(n) =~= lines.take(n - 1).push(lines[n - 1]));
        lemma_unblanked_push(lines.take(n - 1), lines[n - 1]);
        if lines[n - 1].0 == 0 {
            prev
        } else {
            lemma_picks_push(unblanked(lines.take(n - 1)), lines, prev, n - 1);
            prev.push(n - 1)
        }
    }
}

proof fn lemma_filter_picks(lines: Seq<HelpLineView>, needle: Seq<char>, n: int) -> (r: (Seq<int>, int))
    requires
        0 <= n <= lines.len(),
    ensures
        picks(unblanked(filter_upto(lines, needle, n).0), lines, r.0),
        forall|k: int| 0 <= k < r.0.len() ==> #[trigger] r.0[k] < n,
        filter_upto(lines, needle, n).1 matches Some(h) ==> 0 <= r.1 < n && lines[r.1] == h && forall|k: int|
            0 <= k < r.0.len() ==> #[trigger] r.0[k] < r.1,
    decreases n,
{
    if n == 0 {
        (Seq::empty(), 0)
    } else {
        let (idx, jw) = lemma_filter_picks(lines, needle, n - 1);
        let st = filter_upto(lines, needle, n - 1);
        let l = lines[n - 1];
        let text = line_text(l);
        if text.len() == 0 {
            (idx, jw)
        } else {
            let is_binding = l.0 == 3;
            let waiting = if !is_binding { Some(l) } else { st.1 };
            let jh = if !is_binding { n - 1 } else { jw };
            if occurs_in(lowercase(text), needle) {
                let shown = match waiting {
                    Some(h) => (if st.0.len() > 0 { st.0.push(hl(0, Seq::empty(), Seq::empty())) } else { st.0 }).push(h),
                    None => st.0,
                };
                let idx1 = match waiting {
                    Some(h) => {
                        if st.0.len() > 0 {
                            lemma_unblanked_push(st.0, hl(0, Seq::empty(), Seq::empty()));
                        }
                        let base = if st.0.len() > 0 { st.0.push(hl(0, Seq::empty(), Seq::empty())) } else { st.0 };
                        assert(unblanked(base) == unblanked(st.0));
                        lemma_unblanked_push(base, h);
                        if h.0 == 0 {
                            idx
                        } else {
                            lemma_picks_push(unblanked(st.0), lines, idx, jh);
                            idx.push(jh)
                        }
                    },
                    None => idx,
                };
                assert(picks(unblanked(shown), lines, idx1));
                assert(forall|k: int| 0 <= k < idx1.len() ==> #[trigger] idx1[k] <= jh || idx1[k] < n - 1);
                if is_binding {
                    lemma_unblanked_push(shown, l);
                    assert forall|k: int| 0 <= k < idx1.len() implies #[trigger] idx1[k] < n - 1 by {
                        if waiting is Some && k == idx.len() {
                            assert(idx1[k] == jw);
                        } else {
                            assert(idx1[k] == idx[k]);
                        }
                    }
                    lemma_picks_push(unblanked(shown), lines, idx1, n - 1);
                    (idx1.push(n - 1), 0)
                } else {
                    assert forall|k: int| 0 <= k < idx1.len() implies #[trigger] idx1[k] < n by {
                        if k < idx.len() {
                            assert(idx1[k] == idx[k]);
                        }
                    }
                    (idx1, 0)
                }
            } else {
                (idx, jh)
            }
        }
    }
}

/// The filtered help shows each line of the help at most once and in the
/// help's order: leaving out the blank separator lines, what it shows is
/// the help with some lines left out. So a section's heading stands once,
/// before the first of its matching bindings, and no heading or blank line
/// comes between two bindings shown from one section.
pub proof fn law_filtered_help_picks_lines_in_order(lines: Seq<HelpLineView>, filter: Seq<char>)
    ensures
        exists|idx: Seq<int>| picks(unblanked(filtered_help(lines, filter).0), lines, idx),
{
    let needle = lowercase(filter);
    if needle.len() == 0 {
        let idx = lemma_unblanked_picks(lines, lines.len() as int);
        assert(lines.take(lines.len() as int) =~= lines);
        assert(picks(unblanked(filtered_help(lines, filter).0), lines, idx));
    } else {
        let r = lemma_filter_picks(lines, needle, lines.len() as int);
        assert(picks(unblanked(filtered_help(lines, filter).0), lines, r.0));
    }
}

/// Whether help line `l` matches the (lower-cased) search `needle`.
pub open spec fn line_matches(l: HelpLineView, needle: Seq<char>) -> bool {
    line_text(l).len() > 0 && occurs_in(lowercase(line_text(l)), needle)
}

/// How many of the first `n` help lines match `needle`.
pub open spec fn match_count(lines: Seq<HelpLineView>, needle: Seq<char>, n: int) -> nat
    decreases n,
{
    if n <= 0 {
        0
    } else {
        match_count(lines, needle, n - 1) + if line_matches(lines[n - 1], needle) { 1nat } else { 0nat }
    }
}

proof fn lemma_filter_shows_matches(lines: Seq<HelpLineView>, needle: Seq<char>, n: int)
    requires
        0 <= n <= lines.len(),
    ensures
        ({
            let st = filter_upto(lines, needle, n);
            &&& st.2 == match_count(lines, needle, n)
            &&& forall|k: int| 0 <= k < st.0.len() && (#[trigger] st.0[k]).0 == 3 ==> line_matches(st.0[k], needle)
            &&& forall|j: int| 0 <= j < n && (#[trigger] lines[j]).0 == 3 && line_matches(lines[j], needle) ==> st.0.contains(lines[j])
            &&& st.1 matches Some(h) ==> h.0 != 3
        }),
    decreases n,
{
    if n > 0 {
        lemma_filter_shows_matches(lines, needle, n - 1);
        let st = filter_upto(lines, needle, n - 1);
        let nx = filter_upto(lines, needle, n);
        let l = lines[n - 1];
        assert(nx == filter_step(st, l, needle));
        assert forall|j: int| 0 <= j < n && (#[trigger] lines[j]).0 == 3 && line_matches(lines[j], needle) implies nx.0.contains(lines[j]) by {
            if j < n - 1 {
                assert(st.0.contains(lines[j]));
                let k = choose|k: int| 0 <= k < st.0.len() && st.0[k] == lines[j];
                let is_binding = l.0 == 3;
                let waiting = if !is_binding { Some(l) } else { st.1 };
                if line_text(l).len() > 0 && occurs_in(lowercase(line_text(l)), needle) {
                    let base = if st.0.len() > 0 { st.0.push(hl(0, Seq::empty(), Seq::empty())) } else { st.0 };
                    let shown = match waiting {
                        Some(h) => base.push(h),
                        None => st.0,
                    };
                    assert(base[k] == st.0[k]);
                    assert(shown[k] == st.0[k]);
                    if is_binding {
                        assert(shown.push(l)[k] == st.0[k]);
                    }
                    assert(nx.0[k] == lines[j]);
                } else {
                    assert(nx.0 == st.0);
                }
            } else {
                let waiting = st.1;
                let base = if st.0.len() > 0 { st.0.push(hl(0, Seq::empty(), Seq::empty())) } else { st.0 };
                let shown = match waiting {
                    Some(h) => base.push(h),
                    None => st.0,
                };
                assert(nx.0 == shown.push(l));
                assert(nx.0[shown.len() as int] == l);
            }
        }
        assert forall|k: int| 0 <= k < nx.0.len() && (#[trigger] nx.0[k]).0 == 3 implies line_matches(nx.0[k], needle) by {
            if k < st.0.len() && nx.0[k] == st.0[k] {
            } else if line_text(l).len() > 0 && occurs_in(lowercase(line_text(l)), needle) {
                let is_binding = l.0 == 3;
                let waiting = if !is_binding { Some(l) } else { st.1 };
                let base = if st.0.len() > 0 { st.0.push(hl(0, Seq::empty(), Seq::empty())) } else { st.0 };
                let shown = match waiting {
                    Some(h) => base.push(h),
                    None => st.0,
                };
                assert forall|m: int| 0 <= m < st.0.len() implies shown[m] == st.0[m] by {
                    assert(base[m] == st.0[m]);
                }
                if is_binding {
                    assert(nx.0 == shown.push(l));
                } else {
                    assert(nx.0 == shown);
                }
            } else {
                assert(nx.0 == st.0);
            }
        }
    }
}

/// A search of the help shows only bindings that match it (their text
/// contains the lower-cased search), shows every binding that matches, and
/// its title counts the help lines that match.
pub proof fn law_help_search_shows_the_matching_bindings(lines: Seq<HelpLineView>, filter: Seq<char>)
    requires
        lowercase(filter).len() > 0,
    ensures
        forall|k: int|
            0 <= k < filtered_help(lines, filter).0.len() && (#[trigger] filtered_help(lines, filter).0[k]).0 == 3
                ==> line_matches(filtered_help(lines, filter).0[k], lowercase(filter)),
        forall|j: int|
            0 <= j < lines.len() && (#[trigger] lines[j]).0 == 3 && line_matches(lines[j], lowercase(filter))
                ==> filtered_help(lines, filter).0.contains(lines[j]),
        filtered_help(lines, filter).1 == " Help · /"@ + filter + " ["@ + decimal(
            match_count(lines, lowercase(filter), lines.len() as int),
        ) + "] "@,
{
    lemma_filter_shows_matches(lines, lowercase(filter), lines.len() as int);
}

} // verus!
