//! Built-in actions and the keys bound to them in each scope (a screen or
//! an input mode), with the defaults and the rules by which configuration
//! overrides them.

use crate::config::{push_text, same_text, texts};
use crate::keys::{
    chord_error, chord_identity, chord_label, chord_of, chords_overlap, overlaps, press_identity, KeyChord,
    KeyCode, KeyPress,
};
use vstd::prelude::*;
use vstd::string::StringExecFns;

verus! {

/// A built-in action that keys can be bound to. Actions order as they are
/// declared here: a scope lists its bindings in this order.
#[derive(Clone, Copy, Debug, PartialEq, Eq, Structural, PartialOrd, Ord, Hash)]
pub enum Action {
    Accept,
    ActionMenu,
    Adjacent,
    AllNamespaces,
    Anchor0,
    Anchor1,
    Anchor2,
    Anchor3,
    Anchor4,
    Anchor5,
    Attach,
    AutoRefresh,
    ResetBaseline,
    Back,
    Backspace,
    Cascade,
    Clear,
    ClearLine,
    Close,
    Command,
    Compact,
    Complete,
    Copy,
    CopyCell,
    CopyName,
    Cordon,
    Debug,
    DecodeSecret,
    Delete,
    DeleteWord,
    Describe,
    DiscoverChildren,
    Down,
    Drain,
    Edit,
    Events,
    Exit,
    Explain,
    Faults,
    FavoriteNamespace1,
    FavoriteNamespace2,
    FavoriteNamespace3,
    FavoriteNamespace4,
    FavoriteNamespace5,
    FavoriteNamespace6,
    FavoriteNamespace7,
    FavoriteNamespace8,
    FavoriteNamespace9,
    Filter,
    First,
    FleetMark,
    Follow,
    Force,
    ForceDelete,
    Fullscreen,
    Help,
    HistoryBack,
    HistoryForward,
    Inspect,
    InvertSort,
    Last,
    Left,
    Logs,
    LogWarnings,
    LogMarker,
    Lookback,
    Mark,
    RangeDown,
    RangeUp,
    Namespaces,
    NamespaceSelected,
    NextMatch,
    NextView,
    Node,
    Open,
    Owner,
    PageDown,
    PageUp,
    Parent,
    PluginActivity,
    PortForward,
    PreviousLogs,
    PreviousMatch,
    PreviousView,
    ProviderLogs,
    Quit,
    Refresh,
    Rename,
    RestartOrRefresh,
    Right,
    Save,
    SetImage,
    Shell,
    ShellOrScale,
    Sort,
    SortAge,
    Start,
    Stream,
    SwitchPane,
    Timeline,
    Json,
    Timestamps,
    Toggle,
    Transfer,
    Uncordon,
    Up,
    Wide,
    Wrap,
    Yaml,
}

/// The place of an action in the declaration order.
pub open spec fn action_rank(a: Action) -> nat {
    match a {
        Action::Accept => 0,
        Action::ActionMenu => 1,
        Action::Adjacent => 2,
        Action::AllNamespaces => 3,
        Action::Anchor0 => 4,
        Action::Anchor1 => 5,
        Action::Anchor2 => 6,
        Action::Anchor3 => 7,
        Action::Anchor4 => 8,
        Action::Anchor5 => 9,
        Action::Attach => 10,
        Action::AutoRefresh => 11,
        Action::ResetBaseline => 12,
        Action::Back => 13,
        Action::Backspace => 14,
        Action::Cascade => 15,
        Action::Clear => 16,
        Action::ClearLine => 17,
        Action::Close => 18,
        Action::Command => 19,
        Action::Compact => 20,
        Action::Complete => 21,
        Action::Copy => 22,
        Action::CopyCell => 23,
        Action::CopyName => 24,
        Action::Cordon => 25,
        Action::Debug => 26,
        Action::DecodeSecret => 27,
        Action::Delete => 28,
        Action::DeleteWord => 29,
        Action::Describe => 30,
        Action::DiscoverChildren => 31,
        Action::Down => 32,
        Action::Drain => 33,
        Action::Edit => 34,
        Action::Events => 35,
        Action::Exit => 36,
        Action::Explain => 37,
        Action::Faults => 38,
        Action::FavoriteNamespace1 => 39,
        Action::FavoriteNamespace2 => 40,
        Action::FavoriteNamespace3 => 41,
        Action::FavoriteNamespace4 => 42,
        Action::FavoriteNamespace5 => 43,
        Action::FavoriteNamespace6 => 44,
        Action::FavoriteNamespace7 => 45,
        Action::FavoriteNamespace8 => 46,
        Action::FavoriteNamespace9 => 47,
        Action::Filter => 48,
        Action::First => 49,
        Action::FleetMark => 50,
        Action::Follow => 51,
        Action::Force => 52,
        Action::ForceDelete => 53,
        Action::Fullscreen => 54,
        Action::Help => 55,
        Action::HistoryBack => 56,
        Action::HistoryForward => 57,
        Action::Inspect => 58,
        Action::InvertSort => 59,
        Action::Last => 60,
        Action::Left => 61,
        Action::Logs => 62,
        Action::LogWarnings => 63,
        Action::LogMarker => 64,
        Action::Lookback => 65,
        Action::Mark => 66,
        Action::RangeDown => 67,
        Action::RangeUp => 68,
        Action::Namespaces => 69,
        Action::NamespaceSelected => 70,
        Action::NextMatch => 71,
        Action::NextView => 72,
        Action::Node => 73,
        Action::Open => 74,
        Action::Owner => 75,
        Action::PageDown => 76,
        Action::PageUp => 77,
        Action::Parent => 78,
        Action::PluginActivity => 79,
        Action::PortForward => 80,
        Action::PreviousLogs => 81,
        Action::PreviousMatch => 82,
        Action::PreviousView => 83,
        Action::ProviderLogs => 84,
        Action::Quit => 85,
        Action::Refresh => 86,
        Action::Rename => 87,
        Action::RestartOrRefresh => 88,
        Action::Right => 89,
        Action::Save => 90,
        Action::SetImage => 91,
        Action::Shell => 92,
        Action::ShellOrScale => 93,
        Action::Sort => 94,
        Action::SortAge => 95,
        Action::Start => 96,
        Action::Stream => 97,
        Action::SwitchPane => 98,
        Action::Timeline => 99,
        Action::Json => 100,
        Action::Timestamps => 101,
        Action::Toggle => 102,
        Action::Transfer => 103,
        Action::Uncordon => 104,
        Action::Up => 105,
        Action::Wide => 106,
        Action::Wrap => 107,
        Action::Yaml => 108,
    }
}

/// The name configuration uses for an action.
pub open spec fn action_name(a: Action) -> Seq<char> {
    match a {
        Action::Accept => "accept"@,
        Action::ActionMenu => "action_menu"@,
        Action::Adjacent => "adjacent"@,
        Action::AllNamespaces => "all_namespaces"@,
        Action::Anchor0 => "anchor_0"@,
        Action::Anchor1 => "anchor_1"@,
        Action::Anchor2 => "anchor_2"@,
        Action::Anchor3 => "anchor_3"@,
        Action::Anchor4 => "anchor_4"@,
        Action::Anchor5 => "anchor_5"@,
        Action::Attach => "attach"@,
        Action::AutoRefresh => "auto_refresh"@,
        Action::ResetBaseline => "reset_baseline"@,
        Action::Back => "back"@,
        Action::Backspace => "backspace"@,
        Action::Cascade => "cascade"@,
        Action::Clear => "clear"@,
        Action::ClearLine => "clear_line"@,
        Action::Close => "close"@,
        Action::Command => "command"@,
        Action::Compact => "compact"@,
        Action::Complete => "complete"@,
        Action::Copy => "copy"@,
        Action::CopyCell => "copy_cell"@,
        Action::CopyName => "copy_name"@,
        Action::Cordon => "cordon"@,
        Action::Debug => "debug"@,
        Action::DecodeSecret => "decode_secret"@,
        Action::Delete => "delete"@,
        Action::DeleteWord => "delete_word"@,
        Action::Describe => "describe"@,
        Action::DiscoverChildren => "discover_children"@,
        Action::Down => "down"@,
        Action::Drain => "drain"@,
        Action::Edit => "edit"@,
        Action::Events => "events"@,
        Action::Exit => "exit"@,
        Action::Explain => "explain"@,
        Action::Faults => "faults"@,
        Action::FavoriteNamespace1 => "favorite_namespace_1"@,
        Action::FavoriteNamespace2 => "favorite_namespace_2"@,
        Action::FavoriteNamespace3 => "favorite_namespace_3"@,
        Action::FavoriteNamespace4 => "favorite_namespace_4"@,
        Action::FavoriteNamespace5 => "favorite_namespace_5"@,
        Action::FavoriteNamespace6 => "favorite_namespace_6"@,
        Action::FavoriteNamespace7 => "favorite_namespace_7"@,
        Action::FavoriteNamespace8 => "favorite_namespace_8"@,
        Action::FavoriteNamespace9 => "favorite_namespace_9"@,
        Action::Filter => "filter"@,
        Action::First => "first"@,
        Action::FleetMark => "fleet_mark"@,
        Action::Follow => "follow"@,
        Action::Force => "force"@,
        Action::ForceDelete => "force_delete"@,
        Action::Fullscreen => "fullscreen"@,
        Action::Help => "help"@,
        Action::HistoryBack => "history_back"@,
        Action::HistoryForward => "history_forward"@,
        Action::Inspect => "inspect"@,
        Action::InvertSort => "invert_sort"@,
        Action::Last => "last"@,
        Action::Left => "left"@,
        Action::Logs => "logs"@,
        Action::LogWarnings => "log_warnings"@,
        Action::LogMarker => "log_marker"@,
        Action::Lookback => "lookback"@,
        Action::Mark => "mark"@,
        Action::RangeDown => "range_down"@,
        Action::RangeUp => "range_up"@,
        Action::Namespaces => "namespaces"@,
        Action::NamespaceSelected => "namespace_selected"@,
        Action::NextMatch => "next_match"@,
        Action::NextView => "next_view"@,
        Action::Node => "node"@,
        Action::Open => "open"@,
        Action::Owner => "owner"@,
        Action::PageDown => "page_down"@,
        Action::PageUp => "page_up"@,
        Action::Parent => "parent"@,
        Action::PluginActivity => "plugin_activity"@,
        Action::PortForward => "port_forward"@,
        Action::PreviousLogs => "previous_logs"@,
        Action::PreviousMatch => "previous_match"@,
        Action::PreviousView => "previous_view"@,
        Action::ProviderLogs => "provider_logs"@,
        Action::Quit => "quit"@,
        Action::Refresh => "refresh"@,
        Action::Rename => "rename"@,
        Action::RestartOrRefresh => "restart_or_refresh"@,
        Action::Right => "right"@,
        Action::Save => "save"@,
        Action::SetImage => "set_image"@,
        Action::Shell => "shell"@,
        Action::ShellOrScale => "shell_or_scale"@,
        Action::Sort => "sort"@,
        Action::SortAge => "sort_age"@,
        Action::Start => "start"@,
        Action::Stream => "stream"@,
        Action::SwitchPane => "switch_pane"@,
        Action::Timeline => "timeline"@,
        Action::Json => "json"@,
        Action::Timestamps => "timestamps"@,
        Action::Toggle => "toggle"@,
        Action::Transfer => "transfer"@,
        Action::Uncordon => "uncordon"@,
        Action::Up => "up"@,
        Action::Wide => "wide"@,
        Action::Wrap => "wrap"@,
        Action::Yaml => "yaml"@,
    }
}

/// What help says an action does.
pub open spec fn action_description(a: Action) -> Seq<char> {
    match a {
        Action::Accept => "accept selection or input"@,
        Action::ActionMenu => "resource action menu"@,
        Action::Adjacent => "adjacent"@,
        Action::AllNamespaces => "all namespaces"@,
        Action::Anchor0 => "tail logs"@,
        Action::Anchor1 => "logs from last minute"@,
        Action::Anchor2 => "logs from last 5 minutes"@,
        Action::Anchor3 => "logs from last 15 minutes"@,
        Action::Anchor4 => "logs from last 30 minutes"@,
        Action::Anchor5 => "logs from last hour"@,
        Action::Attach => "attach"@,
        Action::AutoRefresh => "toggle automatic refresh"@,
        Action::ResetBaseline => "reset diff baseline to displayed resource"@,
        Action::Back => "back or clear search"@,
        Action::Backspace => "backspace"@,
        Action::Cascade => "cascade"@,
        Action::Clear => "clear"@,
        Action::ClearLine => "clear line"@,
        Action::Close => "close view"@,
        Action::Command => "command palette"@,
        Action::Compact => "toggle compact mode"@,
        Action::Complete => "fill the highlighted suggestion"@,
        Action::Copy => "copy"@,
        Action::CopyCell => "copy cell"@,
        Action::CopyName => "copy name"@,
        Action::Cordon => "cordon"@,
        Action::Debug => "debug"@,
        Action::DecodeSecret => "decode secret"@,
        Action::Delete => "delete"@,
        Action::DeleteWord => "delete word"@,
        Action::Describe => "describe"@,
        Action::DiscoverChildren => "discover children"@,
        Action::Down => "down"@,
        Action::Drain => "drain"@,
        Action::Edit => "edit"@,
        Action::Events => "events"@,
        Action::Exit => "quit from table"@,
        Action::Explain => "explain"@,
        Action::Faults => "faults"@,
        Action::FavoriteNamespace1 => "select configured favourite namespace 1"@,
        Action::FavoriteNamespace2 => "select configured favourite namespace 2"@,
        Action::FavoriteNamespace3 => "select configured favourite namespace 3"@,
        Action::FavoriteNamespace4 => "select configured favourite namespace 4"@,
        Action::FavoriteNamespace5 => "select configured favourite namespace 5"@,
        Action::FavoriteNamespace6 => "select configured favourite namespace 6"@,
        Action::FavoriteNamespace7 => "select configured favourite namespace 7"@,
        Action::FavoriteNamespace8 => "select configured favourite namespace 8"@,
        Action::FavoriteNamespace9 => "select configured favourite namespace 9"@,
        Action::Filter => "filter"@,
        Action::First => "first row"@,
        Action::FleetMark => "fleet mark"@,
        Action::Follow => "follow"@,
        Action::Force => "force"@,
        Action::ForceDelete => "force delete"@,
        Action::Fullscreen => "fullscreen"@,
        Action::Help => "help"@,
        Action::HistoryBack => "history back"@,
        Action::HistoryForward => "history forward"@,
        Action::Inspect => "decode secret or browse PVC"@,
        Action::InvertSort => "invert sort"@,
        Action::Last => "last row"@,
        Action::Left => "left"@,
        Action::Logs => "logs"@,
        Action::LogWarnings => "toggle warning and error logs"@,
        Action::LogMarker => "add visual log marker"@,
        Action::Lookback => "lookback"@,
        Action::Mark => "mark"@,
        Action::RangeDown => "extend or reduce selection down"@,
        Action::RangeUp => "extend or reduce selection up"@,
        Action::Namespaces => "namespaces"@,
        Action::NamespaceSelected => "selected resource namespace"@,
        Action::NextMatch => "next match"@,
        Action::NextView => "next view"@,
        Action::Node => "node"@,
        Action::Open => "open selection"@,
        Action::Owner => "owner"@,
        Action::PageDown => "page down"@,
        Action::PageUp => "page up"@,
        Action::Parent => "parent"@,
        Action::PluginActivity => "toggle plugin activity popup"@,
        Action::PortForward => "port forward"@,
        Action::PreviousLogs => "previous logs"@,
        Action::PreviousMatch => "previous match"@,
        Action::PreviousView => "previous view"@,
        Action::ProviderLogs => "provider logs"@,
        Action::Quit => "quit"@,
        Action::Refresh => "refresh"@,
        Action::Rename => "rename"@,
        Action::RestartOrRefresh => "restart, sync, rollback, or refresh"@,
        Action::Right => "right"@,
        Action::Save => "save"@,
        Action::SetImage => "set image"@,
        Action::Shell => "shell"@,
        Action::ShellOrScale => "shell or scale through /scale"@,
        Action::Sort => "sort"@,
        Action::SortAge => "sort by age; repeat to invert"@,
        Action::Start => "start"@,
        Action::Stream => "stream"@,
        Action::SwitchPane => "switch pane"@,
        Action::Timeline => "timeline"@,
        Action::Json => "JSON formatting"@,
        Action::Timestamps => "timestamps"@,
        Action::Toggle => "toggle"@,
        Action::Transfer => "transfer"@,
        Action::Uncordon => "uncordon"@,
        Action::Up => "up"@,
        Action::Wide => "wide"@,
        Action::Wrap => "wrap"@,
        Action::Yaml => "yaml"@,
    }
}

impl Action {
    /// The place of this action in the declaration order.
    pub fn rank(self) -> (r: u8)
        ensures
            r == action_rank(self),
    {
        match self {
            Action::Accept => 0,
            Action::ActionMenu => 1,
            Action::Adjacent => 2,
            Action::AllNamespaces => 3,
            Action::Anchor0 => 4,
            Action::Anchor1 => 5,
            Action::Anchor2 => 6,
            Action::Anchor3 => 7,
            Action::Anchor4 => 8,
            Action::Anchor5 => 9,
            Action::Attach => 10,
            Action::AutoRefresh => 11,
            Action::ResetBaseline => 12,
            Action::Back => 13,
            Action::Backspace => 14,
            Action::Cascade => 15,
            Action::Clear => 16,
            Action::ClearLine => 17,
            Action::Close => 18,
            Action::Command => 19,
            Action::Compact => 20,
            Action::Complete => 21,
            Action::Copy => 22,
            Action::CopyCell => 23,
            Action::CopyName => 24,
            Action::Cordon => 25,
            Action::Debug => 26,
            Action::DecodeSecret => 27,
            Action::Delete => 28,
            Action::DeleteWord => 29,
            Action::Describe => 30,
            Action::DiscoverChildren => 31,
            Action::Down => 32,
            Action::Drain => 33,
            Action::Edit => 34,
            Action::Events => 35,
            Action::Exit => 36,
            Action::Explain => 37,
            Action::Faults => 38,
            Action::FavoriteNamespace1 => 39,
            Action::FavoriteNamespace2 => 40,
            Action::FavoriteNamespace3 => 41,
            Action::FavoriteNamespace4 => 42,
            Action::FavoriteNamespace5 => 43,
            Action::FavoriteNamespace6 => 44,
            Action::FavoriteNamespace7 => 45,
            Action::FavoriteNamespace8 => 46,
            Action::FavoriteNamespace9 => 47,
            Action::Filter => 48,
            Action::First => 49,
            Action::FleetMark => 50,
            Action::Follow => 51,
            Action::Force => 52,
            Action::ForceDelete => 53,
            Action::Fullscreen => 54,
            Action::Help => 55,
            Action::HistoryBack => 56,
            Action::HistoryForward => 57,
            Action::Inspect => 58,
            Action::InvertSort => 59,
            Action::Last => 60,
            Action::Left => 61,
            Action::Logs => 62,
            Action::LogWarnings => 63,
            Action::LogMarker => 64,
            Action::Lookback => 65,
            Action::Mark => 66,
            Action::RangeDown => 67,
            Action::RangeUp => 68,
            Action::Namespaces => 69,
            Action::NamespaceSelected => 70,
            Action::NextMatch => 71,
            Action::NextView => 72,
            Action::Node => 73,
            Action::Open => 74,
            Action::Owner => 75,
            Action::PageDown => 76,
            Action::PageUp => 77,
            Action::Parent => 78,
            Action::PluginActivity => 79,
            Action::PortForward => 80,
            Action::PreviousLogs => 81,
            Action::PreviousMatch => 82,
            Action::PreviousView => 83,
            Action::ProviderLogs => 84,
            Action::Quit => 85,
            Action::Refresh => 86,
            Action::Rename => 87,
            Action::RestartOrRefresh => 88,
            Action::Right => 89,
            Action::Save => 90,
            Action::SetImage => 91,
            Action::Shell => 92,
            Action::ShellOrScale => 93,
            Action::Sort => 94,
            Action::SortAge => 95,
            Action::Start => 96,
            Action::Stream => 97,
            Action::SwitchPane => 98,
            Action::Timeline => 99,
            Action::Json => 100,
            Action::Timestamps => 101,
            Action::Toggle => 102,
            Action::Transfer => 103,
            Action::Uncordon => 104,
            Action::Up => 105,
            Action::Wide => 106,
            Action::Wrap => 107,
            Action::Yaml => 108,
        }
    }

    /// The name configuration uses for this action.
    pub fn name(self) -> (r: &'static str)
        ensures
            r@ == action_name(self),
    {
        match self {
            Action::Accept => "accept",
            Action::ActionMenu => "action_menu",
            Action::Adjacent => "adjacent",
            Action::AllNamespaces => "all_namespaces",
            Action::Anchor0 => "anchor_0",
            Action::Anchor1 => "anchor_1",
            Action::Anchor2 => "anchor_2",
            Action::Anchor3 => "anchor_3",
            Action::Anchor4 => "anchor_4",
            Action::Anchor5 => "anchor_5",
            Action::Attach => "attach",
            Action::AutoRefresh => "auto_refresh",
            Action::ResetBaseline => "reset_baseline",
            Action::Back => "back",
            Action::Backspace => "backspace",
            Action::Cascade => "cascade",
            Action::Clear => "clear",
            Action::ClearLine => "clear_line",
            Action::Close => "close",
            Action::Command => "command",
            Action::Compact => "compact",
            Action::Complete => "complete",
            Action::Copy => "copy",
            Action::CopyCell => "copy_cell",
            Action::CopyName => "copy_name",
            Action::Cordon => "cordon",
            Action::Debug => "debug",
            Action::DecodeSecret => "decode_secret",
            Action::Delete => "delete",
            Action::DeleteWord => "delete_word",
            Action::Describe => "describe",
            Action::DiscoverChildren => "discover_children",
            Action::Down => "down",
            Action::Drain => "drain",
            Action::Edit => "edit",
            Action::Events => "events",
            Action::Exit => "exit",
            Action::Explain => "explain",
            Action::Faults => "faults",
            Action::FavoriteNamespace1 => "favorite_namespace_1",
            Action::FavoriteNamespace2 => "favorite_namespace_2",
            Action::FavoriteNamespace3 => "favorite_namespace_3",
            Action::FavoriteNamespace4 => "favorite_namespace_4",
            Action::FavoriteNamespace5 => "favorite_namespace_5",
            Action::FavoriteNamespace6 => "favorite_namespace_6",
            Action::FavoriteNamespace7 => "favorite_namespace_7",
            Action::FavoriteNamespace8 => "favorite_namespace_8",
            Action::FavoriteNamespace9 => "favorite_namespace_9",
            Action::Filter => "filter",
            Action::First => "first",
            Action::FleetMark => "fleet_mark",
            Action::Follow => "follow",
            Action::Force => "force",
            Action::ForceDelete => "force_delete",
            Action::Fullscreen => "fullscreen",
            Action::Help => "help",
            Action::HistoryBack => "history_back",
            Action::HistoryForward => "history_forward",
            Action::Inspect => "inspect",
            Action::InvertSort => "invert_sort",
            Action::Last => "last",
            Action::Left => "left",
            Action::Logs => "logs",
            Action::LogWarnings => "log_warnings",
            Action::LogMarker => "log_marker",
            Action::Lookback => "lookback",
            Action::Mark => "mark",
            Action::RangeDown => "range_down",
            Action::RangeUp => "range_up",
            Action::Namespaces => "namespaces",
            Action::NamespaceSelected => "namespace_selected",
            Action::NextMatch => "next_match",
            Action::NextView => "next_view",
            Action::Node => "node",
            Action::Open => "open",
            Action::Owner => "owner",
            Action::PageDown => "page_down",
            Action::PageUp => "page_up",
            Action::Parent => "parent",
            Action::PluginActivity => "plugin_activity",
            Action::PortForward => "port_forward",
            Action::PreviousLogs => "previous_logs",
            Action::PreviousMatch => "previous_match",
            Action::PreviousView => "previous_view",
            Action::ProviderLogs => "provider_logs",
            Action::Quit => "quit",
            Action::Refresh => "refresh",
            Action::Rename => "rename",
            Action::RestartOrRefresh => "restart_or_refresh",
            Action::Right => "right",
            Action::Save => "save",
            Action::SetImage => "set_image",
            Action::Shell => "shell",
            Action::ShellOrScale => "shell_or_scale",
            Action::Sort => "sort",
            Action::SortAge => "sort_age",
            Action::Start => "start",
            Action::Stream => "stream",
            Action::SwitchPane => "switch_pane",
            Action::Timeline => "timeline",
            Action::Json => "json",
            Action::Timestamps => "timestamps",
            Action::Toggle => "toggle",
            Action::Transfer => "transfer",
            Action::Uncordon => "uncordon",
            Action::Up => "up",
            Action::Wide => "wide",
            Action::Wrap => "wrap",
            Action::Yaml => "yaml",
        }
    }

    /// What help says this action does.
    pub fn description(self) -> (r: &'static str)
        ensures
            r@ == action_description(self),
    {
        match self {
            Action::Accept => "accept selection or input",
            Action::ActionMenu => "resource action menu",
            Action::Adjacent => "adjacent",
            Action::AllNamespaces => "all namespaces",
            Action::Anchor0 => "tail logs",
            Action::Anchor1 => "logs from last minute",
            Action::Anchor2 => "logs from last 5 minutes",
            Action::Anchor3 => "logs from last 15 minutes",
            Action::Anchor4 => "logs from last 30 minutes",
            Action::Anchor5 => "logs from last hour",
            Action::Attach => "attach",
            Action::AutoRefresh => "toggle automatic refresh",
            Action::ResetBaseline => "reset diff baseline to displayed resource",
            Action::Back => "back or clear search",
            Action::Backspace => "backspace",
            Action::Cascade => "cascade",
            Action::Clear => "clear",
            Action::ClearLine => "clear line",
            Action::Close => "close view",
            Action::Command => "command palette",
            Action::Compact => "toggle compact mode",
            Action::Complete => "fill the highlighted suggestion",
            Action::Copy => "copy",
            Action::CopyCell => "copy cell",
            Action::CopyName => "copy name",
            Action::Cordon => "cordon",
            Action::Debug => "debug",
            Action::DecodeSecret => "decode secret",
            Action::Delete => "delete",
            Action::DeleteWord => "delete word",
            Action::Describe => "describe",
            Action::DiscoverChildren => "discover children",
            Action::Down => "down",
            Action::Drain => "drain",
            Action::Edit => "edit",
            Action::Events => "events",
            Action::Exit => "quit from table",
            Action::Explain => "explain",
            Action::Faults => "faults",
            Action::FavoriteNamespace1 => "select configured favourite namespace 1",
            Action::FavoriteNamespace2 => "select configured favourite namespace 2",
            Action::FavoriteNamespace3 => "select configured favourite namespace 3",
            Action::FavoriteNamespace4 => "select configured favourite namespace 4",
            Action::FavoriteNamespace5 => "select configured favourite namespace 5",
            Action::FavoriteNamespace6 => "select configured favourite namespace 6",
            Action::FavoriteNamespace7 => "select configured favourite namespace 7",
            Action::FavoriteNamespace8 => "select configured favourite namespace 8",
            Action::FavoriteNamespace9 => "select configured favourite namespace 9",
            Action::Filter => "filter",
            Action::First => "first row",
            Action::FleetMark => "fleet mark",
            Action::Follow => "follow",
            Action::Force => "force",
            Action::ForceDelete => "force delete",
            Action::Fullscreen => "fullscreen",
            Action::Help => "help",
            Action::HistoryBack => "history back",
            Action::HistoryForward => "history forward",
            Action::Inspect => "decode secret or browse PVC",
            Action::InvertSort => "invert sort",
            Action::Last => "last row",
            Action::Left => "left",
            Action::Logs => "logs",
            Action::LogWarnings => "toggle warning and error logs",
            Action::LogMarker => "add visual log marker",
            Action::Lookback => "lookback",
            Action::Mark => "mark",
            Action::RangeDown => "extend or reduce selection down",
            Action::RangeUp => "extend or reduce selection up",
            Action::Namespaces => "namespaces",
            Action::NamespaceSelected => "selected resource namespace",
            Action::NextMatch => "next match",
            Action::NextView => "next view",
            Action::Node => "node",
            Action::Open => "open selection",
            Action::Owner => "owner",
            Action::PageDown => "page down",
            Action::PageUp => "page up",
            Action::Parent => "parent",
            Action::PluginActivity => "toggle plugin activity popup",
            Action::PortForward => "port forward",
            Action::PreviousLogs => "previous logs",
            Action::PreviousMatch => "previous match",
            Action::PreviousView => "previous view",
            Action::ProviderLogs => "provider logs",
            Action::Quit => "quit",
            Action::Refresh => "refresh",
            Action::Rename => "rename",
            Action::RestartOrRefresh => "restart, sync, rollback, or refresh",
            Action::Right => "right",
            Action::Save => "save",
            Action::SetImage => "set image",
            Action::Shell => "shell",
            Action::ShellOrScale => "shell or scale through /scale",
            Action::Sort => "sort",
            Action::SortAge => "sort by age; repeat to invert",
            Action::Start => "start",
            Action::Stream => "stream",
            Action::SwitchPane => "switch pane",
            Action::Timeline => "timeline",
            Action::Json => "JSON formatting",
            Action::Timestamps => "timestamps",
            Action::Toggle => "toggle",
            Action::Transfer => "transfer",
            Action::Uncordon => "uncordon",
            Action::Up => "up",
            Action::Wide => "wide",
            Action::Wrap => "wrap",
            Action::Yaml => "yaml",
        }
    }
}

/// The texts of `v`.
pub open spec fn strs_view(v: Seq<&'static str>) -> Seq<Seq<char>> {
    v.map_values(|s: &'static str| s@)
}

/// The table kinds a kind-specific action applies to.
pub open spec fn action_kinds(a: Action) -> Option<Seq<Seq<char>>> {
    match a {
        Action::Faults | Action::Attach | Action::PreviousLogs => Some(seq!["pods"@]),
        Action::Inspect => Some(seq!["secrets"@, "persistentvolumeclaims"@]),
        Action::Cordon | Action::Uncordon | Action::Drain => Some(seq!["nodes"@]),
        Action::SetImage => Some(
            seq![
                "pods"@,
                "deployments"@,
                "statefulsets"@,
                "daemonsets"@,
                "replicasets"@,
                "replicationcontrollers"@,
            ],
        ),
        _ => None,
    }
}

/// The time anchor key of a log anchor action.
pub open spec fn action_anchor(a: Action) -> Option<char> {
    match a {
        Action::Anchor0 => Some('0'),
        Action::Anchor1 => Some('1'),
        Action::Anchor2 => Some('2'),
        Action::Anchor3 => Some('3'),
        Action::Anchor4 => Some('4'),
        Action::Anchor5 => Some('5'),
        _ => None,
    }
}

/// The favourite-namespace actions, for favourites 1 to 9 in turn.
pub open spec fn favorite_actions() -> Seq<Action> {
    seq![
        Action::FavoriteNamespace1,
        Action::FavoriteNamespace2,
        Action::FavoriteNamespace3,
        Action::FavoriteNamespace4,
        Action::FavoriteNamespace5,
        Action::FavoriteNamespace6,
        Action::FavoriteNamespace7,
        Action::FavoriteNamespace8,
        Action::FavoriteNamespace9,
    ]
}

impl Action {
    /// The key of the log time anchor this action stands for.
    pub fn log_anchor(self) -> (r: Option<char>)
        ensures
            r == action_anchor(self),
    {
        match self {
            Action::Anchor0 => Some('0'),
            Action::Anchor1 => Some('1'),
            Action::Anchor2 => Some('2'),
            Action::Anchor3 => Some('3'),
            Action::Anchor4 => Some('4'),
            Action::Anchor5 => Some('5'),
            _ => None,
        }
    }

    /// The table kinds a kind-specific action applies to. On any other kind
    /// its key goes to bookmarks, workspaces, and plugins first.
    pub fn kinds(self) -> (r: Option<Vec<&'static str>>)
        ensures
            match r {
                Some(v) => action_kinds(self) == Some(strs_view(v@)),
                None => action_kinds(self) is None,
            },
    {
        let r = match self {
            Action::Faults | Action::Attach | Action::PreviousLogs => Some(vec!["pods"]),
            Action::Inspect => Some(vec!["secrets", "persistentvolumeclaims"]),
            Action::Cordon | Action::Uncordon | Action::Drain => Some(vec!["nodes"]),
            Action::SetImage => Some(
                vec![
                    "pods",
                    "deployments",
                    "statefulsets",
                    "daemonsets",
                    "replicasets",
                    "replicationcontrollers",
                ],
            ),
            _ => None,
        };
        proof {
            if r is Some {
                assert(strs_view(r->0@) =~= action_kinds(self).unwrap());
            }
        }
        r
    }

    /// The favourite-namespace actions, for favourites 1 to 9 in turn.
    pub fn favorite_namespaces() -> (r: Vec<Action>)
        ensures
            r@ == favorite_actions(),
    {
        let r = vec![
            Action::FavoriteNamespace1,
            Action::FavoriteNamespace2,
            Action::FavoriteNamespace3,
            Action::FavoriteNamespace4,
            Action::FavoriteNamespace5,
            Action::FavoriteNamespace6,
            Action::FavoriteNamespace7,
            Action::FavoriteNamespace8,
            Action::FavoriteNamespace9,
        ];
        assert(r@ =~= favorite_actions());
        r
    }
}


/// A key without modifiers.
pub open spec fn pk(code: KeyCode) -> KeyChord {
    KeyChord { code, ctrl: false, alt: false, shift: false }
}

/// A key with modifiers.
pub open spec fn mk(code: KeyCode, ctrl: bool, alt: bool, shift: bool) -> KeyChord {
    KeyChord { code, ctrl, alt, shift }
}

fn plain_key(code: KeyCode) -> (r: KeyChord)
    ensures
        r == pk(code),
{
    KeyChord { code, ctrl: false, alt: false, shift: false }
}

fn mod_key(code: KeyCode, ctrl: bool, alt: bool, shift: bool) -> (r: KeyChord)
    ensures
        r == mk(code, ctrl, alt, shift),
{
    KeyChord { code, ctrl, alt, shift }
}

/// The chords of an optional list.
pub open spec fn opt_chords(r: Option<Vec<KeyChord>>) -> Option<Seq<KeyChord>> {
    match r {
        Some(v) => Some(v@),
        None => None,
    }
}

/// A scope: a screen or input mode with bindings of its own. Scopes order
/// by name, as they are declared here.
#[derive(Clone, Copy, Debug, PartialEq, Eq, Structural, PartialOrd, Ord, Hash)]
pub enum Scope {
    Adjacent,
    Argocd,
    Command,
    Confirm,
    Containers,
    ContextFilter,
    Contexts,
    CopyPicker,
    Detail,
    Diff,
    DocFilter,
    Drain,
    Events,
    Explain,
    Filter,
    Find,
    Fleet,
    FluxMenu,
    Gitops,
    Help,
    LogFilter,
    Logs,
    Namespaces,
    PluginForm,
    PortForwardPicker,
    PortForwards,
    Prompt,
    Pulse,
    PvcExplore,
    SetImage,
    Skins,
    Snapshots,
    SortPicker,
    Table,
    Timeline,
    TransferMenu,
    Xray,
}

/// How many scopes there are.
pub const SCOPE_COUNT: usize = 37;

/// How many actions there are.
pub const ACTION_COUNT: usize = 109;

/// The place of a scope in name order.
pub open spec fn scope_rank(s: Scope) -> nat {
    match s {
        Scope::Adjacent => 0,
        Scope::Argocd => 1,
        Scope::Command => 2,
        Scope::Confirm => 3,
        Scope::Containers => 4,
        Scope::ContextFilter => 5,
        Scope::Contexts => 6,
        Scope::CopyPicker => 7,
        Scope::Detail => 8,
        Scope::Diff => 9,
        Scope::DocFilter => 10,
        Scope::Drain => 11,
        Scope::Events => 12,
        Scope::Explain => 13,
        Scope::Filter => 14,
        Scope::Find => 15,
        Scope::Fleet => 16,
        Scope::FluxMenu => 17,
        Scope::Gitops => 18,
        Scope::Help => 19,
        Scope::LogFilter => 20,
        Scope::Logs => 21,
        Scope::Namespaces => 22,
        Scope::PluginForm => 23,
        Scope::PortForwardPicker => 24,
        Scope::PortForwards => 25,
        Scope::Prompt => 26,
        Scope::Pulse => 27,
        Scope::PvcExplore => 28,
        Scope::SetImage => 29,
        Scope::Skins => 30,
        Scope::Snapshots => 31,
        Scope::SortPicker => 32,
        Scope::Table => 33,
        Scope::Timeline => 34,
        Scope::TransferMenu => 35,
        Scope::Xray => 36,
    }
}

/// The name configuration and callers use for a scope.
pub open spec fn scope_name(s: Scope) -> Seq<char> {
    match s {
        Scope::Adjacent => "adjacent"@,
        Scope::Argocd => "argocd"@,
        Scope::Command => "command"@,
        Scope::Confirm => "confirm"@,
        Scope::Containers => "containers"@,
        Scope::ContextFilter => "context_filter"@,
        Scope::Contexts => "contexts"@,
        Scope::CopyPicker => "copy_picker"@,
        Scope::Detail => "detail"@,
        Scope::Diff => "diff"@,
        Scope::DocFilter => "doc_filter"@,
        Scope::Drain => "drain"@,
        Scope::Events => "events"@,
        Scope::Explain => "explain"@,
        Scope::Filter => "filter"@,
        Scope::Find => "find"@,
        Scope::Fleet => "fleet"@,
        Scope::FluxMenu => "flux_menu"@,
        Scope::Gitops => "gitops"@,
        Scope::Help => "help"@,
        Scope::LogFilter => "log_filter"@,
        Scope::Logs => "logs"@,
        Scope::Namespaces => "namespaces"@,
        Scope::PluginForm => "plugin_form"@,
        Scope::PortForwardPicker => "port_forward_picker"@,
        Scope::PortForwards => "port_forwards"@,
        Scope::Prompt => "prompt"@,
        Scope::Pulse => "pulse"@,
        Scope::PvcExplore => "pvc_explore"@,
        Scope::SetImage => "set_image"@,
        Scope::Skins => "skins"@,
        Scope::Snapshots => "snapshots"@,
        Scope::SortPicker => "sort_picker"@,
        Scope::Table => "table"@,
        Scope::Timeline => "timeline"@,
        Scope::TransferMenu => "transfer_menu"@,
        Scope::Xray => "xray"@,
    }
}

/// The scope in place `i` of the name order.
pub open spec fn scope_at(i: nat) -> Scope {
    if i == 0 {
        Scope::Adjacent
    } else if i == 1 {
        Scope::Argocd
    } else if i == 2 {
        Scope::Command
    } else if i == 3 {
        Scope::Confirm
    } else if i == 4 {
        Scope::Containers
    } else if i == 5 {
        Scope::ContextFilter
    } else if i == 6 {
        Scope::Contexts
    } else if i == 7 {
        Scope::CopyPicker
    } else if i == 8 {
        Scope::Detail
    } else if i == 9 {
        Scope::Diff
    } else if i == 10 {
        Scope::DocFilter
    } else if i == 11 {
        Scope::Drain
    } else if i == 12 {
        Scope::Events
    } else if i == 13 {
        Scope::Explain
    } else if i == 14 {
        Scope::Filter
    } else if i == 15 {
        Scope::Find
    } else if i == 16 {
        Scope::Fleet
    } else if i == 17 {
        Scope::FluxMenu
    } else if i == 18 {
        Scope::Gitops
    } else if i == 19 {
        Scope::Help
    } else if i == 20 {
        Scope::LogFilter
    } else if i == 21 {
        Scope::Logs
    } else if i == 22 {
        Scope::Namespaces
    } else if i == 23 {
        Scope::PluginForm
    } else if i == 24 {
        Scope::PortForwardPicker
    } else if i == 25 {
        Scope::PortForwards
    } else if i == 26 {
        Scope::Prompt
    } else if i == 27 {
        Scope::Pulse
    } else if i == 28 {
        Scope::PvcExplore
    } else if i == 29 {
        Scope::SetImage
    } else if i == 30 {
        Scope::Skins
    } else if i == 31 {
        Scope::Snapshots
    } else if i == 32 {
        Scope::SortPicker
    } else if i == 33 {
        Scope::Table
    } else if i == 34 {
        Scope::Timeline
    } else if i == 35 {
        Scope::TransferMenu
    } else {
        Scope::Xray
    }
}

/// The scope that `name` names.
pub open spec fn scope_named(name: Seq<char>) -> Option<Scope> {
    if name == "adjacent"@ {
        Some(Scope::Adjacent)
    } else if name == "argocd"@ {
        Some(Scope::Argocd)
    } else if name == "command"@ {
        Some(Scope::Command)
    } else if name == "confirm"@ {
        Some(Scope::Confirm)
    } else if name == "containers"@ {
        Some(Scope::Containers)
    } else if name == "context_filter"@ {
        Some(Scope::ContextFilter)
    } else if name == "contexts"@ {
        Some(Scope::Contexts)
    } else if name == "copy_picker"@ {
        Some(Scope::CopyPicker)
    } else if name == "detail"@ {
        Some(Scope::Detail)
    } else if name == "diff"@ {
        Some(Scope::Diff)
    } else if name == "doc_filter"@ {
        Some(Scope::DocFilter)
    } else if name == "drain"@ {
        Some(Scope::Drain)
    } else if name == "events"@ {
        Some(Scope::Events)
    } else if name == "explain"@ {
        Some(Scope::Explain)
    } else if name == "filter"@ {
        Some(Scope::Filter)
    } else if name == "find"@ {
        Some(Scope::Find)
    } else if name == "fleet"@ {
        Some(Scope::Fleet)
    } else if name == "flux_menu"@ {
        Some(Scope::FluxMenu)
    } else if name == "gitops"@ {
        Some(Scope::Gitops)
    } else if name == "help"@ {
        Some(Scope::Help)
    } else if name == "log_filter"@ {
        Some(Scope::LogFilter)
    } else if name == "logs"@ {
        Some(Scope::Logs)
    } else if name == "namespaces"@ {
        Some(Scope::Namespaces)
    } else if name == "plugin_form"@ {
        Some(Scope::PluginForm)
    } else if name == "port_forward_picker"@ {
        Some(Scope::PortForwardPicker)
    } else if name == "port_forwards"@ {
        Some(Scope::PortForwards)
    } else if name == "prompt"@ {
        Some(Scope::Prompt)
    } else if name == "pulse"@ {
        Some(Scope::Pulse)
    } else if name == "pvc_explore"@ {
        Some(Scope::PvcExplore)
    } else if name == "set_image"@ {
        Some(Scope::SetImage)
    } else if name == "skins"@ {
        Some(Scope::Skins)
    } else if name == "snapshots"@ {
        Some(Scope::Snapshots)
    } else if name == "sort_picker"@ {
        Some(Scope::SortPicker)
    } else if name == "table"@ {
        Some(Scope::Table)
    } else if name == "timeline"@ {
        Some(Scope::Timeline)
    } else if name == "transfer_menu"@ {
        Some(Scope::TransferMenu)
    } else if name == "xray"@ {
        Some(Scope::Xray)
    } else {
        None
    }
}

/// The action in place `i` of the declaration order.
pub open spec fn action_at(i: nat) -> Action {
    if i == 0 {
        Action::Accept
    } else if i == 1 {
        Action::ActionMenu
    } else if i == 2 {
        Action::Adjacent
    } else if i == 3 {
        Action::AllNamespaces
    } else if i == 4 {
        Action::Anchor0
    } else if i == 5 {
        Action::Anchor1
    } else if i == 6 {
        Action::Anchor2
    } else if i == 7 {
        Action::Anchor3
    } else if i == 8 {
        Action::Anchor4
    } else if i == 9 {
        Action::Anchor5
    } else if i == 10 {
        Action::Attach
    } else if i == 11 {
        Action::AutoRefresh
    } else if i == 12 {
        Action::ResetBaseline
    } else if i == 13 {
        Action::Back
    } else if i == 14 {
        Action::Backspace
    } else if i == 15 {
        Action::Cascade
    } else if i == 16 {
        Action::Clear
    } else if i == 17 {
        Action::ClearLine
    } else if i == 18 {
        Action::Close
    } else if i == 19 {
        Action::Command
    } else if i == 20 {
        Action::Compact
    } else if i == 21 {
        Action::Complete
    } else if i == 22 {
        Action::Copy
    } else if i == 23 {
        Action::CopyCell
    } else if i == 24 {
        Action::CopyName
    } else if i == 25 {
        Action::Cordon
    } else if i == 26 {
        Action::Debug
    } else if i == 27 {
        Action::DecodeSecret
    } else if i == 28 {
        Action::Delete
    } else if i == 29 {
        Action::DeleteWord
    } else if i == 30 {
        Action::Describe
    } else if i == 31 {
        Action::DiscoverChildren
    } else if i == 32 {
        Action::Down
    } else if i == 33 {
        Action::Drain
    } else if i == 34 {
        Action::Edit
    } else if i == 35 {
        Action::Events
    } else if i == 36 {
        Action::Exit
    } else if i == 37 {
        Action::Explain
    } else if i == 38 {
        Action::Faults
    } else if i == 39 {
        Action::FavoriteNamespace1
    } else if i == 40 {
        Action::FavoriteNamespace2
    } else if i == 41 {
        Action::FavoriteNamespace3
    } else if i == 42 {
        Action::FavoriteNamespace4
    } else if i == 43 {
        Action::FavoriteNamespace5
    } else if i == 44 {
        Action::FavoriteNamespace6
    } else if i == 45 {
        Action::FavoriteNamespace7
    } else if i == 46 {
        Action::FavoriteNamespace8
    } else if i == 47 {
        Action::FavoriteNamespace9
    } else if i == 48 {
        Action::Filter
    } else if i == 49 {
        Action::First
    } else if i == 50 {
        Action::FleetMark
    } else if i == 51 {
        Action::Follow
    } else if i == 52 {
        Action::Force
    } else if i == 53 {
        Action::ForceDelete
    } else if i == 54 {
        Action::Fullscreen
    } else if i == 55 {
        Action::Help
    } else if i == 56 {
        Action::HistoryBack
    } else if i == 57 {
        Action::HistoryForward
    } else if i == 58 {
        Action::Inspect
    } else if i == 59 {
        Action::InvertSort
    } else if i == 60 {
        Action::Last
    } else if i == 61 {
        Action::Left
    } else if i == 62 {
        Action::Logs
    } else if i == 63 {
        Action::LogWarnings
    } else if i == 64 {
        Action::LogMarker
    } else if i == 65 {
        Action::Lookback
    } else if i == 66 {
        Action::Mark
    } else if i == 67 {
        Action::RangeDown
    } else if i == 68 {
        Action::RangeUp
    } else if i == 69 {
        Action::Namespaces
    } else if i == 70 {
        Action::NamespaceSelected
    } else if i == 71 {
        Action::NextMatch
    } else if i == 72 {
        Action::NextView
    } else if i == 73 {
        Action::Node
    } else if i == 74 {
        Action::Open
    } else if i == 75 {
        Action::Owner
    } else if i == 76 {
        Action::PageDown
    } else if i == 77 {
        Action::PageUp
    } else if i == 78 {
        Action::Parent
    } else if i == 79 {
        Action::PluginActivity
    } else if i == 80 {
        Action::PortForward
    } else if i == 81 {
        Action::PreviousLogs
    } else if i == 82 {
        Action::PreviousMatch
    } else if i == 83 {
        Action::PreviousView
    } else if i == 84 {
        Action::ProviderLogs
    } else if i == 85 {
        Action::Quit
    } else if i == 86 {
        Action::Refresh
    } else if i == 87 {
        Action::Rename
    } else if i == 88 {
        Action::RestartOrRefresh
    } else if i == 89 {
        Action::Right
    } else if i == 90 {
        Action::Save
    } else if i == 91 {
        Action::SetImage
    } else if i == 92 {
        Action::Shell
    } else if i == 93 {
        Action::ShellOrScale
    } else if i == 94 {
        Action::Sort
    } else if i == 95 {
        Action::SortAge
    } else if i == 96 {
        Action::Start
    } else if i == 97 {
        Action::Stream
    } else if i == 98 {
        Action::SwitchPane
    } else if i == 99 {
        Action::Timeline
    } else if i == 100 {
        Action::Json
    } else if i == 101 {
        Action::Timestamps
    } else if i == 102 {
        Action::Toggle
    } else if i == 103 {
        Action::Transfer
    } else if i == 104 {
        Action::Uncordon
    } else if i == 105 {
        Action::Up
    } else if i == 106 {
        Action::Wide
    } else if i == 107 {
        Action::Wrap
    } else {
        Action::Yaml
    }
}

impl Scope {
    /// The place of this scope in name order.
    pub fn rank(self) -> (r: usize)
        ensures
            r == scope_rank(self),
    {
        match self {
            Scope::Adjacent => 0,
            Scope::Argocd => 1,
            Scope::Command => 2,
            Scope::Confirm => 3,
            Scope::Containers => 4,
            Scope::ContextFilter => 5,
            Scope::Contexts => 6,
            Scope::CopyPicker => 7,
            Scope::Detail => 8,
            Scope::Diff => 9,
            Scope::DocFilter => 10,
            Scope::Drain => 11,
            Scope::Events => 12,
            Scope::Explain => 13,
            Scope::Filter => 14,
            Scope::Find => 15,
            Scope::Fleet => 16,
            Scope::FluxMenu => 17,
            Scope::Gitops => 18,
            Scope::Help => 19,
            Scope::LogFilter => 20,
            Scope::Logs => 21,
            Scope::Namespaces => 22,
            Scope::PluginForm => 23,
            Scope::PortForwardPicker => 24,
            Scope::PortForwards => 25,
            Scope::Prompt => 26,
            Scope::Pulse => 27,
            Scope::PvcExplore => 28,
            Scope::SetImage => 29,
            Scope::Skins => 30,
            Scope::Snapshots => 31,
            Scope::SortPicker => 32,
            Scope::Table => 33,
            Scope::Timeline => 34,
            Scope::TransferMenu => 35,
            Scope::Xray => 36,
        }
    }

    /// The name of this scope.
    pub fn name(self) -> (r: &'static str)
        ensures
            r@ == scope_name(self),
    {
        match self {
            Scope::Adjacent => "adjacent",
            Scope::Argocd => "argocd",
            Scope::Command => "command",
            Scope::Confirm => "confirm",
            Scope::Containers => "containers",
            Scope::ContextFilter => "context_filter",
            Scope::Contexts => "contexts",
            Scope::CopyPicker => "copy_picker",
            Scope::Detail => "detail",
            Scope::Diff => "diff",
            Scope::DocFilter => "doc_filter",
            Scope::Drain => "drain",
            Scope::Events => "events",
            Scope::Explain => "explain",
            Scope::Filter => "filter",
            Scope::Find => "find",
            Scope::Fleet => "fleet",
            Scope::FluxMenu => "flux_menu",
            Scope::Gitops => "gitops",
            Scope::Help => "help",
            Scope::LogFilter => "log_filter",
            Scope::Logs => "logs",
            Scope::Namespaces => "namespaces",
            Scope::PluginForm => "plugin_form",
            Scope::PortForwardPicker => "port_forward_picker",
            Scope::PortForwards => "port_forwards",
            Scope::Prompt => "prompt",
            Scope::Pulse => "pulse",
            Scope::PvcExplore => "pvc_explore",
            Scope::SetImage => "set_image",
            Scope::Skins => "skins",
            Scope::Snapshots => "snapshots",
            Scope::SortPicker => "sort_picker",
            Scope::Table => "table",
            Scope::Timeline => "timeline",
            Scope::TransferMenu => "transfer_menu",
            Scope::Xray => "xray",
        }
    }

    /// The scope in place `i` of the name order.
    pub fn at(i: usize) -> (r: Scope)
        requires
            i < SCOPE_COUNT,
        ensures
            r == scope_at(i as nat),
    {
        match i {
            0 => Scope::Adjacent,
            1 => Scope::Argocd,
            2 => Scope::Command,
            3 => Scope::Confirm,
            4 => Scope::Containers,
            5 => Scope::ContextFilter,
            6 => Scope::Contexts,
            7 => Scope::CopyPicker,
            8 => Scope::Detail,
            9 => Scope::Diff,
            10 => Scope::DocFilter,
            11 => Scope::Drain,
            12 => Scope::Events,
            13 => Scope::Explain,
            14 => Scope::Filter,
            15 => Scope::Find,
            16 => Scope::Fleet,
            17 => Scope::FluxMenu,
            18 => Scope::Gitops,
            19 => Scope::Help,
            20 => Scope::LogFilter,
            21 => Scope::Logs,
            22 => Scope::Namespaces,
            23 => Scope::PluginForm,
            24 => Scope::PortForwardPicker,
            25 => Scope::PortForwards,
            26 => Scope::Prompt,
            27 => Scope::Pulse,
            28 => Scope::PvcExplore,
            29 => Scope::SetImage,
            30 => Scope::Skins,
            31 => Scope::Snapshots,
            32 => Scope::SortPicker,
            33 => Scope::Table,
            34 => Scope::Timeline,
            35 => Scope::TransferMenu,
            _ => Scope::Xray,
        }
    }

    /// The scope `name` names, if any.
    pub fn named(name: &str) -> (r: Option<Scope>)
        ensures
            r == scope_named(name@),
    {
        let n = String::from_str(name);
        if same_text(&n, "adjacent") {
            Some(Scope::Adjacent)
        } else if same_text(&n, "argocd") {
            Some(Scope::Argocd)
        } else if same_text(&n, "command") {
            Some(Scope::Command)
        } else if same_text(&n, "confirm") {
            Some(Scope::Confirm)
        } else if same_text(&n, "containers") {
            Some(Scope::Containers)
        } else if same_text(&n, "context_filter") {
            Some(Scope::ContextFilter)
        } else if same_text(&n, "contexts") {
            Some(Scope::Contexts)
        } else if same_text(&n, "copy_picker") {
            Some(Scope::CopyPicker)
        } else if same_text(&n, "detail") {
            Some(Scope::Detail)
        } else if same_text(&n, "diff") {
            Some(Scope::Diff)
        } else if same_text(&n, "doc_filter") {
            Some(Scope::DocFilter)
        } else if same_text(&n, "drain") {
            Some(Scope::Drain)
        } else if same_text(&n, "events") {
            Some(Scope::Events)
        } else if same_text(&n, "explain") {
            Some(Scope::Explain)
        } else if same_text(&n, "filter") {
            Some(Scope::Filter)
        } else if same_text(&n, "find") {
            Some(Scope::Find)
        } else if same_text(&n, "fleet") {
            Some(Scope::Fleet)
        } else if same_text(&n, "flux_menu") {
            Some(Scope::FluxMenu)
        } else if same_text(&n, "gitops") {
            Some(Scope::Gitops)
        } else if same_text(&n, "help") {
            Some(Scope::Help)
        } else if same_text(&n, "log_filter") {
            Some(Scope::LogFilter)
        } else if same_text(&n, "logs") {
            Some(Scope::Logs)
        } else if same_text(&n, "namespaces") {
            Some(Scope::Namespaces)
        } else if same_text(&n, "plugin_form") {
            Some(Scope::PluginForm)
        } else if same_text(&n, "port_forward_picker") {
            Some(Scope::PortForwardPicker)
        } else if same_text(&n, "port_forwards") {
            Some(Scope::PortForwards)
        } else if same_text(&n, "prompt") {
            Some(Scope::Prompt)
        } else if same_text(&n, "pulse") {
            Some(Scope::Pulse)
        } else if same_text(&n, "pvc_explore") {
            Some(Scope::PvcExplore)
        } else if same_text(&n, "set_image") {
            Some(Scope::SetImage)
        } else if same_text(&n, "skins") {
            Some(Scope::Skins)
        } else if same_text(&n, "snapshots") {
            Some(Scope::Snapshots)
        } else if same_text(&n, "sort_picker") {
            Some(Scope::SortPicker)
        } else if same_text(&n, "table") {
            Some(Scope::Table)
        } else if same_text(&n, "timeline") {
            Some(Scope::Timeline)
        } else if same_text(&n, "transfer_menu") {
            Some(Scope::TransferMenu)
        } else if same_text(&n, "xray") {
            Some(Scope::Xray)
        } else {
            None
        }
    }
}

impl Action {
    /// The action in place `i` of the declaration order.
    pub fn at(i: usize) -> (r: Action)
        requires
            i < ACTION_COUNT,
        ensures
            r == action_at(i as nat),
    {
        match i {
            0 => Action::Accept,
            1 => Action::ActionMenu,
            2 => Action::Adjacent,
            3 => Action::AllNamespaces,
            4 => Action::Anchor0,
            5 => Action::Anchor1,
            6 => Action::Anchor2,
            7 => Action::Anchor3,
            8 => Action::Anchor4,
            9 => Action::Anchor5,
            10 => Action::Attach,
            11 => Action::AutoRefresh,
            12 => Action::ResetBaseline,
            13 => Action::Back,
            14 => Action::Backspace,
            15 => Action::Cascade,
            16 => Action::Clear,
            17 => Action::ClearLine,
            18 => Action::Close,
            19 => Action::Command,
            20 => Action::Compact,
            21 => Action::Complete,
            22 => Action::Copy,
            23 => Action::CopyCell,
            24 => Action::CopyName,
            25 => Action::Cordon,
            26 => Action::Debug,
            27 => Action::DecodeSecret,
            28 => Action::Delete,
            29 => Action::DeleteWord,
            30 => Action::Describe,
            31 => Action::DiscoverChildren,
            32 => Action::Down,
            33 => Action::Drain,
            34 => Action::Edit,
            35 => Action::Events,
            36 => Action::Exit,
            37 => Action::Explain,
            38 => Action::Faults,
            39 => Action::FavoriteNamespace1,
            40 => Action::FavoriteNamespace2,
            41 => Action::FavoriteNamespace3,
            42 => Action::FavoriteNamespace4,
            43 => Action::FavoriteNamespace5,
            44 => Action::FavoriteNamespace6,
            45 => Action::FavoriteNamespace7,
            46 => Action::FavoriteNamespace8,
            47 => Action::FavoriteNamespace9,
            48 => Action::Filter,
            49 => Action::First,
            50 => Action::FleetMark,
            51 => Action::Follow,
            52 => Action::Force,
            53 => Action::ForceDelete,
            54 => Action::Fullscreen,
            55 => Action::Help,
            56 => Action::HistoryBack,
            57 => Action::HistoryForward,
            58 => Action::Inspect,
            59 => Action::InvertSort,
            60 => Action::Last,
            61 => Action::Left,
            62 => Action::Logs,
            63 => Action::LogWarnings,
            64 => Action::LogMarker,
            65 => Action::Lookback,
            66 => Action::Mark,
            67 => Action::RangeDown,
            68 => Action::RangeUp,
            69 => Action::Namespaces,
            70 => Action::NamespaceSelected,
            71 => Action::NextMatch,
            72 => Action::NextView,
            73 => Action::Node,
            74 => Action::Open,
            75 => Action::Owner,
            76 => Action::PageDown,
            77 => Action::PageUp,
            78 => Action::Parent,
            79 => Action::PluginActivity,
            80 => Action::PortForward,
            81 => Action::PreviousLogs,
            82 => Action::PreviousMatch,
            83 => Action::PreviousView,
            84 => Action::ProviderLogs,
            85 => Action::Quit,
            86 => Action::Refresh,
            87 => Action::Rename,
            88 => Action::RestartOrRefresh,
            89 => Action::Right,
            90 => Action::Save,
            91 => Action::SetImage,
            92 => Action::Shell,
            93 => Action::ShellOrScale,
            94 => Action::Sort,
            95 => Action::SortAge,
            96 => Action::Start,
            97 => Action::Stream,
            98 => Action::SwitchPane,
            99 => Action::Timeline,
            100 => Action::Json,
            101 => Action::Timestamps,
            102 => Action::Toggle,
            103 => Action::Transfer,
            104 => Action::Uncordon,
            105 => Action::Up,
            106 => Action::Wide,
            107 => Action::Wrap,
            _ => Action::Yaml,
        }
    }
}

/// The keys each scope binds by default, before the shared groups, the
/// command palette and help keys, and the Shift variants are added.
#[verifier::opaque]
pub open spec fn default_keys(s: Scope, a: Action) -> Option<Seq<KeyChord>> {
    match s {
        Scope::Adjacent => match a {
            Action::Accept => Some(seq![pk(KeyCode::Enter)]),
            Action::Back => Some(seq![pk(KeyCode::Esc)]),
            Action::Close => Some(seq![pk(KeyCode::Char('q'))]),
            Action::Describe => Some(seq![pk(KeyCode::Char('d'))]),
            Action::DiscoverChildren => Some(seq![pk(KeyCode::Char('c'))]),
            Action::Down => Some(seq![pk(KeyCode::Char('j')), pk(KeyCode::Down)]),
            Action::First => Some(seq![pk(KeyCode::Char('g')), pk(KeyCode::Home)]),
            Action::Last => Some(seq![pk(KeyCode::Char('G')), pk(KeyCode::End)]),
            Action::Refresh => Some(seq![pk(KeyCode::Char('r'))]),
            Action::Up => Some(seq![pk(KeyCode::Char('k')), pk(KeyCode::Up)]),
            Action::Yaml => Some(seq![pk(KeyCode::Char('y'))]),
            _ => None,
        },
        Scope::Argocd => match a {
            Action::Accept => Some(seq![pk(KeyCode::Enter)]),
            Action::Back => Some(seq![pk(KeyCode::Esc)]),
            Action::Close => Some(seq![pk(KeyCode::Char('q'))]),
            Action::DiscoverChildren => Some(seq![pk(KeyCode::Char('c'))]),
            Action::Down => Some(seq![pk(KeyCode::Char('j')), pk(KeyCode::Down)]),
            Action::First => Some(seq![pk(KeyCode::Char('g')), pk(KeyCode::Home)]),
            Action::Last => Some(seq![pk(KeyCode::Char('G')), pk(KeyCode::End)]),
            Action::Refresh => Some(seq![pk(KeyCode::Char('r'))]),
            Action::Up => Some(seq![pk(KeyCode::Char('k')), pk(KeyCode::Up)]),
            _ => None,
        },
        Scope::Command => match a {
            Action::Complete => Some(seq![pk(KeyCode::Right)]),
            Action::Down => Some(seq![pk(KeyCode::Tab), pk(KeyCode::Down)]),
            Action::Up => Some(seq![pk(KeyCode::BackTab), pk(KeyCode::Up)]),
            _ => None,
        },
        Scope::Confirm => match a {
            Action::Accept => Some(seq![pk(KeyCode::Char('y')), pk(KeyCode::Char('Y')), pk(KeyCode::Enter)]),
            Action::Back => Some(seq![pk(KeyCode::Esc), pk(KeyCode::Char('n')), pk(KeyCode::Char('N')), pk(KeyCode::Char('q'))]),
            Action::PageDown => Some(seq![pk(KeyCode::PageDown)]),
            Action::PageUp => Some(seq![pk(KeyCode::PageUp)]),
            Action::Cascade => Some(seq![pk(KeyCode::Char('c')), pk(KeyCode::Char('C'))]),
            Action::Force => Some(seq![pk(KeyCode::Char('f')), pk(KeyCode::Char('F'))]),
            _ => None,
        },
        Scope::Containers => match a {
            Action::Back => Some(seq![pk(KeyCode::Esc)]),
            Action::Close => Some(seq![pk(KeyCode::Char('q'))]),
            Action::Debug => Some(seq![pk(KeyCode::Char('d'))]),
            Action::Down => Some(seq![pk(KeyCode::Char('j')), pk(KeyCode::Down)]),
            Action::Logs => Some(seq![pk(KeyCode::Enter), pk(KeyCode::Char('l'))]),
            Action::PreviousLogs => Some(seq![pk(KeyCode::Char('p'))]),
            Action::ProviderLogs => Some(seq![pk(KeyCode::Char('L'))]),
            Action::Shell => Some(seq![pk(KeyCode::Char('s'))]),
            Action::Transfer => Some(seq![pk(KeyCode::Char('t'))]),
            Action::Up => Some(seq![pk(KeyCode::Char('k')), pk(KeyCode::Up)]),
            Action::PageDown => Some(seq![pk(KeyCode::PageDown)]),
            Action::PageUp => Some(seq![pk(KeyCode::PageUp)]),
            _ => None,
        },
        Scope::ContextFilter => match a {
            Action::Down => Some(seq![pk(KeyCode::Down)]),
            Action::Up => Some(seq![pk(KeyCode::Up)]),
            Action::PageDown => Some(seq![pk(KeyCode::PageDown)]),
            Action::PageUp => Some(seq![pk(KeyCode::PageUp)]),
            _ => None,
        },
        Scope::Contexts => match a {
            Action::Accept => Some(seq![pk(KeyCode::Enter)]),
            Action::Back => Some(seq![pk(KeyCode::Esc)]),
            Action::Down => Some(seq![pk(KeyCode::Down), pk(KeyCode::Char('j'))]),
            Action::Filter => Some(seq![pk(KeyCode::Char('/'))]),
            Action::FleetMark => Some(seq![pk(KeyCode::Char(' '))]),
            Action::Rename => Some(seq![pk(KeyCode::Char('r')), pk(KeyCode::Char('R'))]),
            Action::Up => Some(seq![pk(KeyCode::Up), pk(KeyCode::Char('k'))]),
            Action::PageDown => Some(seq![pk(KeyCode::PageDown)]),
            Action::PageUp => Some(seq![pk(KeyCode::PageUp)]),
            _ => None,
        },
        Scope::CopyPicker => match a {
            Action::Down => Some(seq![pk(KeyCode::Down), mk(KeyCode::Char('n'), true, false, false)]),
            Action::Up => Some(seq![pk(KeyCode::Up), mk(KeyCode::Char('p'), true, false, false)]),
            Action::PageDown => Some(seq![pk(KeyCode::PageDown)]),
            Action::PageUp => Some(seq![pk(KeyCode::PageUp)]),
            _ => None,
        },
        Scope::Detail => match a {
            Action::AutoRefresh => Some(seq![pk(KeyCode::Char('r'))]),
            Action::Back => Some(seq![pk(KeyCode::Esc)]),
            Action::Close => Some(seq![pk(KeyCode::Char('q'))]),
            Action::Copy => Some(seq![pk(KeyCode::Char('c'))]),
            Action::DecodeSecret => Some(seq![pk(KeyCode::Char('x'))]),
            Action::Down => Some(seq![pk(KeyCode::Char('j')), pk(KeyCode::Down)]),
            Action::Filter => Some(seq![pk(KeyCode::Char('/'))]),
            Action::First => Some(seq![pk(KeyCode::Char('g')), pk(KeyCode::Home)]),
            Action::Fullscreen => Some(seq![pk(KeyCode::Char('F'))]),
            Action::Last => Some(seq![pk(KeyCode::Char('G')), pk(KeyCode::End)]),
            Action::Left => Some(seq![pk(KeyCode::Char('h')), pk(KeyCode::Left)]),
            Action::NextMatch => Some(seq![pk(KeyCode::Char('n'))]),
            Action::PageDown => Some(seq![pk(KeyCode::PageDown), pk(KeyCode::Char(' ')), mk(KeyCode::Char('f'), true, false, false)]),
            Action::PageUp => Some(seq![pk(KeyCode::PageUp), mk(KeyCode::Char('b'), true, false, false)]),
            Action::PreviousMatch => Some(seq![pk(KeyCode::Char('N'))]),
            Action::Right => Some(seq![pk(KeyCode::Char('l')), pk(KeyCode::Right)]),
            Action::Up => Some(seq![pk(KeyCode::Char('k')), pk(KeyCode::Up)]),
            Action::Wrap => Some(seq![pk(KeyCode::Char('w'))]),
            _ => None,
        },
        Scope::Diff => match a {
            Action::AutoRefresh => Some(seq![pk(KeyCode::Char('r'))]),
            Action::ResetBaseline => Some(seq![pk(KeyCode::Char('R'))]),
            Action::Back => Some(seq![pk(KeyCode::Esc)]),
            Action::Close => Some(seq![pk(KeyCode::Char('q'))]),
            Action::Copy => Some(seq![pk(KeyCode::Char('c'))]),
            Action::Down => Some(seq![pk(KeyCode::Char('j')), pk(KeyCode::Down)]),
            Action::Filter => Some(seq![pk(KeyCode::Char('/'))]),
            Action::First => Some(seq![pk(KeyCode::Char('g')), pk(KeyCode::Home)]),
            Action::Fullscreen => Some(seq![pk(KeyCode::Char('F'))]),
            Action::Last => Some(seq![pk(KeyCode::Char('G')), pk(KeyCode::End)]),
            Action::Left => Some(seq![pk(KeyCode::Char('h')), pk(KeyCode::Left)]),
            Action::NextMatch => Some(seq![pk(KeyCode::Char('n'))]),
            Action::PageDown => Some(seq![pk(KeyCode::PageDown), pk(KeyCode::Char(' ')), mk(KeyCode::Char('f'), true, false, false)]),
            Action::PageUp => Some(seq![pk(KeyCode::PageUp), mk(KeyCode::Char('b'), true, false, false)]),
            Action::PreviousMatch => Some(seq![pk(KeyCode::Char('N'))]),
            Action::Right => Some(seq![pk(KeyCode::Char('l')), pk(KeyCode::Right)]),
            Action::Up => Some(seq![pk(KeyCode::Char('k')), pk(KeyCode::Up)]),
            Action::Wrap => Some(seq![pk(KeyCode::Char('w'))]),
            _ => None,
        },
        Scope::Drain => match a {
            Action::Down => Some(seq![pk(KeyCode::Tab), pk(KeyCode::Down)]),
            Action::Up => Some(seq![pk(KeyCode::BackTab), pk(KeyCode::Up)]),
            Action::Toggle => Some(seq![pk(KeyCode::Char(' '))]),
            Action::PageUp => Some(seq![pk(KeyCode::PageUp)]),
            Action::PageDown => Some(seq![pk(KeyCode::PageDown)]),
            _ => None,
        },
        Scope::Events => match a {
            Action::Back => Some(seq![pk(KeyCode::Esc)]),
            Action::Close => Some(seq![pk(KeyCode::Char('q'))]),
            Action::Copy => Some(seq![pk(KeyCode::Char('c'))]),
            Action::Down => Some(seq![pk(KeyCode::Char('j')), pk(KeyCode::Down)]),
            Action::Filter => Some(seq![pk(KeyCode::Char('/'))]),
            Action::First => Some(seq![pk(KeyCode::Char('g')), pk(KeyCode::Home)]),
            Action::Fullscreen => Some(seq![pk(KeyCode::Char('F'))]),
            Action::Last => Some(seq![pk(KeyCode::Char('G')), pk(KeyCode::End)]),
            Action::Left => Some(seq![pk(KeyCode::Char('h')), pk(KeyCode::Left)]),
            Action::NextMatch => Some(seq![pk(KeyCode::Char('n'))]),
            Action::PageDown => Some(seq![pk(KeyCode::PageDown), pk(KeyCode::Char(' ')), mk(KeyCode::Char('f'), true, false, false)]),
            Action::PageUp => Some(seq![pk(KeyCode::PageUp), mk(KeyCode::Char('b'), true, false, false)]),
            Action::PreviousMatch => Some(seq![pk(KeyCode::Char('N'))]),
            Action::Right => Some(seq![pk(KeyCode::Char('l')), pk(KeyCode::Right)]),
            Action::Up => Some(seq![pk(KeyCode::Char('k')), pk(KeyCode::Up)]),
            Action::Wrap => Some(seq![pk(KeyCode::Char('w'))]),
            _ => None,
        },
        Scope::Explain => match a {
            Action::Accept => Some(seq![pk(KeyCode::Enter)]),
            Action::AutoRefresh => Some(seq![pk(KeyCode::Char('R'))]),
            Action::Back => Some(seq![pk(KeyCode::Esc)]),
            Action::Close => Some(seq![pk(KeyCode::Char('q'))]),
            Action::Down => Some(seq![pk(KeyCode::Char('j')), pk(KeyCode::Down)]),
            Action::Events => Some(seq![pk(KeyCode::Char('E'))]),
            Action::First => Some(seq![pk(KeyCode::Char('g')), pk(KeyCode::Home)]),
            Action::Last => Some(seq![pk(KeyCode::Char('G')), pk(KeyCode::End)]),
            Action::Logs => Some(seq![pk(KeyCode::Char('l'))]),
            Action::Refresh => Some(seq![pk(KeyCode::Char('r'))]),
            Action::Up => Some(seq![pk(KeyCode::Char('k')), pk(KeyCode::Up)]),
            _ => None,
        },
        Scope::Find => match a {
            Action::Accept => Some(seq![pk(KeyCode::Enter)]),
            Action::Back => Some(seq![pk(KeyCode::Esc)]),
            Action::Close => Some(seq![pk(KeyCode::Char('q'))]),
            Action::Down => Some(seq![pk(KeyCode::Char('j')), pk(KeyCode::Down)]),
            Action::First => Some(seq![pk(KeyCode::Char('g')), pk(KeyCode::Home)]),
            Action::Last => Some(seq![pk(KeyCode::Char('G')), pk(KeyCode::End)]),
            Action::Up => Some(seq![pk(KeyCode::Char('k')), pk(KeyCode::Up)]),
            _ => None,
        },
        Scope::Fleet => match a {
            Action::Accept => Some(seq![pk(KeyCode::Enter)]),
            Action::Back => Some(seq![pk(KeyCode::Esc)]),
            Action::Close => Some(seq![pk(KeyCode::Char('q'))]),
            Action::Down => Some(seq![pk(KeyCode::Char('j')), pk(KeyCode::Down)]),
            Action::Refresh => Some(seq![pk(KeyCode::Char('r'))]),
            Action::Up => Some(seq![pk(KeyCode::Char('k')), pk(KeyCode::Up)]),
            _ => None,
        },
        Scope::FluxMenu => match a {
            Action::Accept => Some(seq![pk(KeyCode::Enter)]),
            Action::Back => Some(seq![pk(KeyCode::Esc)]),
            Action::Close => Some(seq![pk(KeyCode::Char('q'))]),
            Action::Down => Some(seq![pk(KeyCode::Char('j')), pk(KeyCode::Down)]),
            Action::Up => Some(seq![pk(KeyCode::Char('k')), pk(KeyCode::Up)]),
            Action::PageDown => Some(seq![pk(KeyCode::PageDown)]),
            Action::PageUp => Some(seq![pk(KeyCode::PageUp)]),
            _ => None,
        },
        Scope::Gitops => match a {
            Action::Accept => Some(seq![pk(KeyCode::Enter)]),
            Action::Back => Some(seq![pk(KeyCode::Esc)]),
            Action::Close => Some(seq![pk(KeyCode::Char('q'))]),
            Action::Down => Some(seq![pk(KeyCode::Char('j')), pk(KeyCode::Down)]),
            Action::First => Some(seq![pk(KeyCode::Char('g')), pk(KeyCode::Home)]),
            Action::Last => Some(seq![pk(KeyCode::Char('G')), pk(KeyCode::End)]),
            Action::Refresh => Some(seq![pk(KeyCode::Char('r'))]),
            Action::Up => Some(seq![pk(KeyCode::Char('k')), pk(KeyCode::Up)]),
            _ => None,
        },
        Scope::Help => match a {
            Action::Back => Some(seq![pk(KeyCode::Esc)]),
            Action::Close => Some(seq![pk(KeyCode::Char('q')), pk(KeyCode::Char('?'))]),
            Action::Down => Some(seq![pk(KeyCode::Char('j')), pk(KeyCode::Down)]),
            Action::Filter => Some(seq![pk(KeyCode::Char('/'))]),
            Action::First => Some(seq![pk(KeyCode::Char('g')), pk(KeyCode::Home)]),
            Action::Last => Some(seq![pk(KeyCode::Char('G')), pk(KeyCode::End)]),
            Action::PageDown => Some(seq![pk(KeyCode::PageDown), pk(KeyCode::Char(' ')), mk(KeyCode::Char('f'), true, false, false)]),
            Action::PageUp => Some(seq![pk(KeyCode::PageUp), mk(KeyCode::Char('b'), true, false, false)]),
            Action::Up => Some(seq![pk(KeyCode::Char('k')), pk(KeyCode::Up)]),
            _ => None,
        },
        Scope::Logs => match a {
            Action::Anchor0 => Some(seq![pk(KeyCode::Char('0'))]),
            Action::Anchor1 => Some(seq![pk(KeyCode::Char('1'))]),
            Action::Anchor2 => Some(seq![pk(KeyCode::Char('2'))]),
            Action::Anchor3 => Some(seq![pk(KeyCode::Char('3'))]),
            Action::Anchor4 => Some(seq![pk(KeyCode::Char('4'))]),
            Action::Anchor5 => Some(seq![pk(KeyCode::Char('5'))]),
            Action::Back => Some(seq![pk(KeyCode::Esc)]),
            Action::Clear => Some(seq![pk(KeyCode::Char('z'))]),
            Action::Close => Some(seq![pk(KeyCode::Char('q'))]),
            Action::Copy => Some(seq![pk(KeyCode::Char('c'))]),
            Action::Down => Some(seq![pk(KeyCode::Char('j')), pk(KeyCode::Down)]),
            Action::Filter => Some(seq![pk(KeyCode::Char('/'))]),
            Action::First => Some(seq![pk(KeyCode::Char('g')), pk(KeyCode::Home)]),
            Action::Follow => Some(seq![pk(KeyCode::Char('s')), pk(KeyCode::Char('f'))]),
            Action::Fullscreen => Some(seq![pk(KeyCode::Char('F'))]),
            Action::Last => Some(seq![pk(KeyCode::Char('G')), pk(KeyCode::End)]),
            Action::Lookback => Some(seq![pk(KeyCode::Char('T'))]),
            Action::LogMarker => Some(seq![pk(KeyCode::Char('m'))]),
            Action::LogWarnings => Some(seq![mk(KeyCode::Char('z'), true, false, false)]),
            Action::PageDown => Some(seq![pk(KeyCode::PageDown), pk(KeyCode::Char(' '))]),
            Action::PageUp => Some(seq![pk(KeyCode::PageUp)]),
            Action::Save => Some(seq![mk(KeyCode::Char('s'), true, false, false)]),
            Action::Stream => Some(seq![pk(KeyCode::Char('x'))]),
            Action::Json => Some(seq![pk(KeyCode::Char('J'))]),
            Action::Timestamps => Some(seq![pk(KeyCode::Char('t'))]),
            Action::Up => Some(seq![pk(KeyCode::Char('k')), pk(KeyCode::Up)]),
            Action::Wrap => Some(seq![pk(KeyCode::Char('w'))]),
            _ => None,
        },
        Scope::Namespaces => match a {
            Action::Down => Some(seq![pk(KeyCode::Down)]),
            Action::Up => Some(seq![pk(KeyCode::Up)]),
            Action::PageDown => Some(seq![pk(KeyCode::PageDown)]),
            Action::PageUp => Some(seq![pk(KeyCode::PageUp)]),
            _ => None,
        },
        Scope::PluginForm => match a {
            Action::Down => Some(seq![pk(KeyCode::Tab), pk(KeyCode::Down)]),
            Action::Left => Some(seq![pk(KeyCode::Left)]),
            Action::Right => Some(seq![pk(KeyCode::Right)]),
            Action::Up => Some(seq![pk(KeyCode::BackTab), pk(KeyCode::Up)]),
            _ => None,
        },
        Scope::PortForwardPicker => match a {
            Action::Accept => Some(seq![pk(KeyCode::Enter)]),
            Action::Back => Some(seq![pk(KeyCode::Esc)]),
            Action::Close => Some(seq![pk(KeyCode::Char('q'))]),
            Action::Down => Some(seq![pk(KeyCode::Char('j')), pk(KeyCode::Down)]),
            Action::Edit => Some(seq![pk(KeyCode::Char('e'))]),
            Action::Toggle => Some(seq![pk(KeyCode::Char('x'))]),
            Action::Up => Some(seq![pk(KeyCode::Char('k')), pk(KeyCode::Up)]),
            Action::PageDown => Some(seq![pk(KeyCode::PageDown)]),
            Action::PageUp => Some(seq![pk(KeyCode::PageUp)]),
            _ => None,
        },
        Scope::PortForwards => match a {
            Action::Back => Some(seq![pk(KeyCode::Esc)]),
            Action::Close => Some(seq![pk(KeyCode::Char('q'))]),
            Action::Down => Some(seq![pk(KeyCode::Char('j')), pk(KeyCode::Down)]),
            Action::Start => Some(seq![pk(KeyCode::Enter)]),
            Action::Toggle => Some(seq![pk(KeyCode::Char('x')), pk(KeyCode::Char('s'))]),
            Action::Up => Some(seq![pk(KeyCode::Char('k')), pk(KeyCode::Up)]),
            _ => None,
        },
        Scope::Prompt => match a {
            Action::PageDown => Some(seq![pk(KeyCode::PageDown)]),
            Action::PageUp => Some(seq![pk(KeyCode::PageUp)]),
            _ => None,
        },
        Scope::Pulse => match a {
            Action::Back => Some(seq![pk(KeyCode::Esc)]),
            Action::Close => Some(seq![pk(KeyCode::Char('q'))]),
            Action::Refresh => Some(seq![pk(KeyCode::Char('r'))]),
            _ => None,
        },
        Scope::PvcExplore => match a {
            Action::Accept => Some(seq![pk(KeyCode::Enter)]),
            Action::Back => Some(seq![pk(KeyCode::Esc)]),
            Action::Close => Some(seq![pk(KeyCode::Char('q'))]),
            Action::Copy => Some(seq![pk(KeyCode::Char('c'))]),
            Action::Down => Some(seq![pk(KeyCode::Char('j')), pk(KeyCode::Down)]),
            Action::First => Some(seq![pk(KeyCode::Char('g')), pk(KeyCode::Home)]),
            Action::Last => Some(seq![pk(KeyCode::Char('G')), pk(KeyCode::End)]),
            Action::Left => Some(seq![pk(KeyCode::Left)]),
            Action::Parent => Some(seq![pk(KeyCode::Backspace), pk(KeyCode::Char('-'))]),
            Action::Refresh => Some(seq![pk(KeyCode::Char('r'))]),
            Action::Right => Some(seq![pk(KeyCode::Right)]),
            Action::Shell => Some(seq![pk(KeyCode::Char('s'))]),
            Action::SwitchPane => Some(seq![pk(KeyCode::Tab), pk(KeyCode::BackTab)]),
            Action::Up => Some(seq![pk(KeyCode::Char('k')), pk(KeyCode::Up)]),
            _ => None,
        },
        Scope::SetImage => match a {
            Action::Accept => Some(seq![pk(KeyCode::Enter)]),
            Action::Back => Some(seq![pk(KeyCode::Esc)]),
            Action::Close => Some(seq![pk(KeyCode::Char('q'))]),
            Action::Down => Some(seq![pk(KeyCode::Char('j')), pk(KeyCode::Down)]),
            Action::Up => Some(seq![pk(KeyCode::Char('k')), pk(KeyCode::Up)]),
            Action::PageDown => Some(seq![pk(KeyCode::PageDown)]),
            Action::PageUp => Some(seq![pk(KeyCode::PageUp)]),
            _ => None,
        },
        Scope::Skins => match a {
            Action::Accept => Some(seq![pk(KeyCode::Enter)]),
            Action::Back => Some(seq![pk(KeyCode::Esc)]),
            Action::Close => Some(seq![pk(KeyCode::Char('q'))]),
            Action::Down => Some(seq![pk(KeyCode::Char('j')), pk(KeyCode::Down)]),
            Action::Up => Some(seq![pk(KeyCode::Char('k')), pk(KeyCode::Up)]),
            Action::PageDown => Some(seq![pk(KeyCode::PageDown)]),
            Action::PageUp => Some(seq![pk(KeyCode::PageUp)]),
            _ => None,
        },
        Scope::Snapshots => match a {
            Action::Accept => Some(seq![pk(KeyCode::Enter)]),
            Action::Back => Some(seq![pk(KeyCode::Esc)]),
            Action::Close => Some(seq![pk(KeyCode::Char('q'))]),
            Action::Delete => Some(seq![pk(KeyCode::Char('d'))]),
            Action::Down => Some(seq![pk(KeyCode::Char('j')), pk(KeyCode::Down)]),
            Action::Up => Some(seq![pk(KeyCode::Char('k')), pk(KeyCode::Up)]),
            Action::PageDown => Some(seq![pk(KeyCode::PageDown)]),
            Action::PageUp => Some(seq![pk(KeyCode::PageUp)]),
            _ => None,
        },
        Scope::SortPicker => match a {
            Action::Down => Some(seq![pk(KeyCode::Down), mk(KeyCode::Char('n'), true, false, false)]),
            Action::Up => Some(seq![pk(KeyCode::Up), mk(KeyCode::Char('p'), true, false, false)]),
            Action::PageDown => Some(seq![pk(KeyCode::PageDown)]),
            Action::PageUp => Some(seq![pk(KeyCode::PageUp)]),
            _ => None,
        },
        Scope::Table => match a {
            Action::ActionMenu => Some(seq![pk(KeyCode::Char('t'))]),
            Action::Adjacent => Some(seq![pk(KeyCode::Char('u'))]),
            Action::AllNamespaces => Some(seq![pk(KeyCode::Char('0'))]),
            Action::FavoriteNamespace1 => Some(seq![pk(KeyCode::Char('1'))]),
            Action::FavoriteNamespace2 => Some(seq![pk(KeyCode::Char('2'))]),
            Action::FavoriteNamespace3 => Some(seq![pk(KeyCode::Char('3'))]),
            Action::FavoriteNamespace4 => Some(seq![pk(KeyCode::Char('4'))]),
            Action::FavoriteNamespace5 => Some(seq![pk(KeyCode::Char('5'))]),
            Action::FavoriteNamespace6 => Some(seq![pk(KeyCode::Char('6'))]),
            Action::FavoriteNamespace7 => Some(seq![pk(KeyCode::Char('7'))]),
            Action::FavoriteNamespace8 => Some(seq![pk(KeyCode::Char('8'))]),
            Action::FavoriteNamespace9 => Some(seq![pk(KeyCode::Char('9'))]),
            Action::Attach => Some(seq![pk(KeyCode::Char('a'))]),
            Action::Back => Some(seq![pk(KeyCode::Esc)]),
            Action::CopyCell => Some(seq![pk(KeyCode::Char('Y'))]),
            Action::CopyName => Some(seq![pk(KeyCode::Char('c'))]),
            Action::Cordon => Some(seq![pk(KeyCode::Char('C'))]),
            Action::Delete => Some(seq![mk(KeyCode::Char('d'), true, false, false)]),
            Action::Describe => Some(seq![pk(KeyCode::Char('d'))]),
            Action::Down => Some(seq![pk(KeyCode::Char('j')), pk(KeyCode::Down)]),
            Action::Drain => Some(seq![pk(KeyCode::Char('D'))]),
            Action::Edit => Some(seq![pk(KeyCode::Char('e'))]),
            Action::Events => Some(seq![pk(KeyCode::Char('E'))]),
            Action::Exit => Some(seq![pk(KeyCode::Char('q'))]),
            Action::Explain => Some(seq![pk(KeyCode::Char('X'))]),
            Action::Faults => Some(seq![mk(KeyCode::Char('z'), true, false, false)]),
            Action::Filter => Some(seq![pk(KeyCode::Char('/'))]),
            Action::First => Some(seq![pk(KeyCode::Char('g')), pk(KeyCode::Home)]),
            Action::ForceDelete => Some(seq![mk(KeyCode::Char('k'), true, false, false)]),
            Action::HistoryBack => Some(seq![pk(KeyCode::Char('['))]),
            Action::HistoryForward => Some(seq![pk(KeyCode::Char(']'))]),
            Action::Inspect => Some(seq![pk(KeyCode::Char('x'))]),
            Action::InvertSort => Some(seq![pk(KeyCode::Char('I'))]),
            Action::Last => Some(seq![pk(KeyCode::Char('G')), pk(KeyCode::End)]),
            Action::Left => Some(seq![pk(KeyCode::Left)]),
            Action::Logs => Some(seq![pk(KeyCode::Char('l'))]),
            Action::Mark => Some(seq![pk(KeyCode::Char(' '))]),
            Action::RangeDown => Some(seq![mk(KeyCode::Down, false, false, true)]),
            Action::RangeUp => Some(seq![mk(KeyCode::Up, false, false, true)]),
            Action::Namespaces => Some(seq![pk(KeyCode::Char('n'))]),
            Action::NamespaceSelected => Some(seq![pk(KeyCode::Char('W'))]),
            Action::NextView => Some(seq![pk(KeyCode::Tab)]),
            Action::Node => Some(seq![pk(KeyCode::Char('o'))]),
            Action::Open => Some(seq![pk(KeyCode::Enter)]),
            Action::Owner => Some(seq![pk(KeyCode::Char('J'))]),
            Action::PageDown => Some(seq![pk(KeyCode::PageDown), mk(KeyCode::Char('f'), true, false, false)]),
            Action::PageUp => Some(seq![pk(KeyCode::PageUp), mk(KeyCode::Char('b'), true, false, false)]),
            Action::PortForward => Some(seq![pk(KeyCode::Char('f')), pk(KeyCode::Char('F'))]),
            Action::PreviousLogs => Some(seq![pk(KeyCode::Char('p'))]),
            Action::PreviousView => Some(seq![pk(KeyCode::BackTab)]),
            Action::ProviderLogs => Some(seq![pk(KeyCode::Char('L'))]),
            Action::Refresh => Some(seq![mk(KeyCode::Char('r'), true, false, false)]),
            Action::RestartOrRefresh => Some(seq![pk(KeyCode::Char('r'))]),
            Action::Right => Some(seq![pk(KeyCode::Right)]),
            Action::SetImage => Some(seq![pk(KeyCode::Char('i'))]),
            Action::ShellOrScale => Some(seq![pk(KeyCode::Char('s'))]),
            Action::Sort => Some(seq![pk(KeyCode::Char('S'))]),
            Action::SortAge => Some(seq![pk(KeyCode::Char('A'))]),
            Action::Timeline => Some(seq![pk(KeyCode::Char('T'))]),
            Action::Uncordon => Some(seq![pk(KeyCode::Char('U'))]),
            Action::Up => Some(seq![pk(KeyCode::Char('k')), pk(KeyCode::Up)]),
            Action::Wide => Some(seq![pk(KeyCode::Char('w'))]),
            Action::Yaml => Some(seq![pk(KeyCode::Char('y'))]),
            _ => None,
        },
        Scope::Timeline => match a {
            Action::Back => Some(seq![pk(KeyCode::Esc)]),
            Action::Close => Some(seq![pk(KeyCode::Char('q'))]),
            Action::Down => Some(seq![pk(KeyCode::Char('j')), pk(KeyCode::Down)]),
            Action::First => Some(seq![pk(KeyCode::Char('g')), pk(KeyCode::Home)]),
            Action::Last => Some(seq![pk(KeyCode::Char('G')), pk(KeyCode::End)]),
            Action::Up => Some(seq![pk(KeyCode::Char('k')), pk(KeyCode::Up)]),
            _ => None,
        },
        Scope::TransferMenu => match a {
            Action::Accept => Some(seq![pk(KeyCode::Enter)]),
            Action::Back => Some(seq![pk(KeyCode::Esc)]),
            Action::Close => Some(seq![pk(KeyCode::Char('q'))]),
            Action::Down => Some(seq![pk(KeyCode::Char('j')), pk(KeyCode::Down)]),
            Action::Up => Some(seq![pk(KeyCode::Char('k')), pk(KeyCode::Up)]),
            Action::PageDown => Some(seq![pk(KeyCode::PageDown)]),
            Action::PageUp => Some(seq![pk(KeyCode::PageUp)]),
            _ => None,
        },
        Scope::Xray => match a {
            Action::Back => Some(seq![pk(KeyCode::Esc)]),
            Action::Close => Some(seq![pk(KeyCode::Char('q'))]),
            Action::Down => Some(seq![pk(KeyCode::Char('j')), pk(KeyCode::Down)]),
            Action::First => Some(seq![pk(KeyCode::Char('g')), pk(KeyCode::Home)]),
            Action::Last => Some(seq![pk(KeyCode::Char('G')), pk(KeyCode::End)]),
            Action::Logs => Some(seq![pk(KeyCode::Enter), pk(KeyCode::Char('l'))]),
            Action::Refresh => Some(seq![pk(KeyCode::Char('r'))]),
            Action::Up => Some(seq![pk(KeyCode::Char('k')), pk(KeyCode::Up)]),
            _ => None,
        },
        _ => None,
    }
}

fn default_keys_of(s: Scope, a: Action) -> (r: Option<Vec<KeyChord>>)
    ensures
        opt_chords(r) == default_keys(s, a),
{
    reveal(default_keys);
    match s {
        Scope::Adjacent => match a {
            Action::Accept => Some(vec![plain_key(KeyCode::Enter)]),
            Action::Back => Some(vec![plain_key(KeyCode::Esc)]),
            Action::Close => Some(vec![plain_key(KeyCode::Char('q'))]),
            Action::Describe => Some(vec![plain_key(KeyCode::Char('d'))]),
            Action::DiscoverChildren => Some(vec![plain_key(KeyCode::Char('c'))]),
            Action::Down => Some(vec![plain_key(KeyCode::Char('j')), plain_key(KeyCode::Down)]),
            Action::First => Some(vec![plain_key(KeyCode::Char('g')), plain_key(KeyCode::Home)]),
            Action::Last => Some(vec![plain_key(KeyCode::Char('G')), plain_key(KeyCode::End)]),
            Action::Refresh => Some(vec![plain_key(KeyCode::Char('r'))]),
            Action::Up => Some(vec![plain_key(KeyCode::Char('k')), plain_key(KeyCode::Up)]),
            Action::Yaml => Some(vec![plain_key(KeyCode::Char('y'))]),
            _ => None,
        },
        Scope::Argocd => match a {
            Action::Accept => Some(vec![plain_key(KeyCode::Enter)]),
            Action::Back => Some(vec![plain_key(KeyCode::Esc)]),
            Action::Close => Some(vec![plain_key(KeyCode::Char('q'))]),
            Action::DiscoverChildren => Some(vec![plain_key(KeyCode::Char('c'))]),
            Action::Down => Some(vec![plain_key(KeyCode::Char('j')), plain_key(KeyCode::Down)]),
            Action::First => Some(vec![plain_key(KeyCode::Char('g')), plain_key(KeyCode::Home)]),
            Action::Last => Some(vec![plain_key(KeyCode::Char('G')), plain_key(KeyCode::End)]),
            Action::Refresh => Some(vec![plain_key(KeyCode::Char('r'))]),
            Action::Up => Some(vec![plain_key(KeyCode::Char('k')), plain_key(KeyCode::Up)]),
            _ => None,
        },
        Scope::Command => match a {
            Action::Complete => Some(vec![plain_key(KeyCode::Right)]),
            Action::Down => Some(vec![plain_key(KeyCode::Tab), plain_key(KeyCode::Down)]),
            Action::Up => Some(vec![plain_key(KeyCode::BackTab), plain_key(KeyCode::Up)]),
            _ => None,
        },
        Scope::Confirm => match a {
            Action::Accept => Some(vec![plain_key(KeyCode::Char('y')), plain_key(KeyCode::Char('Y')), plain_key(KeyCode::Enter)]),
            Action::Back => Some(vec![plain_key(KeyCode::Esc), plain_key(KeyCode::Char('n')), plain_key(KeyCode::Char('N')), plain_key(KeyCode::Char('q'))]),
            Action::PageDown => Some(vec![plain_key(KeyCode::PageDown)]),
            Action::PageUp => Some(vec![plain_key(KeyCode::PageUp)]),
            Action::Cascade => Some(vec![plain_key(KeyCode::Char('c')), plain_key(KeyCode::Char('C'))]),
            Action::Force => Some(vec![plain_key(KeyCode::Char('f')), plain_key(KeyCode::Char('F'))]),
            _ => None,
        },
        Scope::Containers => match a {
            Action::Back => Some(vec![plain_key(KeyCode::Esc)]),
            Action::Close => Some(vec![plain_key(KeyCode::Char('q'))]),
            Action::Debug => Some(vec![plain_key(KeyCode::Char('d'))]),
            Action::Down => Some(vec![plain_key(KeyCode::Char('j')), plain_key(KeyCode::Down)]),
            Action::Logs => Some(vec![plain_key(KeyCode::Enter), plain_key(KeyCode::Char('l'))]),
            Action::PreviousLogs => Some(vec![plain_key(KeyCode::Char('p'))]),
            Action::ProviderLogs => Some(vec![plain_key(KeyCode::Char('L'))]),
            Action::Shell => Some(vec![plain_key(KeyCode::Char('s'))]),
            Action::Transfer => Some(vec![plain_key(KeyCode::Char('t'))]),
            Action::Up => Some(vec![plain_key(KeyCode::Char('k')), plain_key(KeyCode::Up)]),
            Action::PageDown => Some(vec![plain_key(KeyCode::PageDown)]),
            Action::PageUp => Some(vec![plain_key(KeyCode::PageUp)]),
            _ => None,
        },
        Scope::ContextFilter => match a {
            Action::Down => Some(vec![plain_key(KeyCode::Down)]),
            Action::Up => Some(vec![plain_key(KeyCode::Up)]),
            Action::PageDown => Some(vec![plain_key(KeyCode::PageDown)]),
            Action::PageUp => Some(vec![plain_key(KeyCode::PageUp)]),
            _ => None,
        },
        Scope::Contexts => match a {
            Action::Accept => Some(vec![plain_key(KeyCode::Enter)]),
            Action::Back => Some(vec![plain_key(KeyCode::Esc)]),
            Action::Down => Some(vec![plain_key(KeyCode::Down), plain_key(KeyCode::Char('j'))]),
            Action::Filter => Some(vec![plain_key(KeyCode::Char('/'))]),
            Action::FleetMark => Some(vec![plain_key(KeyCode::Char(' '))]),
            Action::Rename => Some(vec![plain_key(KeyCode::Char('r')), plain_key(KeyCode::Char('R'))]),
            Action::Up => Some(vec![plain_key(KeyCode::Up), plain_key(KeyCode::Char('k'))]),
            Action::PageDown => Some(vec![plain_key(KeyCode::PageDown)]),
            Action::PageUp => Some(vec![plain_key(KeyCode::PageUp)]),
            _ => None,
        },
        Scope::CopyPicker => match a {
            Action::Down => Some(vec![plain_key(KeyCode::Down), mod_key(KeyCode::Char('n'), true, false, false)]),
            Action::Up => Some(vec![plain_key(KeyCode::Up), mod_key(KeyCode::Char('p'), true, false, false)]),
            Action::PageDown => Some(vec![plain_key(KeyCode::PageDown)]),
            Action::PageUp => Some(vec![plain_key(KeyCode::PageUp)]),
            _ => None,
        },
        Scope::Detail => match a {
            Action::AutoRefresh => Some(vec![plain_key(KeyCode::Char('r'))]),
            Action::Back => Some(vec![plain_key(KeyCode::Esc)]),
            Action::Close => Some(vec![plain_key(KeyCode::Char('q'))]),
            Action::Copy => Some(vec![plain_key(KeyCode::Char('c'))]),
            Action::DecodeSecret => Some(vec![plain_key(KeyCode::Char('x'))]),
            Action::Down => Some(vec![plain_key(KeyCode::Char('j')), plain_key(KeyCode::Down)]),
            Action::Filter => Some(vec![plain_key(KeyCode::Char('/'))]),
            Action::First => Some(vec![plain_key(KeyCode::Char('g')), plain_key(KeyCode::Home)]),
            Action::Fullscreen => Some(vec![plain_key(KeyCode::Char('F'))]),
            Action::Last => Some(vec![plain_key(KeyCode::Char('G')), plain_key(KeyCode::End)]),
            Action::Left => Some(vec![plain_key(KeyCode::Char('h')), plain_key(KeyCode::Left)]),
            Action::NextMatch => Some(vec![plain_key(KeyCode::Char('n'))]),
            Action::PageDown => Some(vec![plain_key(KeyCode::PageDown), plain_key(KeyCode::Char(' ')), mod_key(KeyCode::Char('f'), true, false, false)]),
            Action::PageUp => Some(vec![plain_key(KeyCode::PageUp), mod_key(KeyCode::Char('b'), true, false, false)]),
            Action::PreviousMatch => Some(vec![plain_key(KeyCode::Char('N'))]),
            Action::Right => Some(vec![plain_key(KeyCode::Char('l')), plain_key(KeyCode::Right)]),
            Action::Up => Some(vec![plain_key(KeyCode::Char('k')), plain_key(KeyCode::Up)]),
            Action::Wrap => Some(vec![plain_key(KeyCode::Char('w'))]),
            _ => None,
        },
        Scope::Diff => match a {
            Action::AutoRefresh => Some(vec![plain_key(KeyCode::Char('r'))]),
            Action::ResetBaseline => Some(vec![plain_key(KeyCode::Char('R'))]),
            Action::Back => Some(vec![plain_key(KeyCode::Esc)]),
            Action::Close => Some(vec![plain_key(KeyCode::Char('q'))]),
            Action::Copy => Some(vec![plain_key(KeyCode::Char('c'))]),
            Action::Down => Some(vec![plain_key(KeyCode::Char('j')), plain_key(KeyCode::Down)]),
            Action::Filter => Some(vec![plain_key(KeyCode::Char('/'))]),
            Action::First => Some(vec![plain_key(KeyCode::Char('g')), plain_key(KeyCode::Home)]),
            Action::Fullscreen => Some(vec![plain_key(KeyCode::Char('F'))]),
            Action::Last => Some(vec![plain_key(KeyCode::Char('G')), plain_key(KeyCode::End)]),
            Action::Left => Some(vec![plain_key(KeyCode::Char('h')), plain_key(KeyCode::Left)]),
            Action::NextMatch => Some(vec![plain_key(KeyCode::Char('n'))]),
            Action::PageDown => Some(vec![plain_key(KeyCode::PageDown), plain_key(KeyCode::Char(' ')), mod_key(KeyCode::Char('f'), true, false, false)]),
            Action::PageUp => Some(vec![plain_key(KeyCode::PageUp), mod_key(KeyCode::Char('b'), true, false, false)]),
            Action::PreviousMatch => Some(vec![plain_key(KeyCode::Char('N'))]),
            Action::Right => Some(vec![plain_key(KeyCode::Char('l')), plain_key(KeyCode::Right)]),
            Action::Up => Some(vec![plain_key(KeyCode::Char('k')), plain_key(KeyCode::Up)]),
            Action::Wrap => Some(vec![plain_key(KeyCode::Char('w'))]),
            _ => None,
        },
        Scope::Drain => match a {
            Action::Down => Some(vec![plain_key(KeyCode::Tab), plain_key(KeyCode::Down)]),
            Action::Up => Some(vec![plain_key(KeyCode::BackTab), plain_key(KeyCode::Up)]),
            Action::Toggle => Some(vec![plain_key(KeyCode::Char(' '))]),
            Action::PageUp => Some(vec![plain_key(KeyCode::PageUp)]),
            Action::PageDown => Some(vec![plain_key(KeyCode::PageDown)]),
            _ => None,
        },
        Scope::Events => match a {
            Action::Back => Some(vec![plain_key(KeyCode::Esc)]),
            Action::Close => Some(vec![plain_key(KeyCode::Char('q'))]),
            Action::Copy => Some(vec![plain_key(KeyCode::Char('c'))]),
            Action::Down => Some(vec![plain_key(KeyCode::Char('j')), plain_key(KeyCode::Down)]),
            Action::Filter => Some(vec![plain_key(KeyCode::Char('/'))]),
            Action::First => Some(vec![plain_key(KeyCode::Char('g')), plain_key(KeyCode::Home)]),
            Action::Fullscreen => Some(vec![plain_key(KeyCode::Char('F'))]),
            Action::Last => Some(vec![plain_key(KeyCode::Char('G')), plain_key(KeyCode::End)]),
            Action::Left => Some(vec![plain_key(KeyCode::Char('h')), plain_key(KeyCode::Left)]),
            Action::NextMatch => Some(vec![plain_key(KeyCode::Char('n'))]),
            Action::PageDown => Some(vec![plain_key(KeyCode::PageDown), plain_key(KeyCode::Char(' ')), mod_key(KeyCode::Char('f'), true, false, false)]),
            Action::PageUp => Some(vec![plain_key(KeyCode::PageUp), mod_key(KeyCode::Char('b'), true, false, false)]),
            Action::PreviousMatch => Some(vec![plain_key(KeyCode::Char('N'))]),
            Action::Right => Some(vec![plain_key(KeyCode::Char('l')), plain_key(KeyCode::Right)]),
            Action::Up => Some(vec![plain_key(KeyCode::Char('k')), plain_key(KeyCode::Up)]),
            Action::Wrap => Some(vec![plain_key(KeyCode::Char('w'))]),
            _ => None,
        },
        Scope::Explain => match a {
            Action::Accept => Some(vec![plain_key(KeyCode::Enter)]),
            Action::AutoRefresh => Some(vec![plain_key(KeyCode::Char('R'))]),
            Action::Back => Some(vec![plain_key(KeyCode::Esc)]),
            Action::Close => Some(vec![plain_key(KeyCode::Char('q'))]),
            Action::Down => Some(vec![plain_key(KeyCode::Char('j')), plain_key(KeyCode::Down)]),
            Action::Events => Some(vec![plain_key(KeyCode::Char('E'))]),
            Action::First => Some(vec![plain_key(KeyCode::Char('g')), plain_key(KeyCode::Home)]),
            Action::Last => Some(vec![plain_key(KeyCode::Char('G')), plain_key(KeyCode::End)]),
            Action::Logs => Some(vec![plain_key(KeyCode::Char('l'))]),
            Action::Refresh => Some(vec![plain_key(KeyCode::Char('r'))]),
            Action::Up => Some(vec![plain_key(KeyCode::Char('k')), plain_key(KeyCode::Up)]),
            _ => None,
        },
        Scope::Find => match a {
            Action::Accept => Some(vec![plain_key(KeyCode::Enter)]),
            Action::Back => Some(vec![plain_key(KeyCode::Esc)]),
            Action::Close => Some(vec![plain_key(KeyCode::Char('q'))]),
            Action::Down => Some(vec![plain_key(KeyCode::Char('j')), plain_key(KeyCode::Down)]),
            Action::First => Some(vec![plain_key(KeyCode::Char('g')), plain_key(KeyCode::Home)]),
            Action::Last => Some(vec![plain_key(KeyCode::Char('G')), plain_key(KeyCode::End)]),
            Action::Up => Some(vec![plain_key(KeyCode::Char('k')), plain_key(KeyCode::Up)]),
            _ => None,
        },
        Scope::Fleet => match a {
            Action::Accept => Some(vec![plain_key(KeyCode::Enter)]),
            Action::Back => Some(vec![plain_key(KeyCode::Esc)]),
            Action::Close => Some(vec![plain_key(KeyCode::Char('q'))]),
            Action::Down => Some(vec![plain_key(KeyCode::Char('j')), plain_key(KeyCode::Down)]),
            Action::Refresh => Some(vec![plain_key(KeyCode::Char('r'))]),
            Action::Up => Some(vec![plain_key(KeyCode::Char('k')), plain_key(KeyCode::Up)]),
            _ => None,
        },
        Scope::FluxMenu => match a {
            Action::Accept => Some(vec![plain_key(KeyCode::Enter)]),
            Action::Back => Some(vec![plain_key(KeyCode::Esc)]),
            Action::Close => Some(vec![plain_key(KeyCode::Char('q'))]),
            Action::Down => Some(vec![plain_key(KeyCode::Char('j')), plain_key(KeyCode::Down)]),
            Action::Up => Some(vec![plain_key(KeyCode::Char('k')), plain_key(KeyCode::Up)]),
            Action::PageDown => Some(vec![plain_key(KeyCode::PageDown)]),
            Action::PageUp => Some(vec![plain_key(KeyCode::PageUp)]),
            _ => None,
        },
        Scope::Gitops => match a {
            Action::Accept => Some(vec![plain_key(KeyCode::Enter)]),
            Action::Back => Some(vec![plain_key(KeyCode::Esc)]),
            Action::Close => Some(vec![plain_key(KeyCode::Char('q'))]),
            Action::Down => Some(vec![plain_key(KeyCode::Char('j')), plain_key(KeyCode::Down)]),
            Action::First => Some(vec![plain_key(KeyCode::Char('g')), plain_key(KeyCode::Home)]),
            Action::Last => Some(vec![plain_key(KeyCode::Char('G')), plain_key(KeyCode::End)]),
            Action::Refresh => Some(vec![plain_key(KeyCode::Char('r'))]),
            Action::Up => Some(vec![plain_key(KeyCode::Char('k')), plain_key(KeyCode::Up)]),
            _ => None,
        },
        Scope::Help => match a {
            Action::Back => Some(vec![plain_key(KeyCode::Esc)]),
            Action::Close => Some(vec![plain_key(KeyCode::Char('q')), plain_key(KeyCode::Char('?'))]),
            Action::Down => Some(vec![plain_key(KeyCode::Char('j')), plain_key(KeyCode::Down)]),
            Action::Filter => Some(vec![plain_key(KeyCode::Char('/'))]),
            Action::First => Some(vec![plain_key(KeyCode::Char('g')), plain_key(KeyCode::Home)]),
            Action::Last => Some(vec![plain_key(KeyCode::Char('G')), plain_key(KeyCode::End)]),
            Action::PageDown => Some(vec![plain_key(KeyCode::PageDown), plain_key(KeyCode::Char(' ')), mod_key(KeyCode::Char('f'), true, false, false)]),
            Action::PageUp => Some(vec![plain_key(KeyCode::PageUp), mod_key(KeyCode::Char('b'), true, false, false)]),
            Action::Up => Some(vec![plain_key(KeyCode::Char('k')), plain_key(KeyCode::Up)]),
            _ => None,
        },
        Scope::Logs => match a {
            Action::Anchor0 => Some(vec![plain_key(KeyCode::Char('0'))]),
            Action::Anchor1 => Some(vec![plain_key(KeyCode::Char('1'))]),
            Action::Anchor2 => Some(vec![plain_key(KeyCode::Char('2'))]),
            Action::Anchor3 => Some(vec![plain_key(KeyCode::Char('3'))]),
            Action::Anchor4 => Some(vec![plain_key(KeyCode::Char('4'))]),
            Action::Anchor5 => Some(vec![plain_key(KeyCode::Char('5'))]),
            Action::Back => Some(vec![plain_key(KeyCode::Esc)]),
            Action::Clear => Some(vec![plain_key(KeyCode::Char('z'))]),
            Action::Close => Some(vec![plain_key(KeyCode::Char('q'))]),
            Action::Copy => Some(vec![plain_key(KeyCode::Char('c'))]),
            Action::Down => Some(vec![plain_key(KeyCode::Char('j')), plain_key(KeyCode::Down)]),
            Action::Filter => Some(vec![plain_key(KeyCode::Char('/'))]),
            Action::First => Some(vec![plain_key(KeyCode::Char('g')), plain_key(KeyCode::Home)]),
            Action::Follow => Some(vec![plain_key(KeyCode::Char('s')), plain_key(KeyCode::Char('f'))]),
            Action::Fullscreen => Some(vec![plain_key(KeyCode::Char('F'))]),
            Action::Last => Some(vec![plain_key(KeyCode::Char('G')), plain_key(KeyCode::End)]),
            Action::Lookback => Some(vec![plain_key(KeyCode::Char('T'))]),
            Action::LogMarker => Some(vec![plain_key(KeyCode::Char('m'))]),
            Action::LogWarnings => Some(vec![mod_key(KeyCode::Char('z'), true, false, false)]),
            Action::PageDown => Some(vec![plain_key(KeyCode::PageDown), plain_key(KeyCode::Char(' '))]),
            Action::PageUp => Some(vec![plain_key(KeyCode::PageUp)]),
            Action::Save => Some(vec![mod_key(KeyCode::Char('s'), true, false, false)]),
            Action::Stream => Some(vec![plain_key(KeyCode::Char('x'))]),
            Action::Json => Some(vec![plain_key(KeyCode::Char('J'))]),
            Action::Timestamps => Some(vec![plain_key(KeyCode::Char('t'))]),
            Action::Up => Some(vec![plain_key(KeyCode::Char('k')), plain_key(KeyCode::Up)]),
            Action::Wrap => Some(vec![plain_key(KeyCode::Char('w'))]),
            _ => None,
        },
        Scope::Namespaces => match a {
            Action::Down => Some(vec![plain_key(KeyCode::Down)]),
            Action::Up => Some(vec![plain_key(KeyCode::Up)]),
            Action::PageDown => Some(vec![plain_key(KeyCode::PageDown)]),
            Action::PageUp => Some(vec![plain_key(KeyCode::PageUp)]),
            _ => None,
        },
        Scope::PluginForm => match a {
            Action::Down => Some(vec![plain_key(KeyCode::Tab), plain_key(KeyCode::Down)]),
            Action::Left => Some(vec![plain_key(KeyCode::Left)]),
            Action::Right => Some(vec![plain_key(KeyCode::Right)]),
            Action::Up => Some(vec![plain_key(KeyCode::BackTab), plain_key(KeyCode::Up)]),
            _ => None,
        },
        Scope::PortForwardPicker => match a {
            Action::Accept => Some(vec![plain_key(KeyCode::Enter)]),
            Action::Back => Some(vec![plain_key(KeyCode::Esc)]),
            Action::Close => Some(vec![plain_key(KeyCode::Char('q'))]),
            Action::Down => Some(vec![plain_key(KeyCode::Char('j')), plain_key(KeyCode::Down)]),
            Action::Edit => Some(vec![plain_key(KeyCode::Char('e'))]),
            Action::Toggle => Some(vec![plain_key(KeyCode::Char('x'))]),
            Action::Up => Some(vec![plain_key(KeyCode::Char('k')), plain_key(KeyCode::Up)]),
            Action::PageDown => Some(vec![plain_key(KeyCode::PageDown)]),
            Action::PageUp => Some(vec![plain_key(KeyCode::PageUp)]),
            _ => None,
        },
        Scope::PortForwards => match a {
            Action::Back => Some(vec![plain_key(KeyCode::Esc)]),
            Action::Close => Some(vec![plain_key(KeyCode::Char('q'))]),
            Action::Down => Some(vec![plain_key(KeyCode::Char('j')), plain_key(KeyCode::Down)]),
            Action::Start => Some(vec![plain_key(KeyCode::Enter)]),
            Action::Toggle => Some(vec![plain_key(KeyCode::Char('x')), plain_key(KeyCode::Char('s'))]),
            Action::Up => Some(vec![plain_key(KeyCode::Char('k')), plain_key(KeyCode::Up)]),
            _ => None,
        },
        Scope::Prompt => match a {
            Action::PageDown => Some(vec![plain_key(KeyCode::PageDown)]),
            Action::PageUp => Some(vec![plain_key(KeyCode::PageUp)]),
            _ => None,
        },
        Scope::Pulse => match a {
            Action::Back => Some(vec![plain_key(KeyCode::Esc)]),
            Action::Close => Some(vec![plain_key(KeyCode::Char('q'))]),
            Action::Refresh => Some(vec![plain_key(KeyCode::Char('r'))]),
            _ => None,
        },
        Scope::PvcExplore => match a {
            Action::Accept => Some(vec![plain_key(KeyCode::Enter)]),
            Action::Back => Some(vec![plain_key(KeyCode::Esc)]),
            Action::Close => Some(vec![plain_key(KeyCode::Char('q'))]),
            Action::Copy => Some(vec![plain_key(KeyCode::Char('c'))]),
            Action::Down => Some(vec![plain_key(KeyCode::Char('j')), plain_key(KeyCode::Down)]),
            Action::First => Some(vec![plain_key(KeyCode::Char('g')), plain_key(KeyCode::Home)]),
            Action::Last => Some(vec![plain_key(KeyCode::Char('G')), plain_key(KeyCode::End)]),
            Action::Left => Some(vec![plain_key(KeyCode::Left)]),
            Action::Parent => Some(vec![plain_key(KeyCode::Backspace), plain_key(KeyCode::Char('-'))]),
            Action::Refresh => Some(vec![plain_key(KeyCode::Char('r'))]),
            Action::Right => Some(vec![plain_key(KeyCode::Right)]),
            Action::Shell => Some(vec![plain_key(KeyCode::Char('s'))]),
            Action::SwitchPane => Some(vec![plain_key(KeyCode::Tab), plain_key(KeyCode::BackTab)]),
            Action::Up => Some(vec![plain_key(KeyCode::Char('k')), plain_key(KeyCode::Up)]),
            _ => None,
        },
        Scope::SetImage => match a {
            Action::Accept => Some(vec![plain_key(KeyCode::Enter)]),
            Action::Back => Some(vec![plain_key(KeyCode::Esc)]),
            Action::Close => Some(vec![plain_key(KeyCode::Char('q'))]),
            Action::Down => Some(vec![plain_key(KeyCode::Char('j')), plain_key(KeyCode::Down)]),
            Action::Up => Some(vec![plain_key(KeyCode::Char('k')), plain_key(KeyCode::Up)]),
            Action::PageDown => Some(vec![plain_key(KeyCode::PageDown)]),
            Action::PageUp => Some(vec![plain_key(KeyCode::PageUp)]),
            _ => None,
        },
        Scope::Skins => match a {
            Action::Accept => Some(vec![plain_key(KeyCode::Enter)]),
            Action::Back => Some(vec![plain_key(KeyCode::Esc)]),
            Action::Close => Some(vec![plain_key(KeyCode::Char('q'))]),
            Action::Down => Some(vec![plain_key(KeyCode::Char('j')), plain_key(KeyCode::Down)]),
            Action::Up => Some(vec![plain_key(KeyCode::Char('k')), plain_key(KeyCode::Up)]),
            Action::PageDown => Some(vec![plain_key(KeyCode::PageDown)]),
            Action::PageUp => Some(vec![plain_key(KeyCode::PageUp)]),
            _ => None,
        },
        Scope::Snapshots => match a {
            Action::Accept => Some(vec![plain_key(KeyCode::Enter)]),
            Action::Back => Some(vec![plain_key(KeyCode::Esc)]),
            Action::Close => Some(vec![plain_key(KeyCode::Char('q'))]),
            Action::Delete => Some(vec![plain_key(KeyCode::Char('d'))]),
            Action::Down => Some(vec![plain_key(KeyCode::Char('j')), plain_key(KeyCode::Down)]),
            Action::Up => Some(vec![plain_key(KeyCode::Char('k')), plain_key(KeyCode::Up)]),
            Action::PageDown => Some(vec![plain_key(KeyCode::PageDown)]),
            Action::PageUp => Some(vec![plain_key(KeyCode::PageUp)]),
            _ => None,
        },
        Scope::SortPicker => match a {
            Action::Down => Some(vec![plain_key(KeyCode::Down), mod_key(KeyCode::Char('n'), true, false, false)]),
            Action::Up => Some(vec![plain_key(KeyCode::Up), mod_key(KeyCode::Char('p'), true, false, false)]),
            Action::PageDown => Some(vec![plain_key(KeyCode::PageDown)]),
            Action::PageUp => Some(vec![plain_key(KeyCode::PageUp)]),
            _ => None,
        },
        Scope::Table => match a {
            Action::ActionMenu => Some(vec![plain_key(KeyCode::Char('t'))]),
            Action::Adjacent => Some(vec![plain_key(KeyCode::Char('u'))]),
            Action::AllNamespaces => Some(vec![plain_key(KeyCode::Char('0'))]),
            Action::FavoriteNamespace1 => Some(vec![plain_key(KeyCode::Char('1'))]),
            Action::FavoriteNamespace2 => Some(vec![plain_key(KeyCode::Char('2'))]),
            Action::FavoriteNamespace3 => Some(vec![plain_key(KeyCode::Char('3'))]),
            Action::FavoriteNamespace4 => Some(vec![plain_key(KeyCode::Char('4'))]),
            Action::FavoriteNamespace5 => Some(vec![plain_key(KeyCode::Char('5'))]),
            Action::FavoriteNamespace6 => Some(vec![plain_key(KeyCode::Char('6'))]),
            Action::FavoriteNamespace7 => Some(vec![plain_key(KeyCode::Char('7'))]),
            Action::FavoriteNamespace8 => Some(vec![plain_key(KeyCode::Char('8'))]),
            Action::FavoriteNamespace9 => Some(vec![plain_key(KeyCode::Char('9'))]),
            Action::Attach => Some(vec![plain_key(KeyCode::Char('a'))]),
            Action::Back => Some(vec![plain_key(KeyCode::Esc)]),
            Action::CopyCell => Some(vec![plain_key(KeyCode::Char('Y'))]),
            Action::CopyName => Some(vec![plain_key(KeyCode::Char('c'))]),
            Action::Cordon => Some(vec![plain_key(KeyCode::Char('C'))]),
            Action::Delete => Some(vec![mod_key(KeyCode::Char('d'), true, false, false)]),
            Action::Describe => Some(vec![plain_key(KeyCode::Char('d'))]),
            Action::Down => Some(vec![plain_key(KeyCode::Char('j')), plain_key(KeyCode::Down)]),
            Action::Drain => Some(vec![plain_key(KeyCode::Char('D'))]),
            Action::Edit => Some(vec![plain_key(KeyCode::Char('e'))]),
            Action::Events => Some(vec![plain_key(KeyCode::Char('E'))]),
            Action::Exit => Some(vec![plain_key(KeyCode::Char('q'))]),
            Action::Explain => Some(vec![plain_key(KeyCode::Char('X'))]),
            Action::Faults => Some(vec![mod_key(KeyCode::Char('z'), true, false, false)]),
            Action::Filter => Some(vec![plain_key(KeyCode::Char('/'))]),
            Action::First => Some(vec![plain_key(KeyCode::Char('g')), plain_key(KeyCode::Home)]),
            Action::ForceDelete => Some(vec![mod_key(KeyCode::Char('k'), true, false, false)]),
            Action::HistoryBack => Some(vec![plain_key(KeyCode::Char('['))]),
            Action::HistoryForward => Some(vec![plain_key(KeyCode::Char(']'))]),
            Action::Inspect => Some(vec![plain_key(KeyCode::Char('x'))]),
            Action::InvertSort => Some(vec![plain_key(KeyCode::Char('I'))]),
            Action::Last => Some(vec![plain_key(KeyCode::Char('G')), plain_key(KeyCode::End)]),
            Action::Left => Some(vec![plain_key(KeyCode::Left)]),
            Action::Logs => Some(vec![plain_key(KeyCode::Char('l'))]),
            Action::Mark => Some(vec![plain_key(KeyCode::Char(' '))]),
            Action::RangeDown => Some(vec![mod_key(KeyCode::Down, false, false, true)]),
            Action::RangeUp => Some(vec![mod_key(KeyCode::Up, false, false, true)]),
            Action::Namespaces => Some(vec![plain_key(KeyCode::Char('n'))]),
            Action::NamespaceSelected => Some(vec![plain_key(KeyCode::Char('W'))]),
            Action::NextView => Some(vec![plain_key(KeyCode::Tab)]),
            Action::Node => Some(vec![plain_key(KeyCode::Char('o'))]),
            Action::Open => Some(vec![plain_key(KeyCode::Enter)]),
            Action::Owner => Some(vec![plain_key(KeyCode::Char('J'))]),
            Action::PageDown => Some(vec![plain_key(KeyCode::PageDown), mod_key(KeyCode::Char('f'), true, false, false)]),
            Action::PageUp => Some(vec![plain_key(KeyCode::PageUp), mod_key(KeyCode::Char('b'), true, false, false)]),
            Action::PortForward => Some(vec![plain_key(KeyCode::Char('f')), plain_key(KeyCode::Char('F'))]),
            Action::PreviousLogs => Some(vec![plain_key(KeyCode::Char('p'))]),
            Action::PreviousView => Some(vec![plain_key(KeyCode::BackTab)]),
            Action::ProviderLogs => Some(vec![plain_key(KeyCode::Char('L'))]),
            Action::Refresh => Some(vec![mod_key(KeyCode::Char('r'), true, false, false)]),
            Action::RestartOrRefresh => Some(vec![plain_key(KeyCode::Char('r'))]),
            Action::Right => Some(vec![plain_key(KeyCode::Right)]),
            Action::SetImage => Some(vec![plain_key(KeyCode::Char('i'))]),
            Action::ShellOrScale => Some(vec![plain_key(KeyCode::Char('s'))]),
            Action::Sort => Some(vec![plain_key(KeyCode::Char('S'))]),
            Action::SortAge => Some(vec![plain_key(KeyCode::Char('A'))]),
            Action::Timeline => Some(vec![plain_key(KeyCode::Char('T'))]),
            Action::Uncordon => Some(vec![plain_key(KeyCode::Char('U'))]),
            Action::Up => Some(vec![plain_key(KeyCode::Char('k')), plain_key(KeyCode::Up)]),
            Action::Wide => Some(vec![plain_key(KeyCode::Char('w'))]),
            Action::Yaml => Some(vec![plain_key(KeyCode::Char('y'))]),
            _ => None,
        },
        Scope::Timeline => match a {
            Action::Back => Some(vec![plain_key(KeyCode::Esc)]),
            Action::Close => Some(vec![plain_key(KeyCode::Char('q'))]),
            Action::Down => Some(vec![plain_key(KeyCode::Char('j')), plain_key(KeyCode::Down)]),
            Action::First => Some(vec![plain_key(KeyCode::Char('g')), plain_key(KeyCode::Home)]),
            Action::Last => Some(vec![plain_key(KeyCode::Char('G')), plain_key(KeyCode::End)]),
            Action::Up => Some(vec![plain_key(KeyCode::Char('k')), plain_key(KeyCode::Up)]),
            _ => None,
        },
        Scope::TransferMenu => match a {
            Action::Accept => Some(vec![plain_key(KeyCode::Enter)]),
            Action::Back => Some(vec![plain_key(KeyCode::Esc)]),
            Action::Close => Some(vec![plain_key(KeyCode::Char('q'))]),
            Action::Down => Some(vec![plain_key(KeyCode::Char('j')), plain_key(KeyCode::Down)]),
            Action::Up => Some(vec![plain_key(KeyCode::Char('k')), plain_key(KeyCode::Up)]),
            Action::PageDown => Some(vec![plain_key(KeyCode::PageDown)]),
            Action::PageUp => Some(vec![plain_key(KeyCode::PageUp)]),
            _ => None,
        },
        Scope::Xray => match a {
            Action::Back => Some(vec![plain_key(KeyCode::Esc)]),
            Action::Close => Some(vec![plain_key(KeyCode::Char('q'))]),
            Action::Down => Some(vec![plain_key(KeyCode::Char('j')), plain_key(KeyCode::Down)]),
            Action::First => Some(vec![plain_key(KeyCode::Char('g')), plain_key(KeyCode::Home)]),
            Action::Last => Some(vec![plain_key(KeyCode::Char('G')), plain_key(KeyCode::End)]),
            Action::Logs => Some(vec![plain_key(KeyCode::Enter), plain_key(KeyCode::Char('l'))]),
            Action::Refresh => Some(vec![plain_key(KeyCode::Char('r'))]),
            Action::Up => Some(vec![plain_key(KeyCode::Char('k')), plain_key(KeyCode::Up)]),
            _ => None,
        },
        _ => None,
    }
}

/// Every scope has a place below `SCOPE_COUNT`, and that place holds it.
pub proof fn lemma_scope_rank(s: Scope)
    ensures
        scope_rank(s) < SCOPE_COUNT,
        scope_at(scope_rank(s)) == s,
{
}

/// Every action has a place below `ACTION_COUNT`, and that place holds it.
pub proof fn lemma_action_rank(a: Action)
    ensures
        action_rank(a) < ACTION_COUNT,
        action_at(action_rank(a)) == a,
{
}

/// The place of the action in place `i` is `i`.
pub proof fn lemma_action_at(i: nat)
    requires
        i < ACTION_COUNT,
    ensures
        action_rank(action_at(i)) == i,
{
}

/// The place of the scope in place `i` is `i`.
pub proof fn law_scope_at_round_trips(i: nat)
    requires
        i < SCOPE_COUNT,
    ensures
        scope_rank(scope_at(i)) == i,
{
}

/// Scopes where text is typed: they take the input-editing keys, and the
/// navigation group leaves them alone.
pub open spec fn is_text_scope(s: Scope) -> bool {
    match s {
        Scope::Drain | Scope::Command | Scope::Filter | Scope::LogFilter | Scope::DocFilter
        | Scope::Prompt | Scope::PluginForm | Scope::SortPicker | Scope::CopyPicker
        | Scope::Namespaces | Scope::ContextFilter => true,
        _ => false,
    }
}

/// Scopes that show a view: the command palette and help open from them.
pub open spec fn is_view_scope(s: Scope) -> bool {
    match s {
        Scope::Table | Scope::Detail | Scope::Logs | Scope::Help | Scope::Containers | Scope::Confirm
        | Scope::Pulse | Scope::Xray | Scope::Explain | Scope::Timeline | Scope::Gitops
        | Scope::Argocd | Scope::Adjacent | Scope::Diff | Scope::Events | Scope::FluxMenu
        | Scope::TransferMenu | Scope::PortForwards | Scope::Skins | Scope::Snapshots
        | Scope::Fleet | Scope::Find | Scope::PvcExplore => true,
        _ => false,
    }
}

/// The keys every scope binds to an action.
pub open spec fn global_keys(a: Action) -> Option<Seq<KeyChord>> {
    match a {
        Action::Quit => Some(seq![mk(KeyCode::Char('c'), true, false, false)]),
        Action::Compact => Some(seq![mk(KeyCode::Char('e'), true, false, false)]),
        Action::PluginActivity => Some(seq![mk(KeyCode::Char('t'), true, true, false)]),
        _ => None,
    }
}

/// The text-editing keys every text scope binds to an action.
pub open spec fn input_keys(a: Action) -> Option<Seq<KeyChord>> {
    match a {
        Action::Back => Some(seq![pk(KeyCode::Esc)]),
        Action::Backspace => Some(seq![pk(KeyCode::Backspace)]),
        Action::Accept => Some(seq![pk(KeyCode::Enter)]),
        Action::ClearLine => Some(seq![mk(KeyCode::Char('u'), true, false, false)]),
        Action::DeleteWord => Some(
            seq![
                mk(KeyCode::Char('w'), true, false, false),
                mk(KeyCode::Backspace, false, true, false),
                mk(KeyCode::Backspace, true, false, false),
            ],
        ),
        _ => None,
    }
}

/// The actions the `navigation` group sets.
pub open spec fn is_navigation(a: Action) -> bool {
    match a {
        Action::Up | Action::Down | Action::First | Action::Last | Action::PageUp | Action::PageDown
        | Action::Left | Action::Right | Action::Back | Action::Close | Action::Command
        | Action::Help => true,
        _ => false,
    }
}

/// The command palette actions whose own keys win over text editing.
pub open spec fn is_completion(a: Action) -> bool {
    match a {
        Action::Down | Action::Up | Action::Accept | Action::Complete => true,
        _ => false,
    }
}

/// The keys an action has in a scope before Shift variants are added: the
/// palette and help keys of view scopes, then the global keys, then the
/// editing keys of text scopes, then the scope's own table.
pub open spec fn base_keys(s: Scope, a: Action) -> Option<Seq<KeyChord>> {
    if is_view_scope(s) && a == Action::Command {
        Some(seq![pk(KeyCode::Char(':'))])
    } else if is_view_scope(s) && s != Scope::Help && a == Action::Help {
        Some(seq![pk(KeyCode::Char('?'))])
    } else if global_keys(a) is Some {
        global_keys(a)
    } else if is_text_scope(s) && input_keys(a) is Some {
        input_keys(a)
    } else {
        default_keys(s, a)
    }
}

/// A raw navigation key that also answers with Shift held. In the table,
/// Shift with Up or Down selects a range instead.
pub open spec fn is_shiftable(s: Scope, c: KeyChord) -> bool {
    &&& !c.ctrl && !c.alt && !c.shift
    &&& !(s == Scope::Table && (c.code == KeyCode::Up || c.code == KeyCode::Down))
    &&& match c.code {
        KeyCode::Up | KeyCode::Down | KeyCode::Left | KeyCode::Right | KeyCode::PageUp
        | KeyCode::PageDown | KeyCode::Home | KeyCode::End => true,
        _ => false,
    }
}

/// The Shift variants of the shiftable chords of `cs`, in order.
pub open spec fn shifted_of(s: Scope, cs: Seq<KeyChord>) -> Seq<KeyChord>
    decreases cs.len(),
{
    if cs.len() == 0 {
        Seq::empty()
    } else {
        let r = shifted_of(s, cs.drop_last());
        if is_shiftable(s, cs.last()) {
            r.push(KeyChord { shift: true, ..cs.last() })
        } else {
            r
        }
    }
}

/// `cs` followed by its Shift variants, except in the command palette.
pub open spec fn with_shifted(s: Scope, cs: Seq<KeyChord>) -> Seq<KeyChord> {
    if s == Scope::Command {
        cs
    } else {
        cs + shifted_of(s, cs)
    }
}

/// The keys an action has by default in a scope, if it is bound there.
pub open spec fn default_slot(s: Scope, a: Action) -> Option<Seq<KeyChord>> {
    match base_keys(s, a) {
        Some(cs) => Some(with_shifted(s, cs)),
        None => None,
    }
}

/// Bindings by scope place and action place: the keys of each action bound
/// in each scope.
pub type KeymapView = Seq<Seq<Option<Seq<KeyChord>>>>;

/// The default bindings.
pub open spec fn default_view() -> KeymapView {
    Seq::new(SCOPE_COUNT as nat, |i: int| Seq::new(ACTION_COUNT as nat, |j: int| default_slot(scope_at(i as nat), action_at(j as nat))))
}

/// The keys of `a` in the scope named `scope`, if it is bound there.
pub open spec fn bound_in(v: KeymapView, scope: Seq<char>, a: Action) -> Option<Seq<KeyChord>> {
    match scope_named(scope) {
        Some(s) => v[scope_rank(s) as int][action_rank(a) as int],
        None => None,
    }
}

/// The chords of an optional binding; none when unbound.
pub open spec fn chords_or_none(o: Option<Seq<KeyChord>>) -> Seq<KeyChord> {
    match o {
        Some(cs) => cs,
        None => Seq::empty(),
    }
}

/// The labels of `cs` joined by ` / `.
pub open spec fn joined_labels(cs: Seq<KeyChord>) -> Seq<char>
    decreases cs.len(),
{
    if cs.len() == 0 {
        Seq::empty()
    } else if cs.len() == 1 {
        chord_label(cs[0])
    } else {
        joined_labels(cs.drop_last()) + " / "@ + chord_label(cs.last())
    }
}

/// Every key of a binding as help shows it; `unbound` when it has none.
pub open spec fn all_label(cs: Seq<KeyChord>) -> Seq<char> {
    if cs.len() == 0 {
        "unbound"@
    } else {
        joined_labels(cs)
    }
}

/// The first key of a binding as hints show it; `unbound` when it has none.
pub open spec fn first_label(cs: Seq<KeyChord>) -> Seq<char> {
    if cs.len() == 0 {
        "unbound"@
    } else {
        chord_label(cs[0])
    }
}

/// The label of an optional binding.
pub open spec fn label_of(o: Option<Seq<KeyChord>>, first: bool) -> Seq<char> {
    match o {
        Some(cs) => if first { first_label(cs) } else { all_label(cs) },
        None => "unbound"@,
    }
}

/// The keys of one binding, with the labels help and hints show for them.
#[derive(Clone, Debug, PartialEq, Eq)]
pub struct Slot {
    chords: Vec<KeyChord>,
    first: String,
    all: String,
}

impl Slot {
    /// The keys of this binding.
    pub closed spec fn keys(&self) -> Seq<KeyChord> {
        self.chords@
    }

    /// The labels agree with the keys.
    pub closed spec fn wf(&self) -> bool {
        &&& self.first@ == first_label(self.chords@)
        &&& self.all@ == all_label(self.chords@)
    }

    /// A binding of `chords`, with their labels.
    fn new(chords: Vec<KeyChord>) -> (r: Slot)
        ensures
            r.keys() == chords@,
            r.wf(),
    {
        let first = if chords.len() == 0 {
            String::from_str("unbound")
        } else {
            chords[0].label()
        };
        let mut all = String::new();
        let mut k: usize = 0;
        while k < chords.len()
            invariant
                k <= chords@.len(),
                all@ == joined_labels(chords@.take(k as int)),
            decreases chords@.len() - k,
        {
            if k > 0 {
                all.append(" / ");
            }
            let l = chords[k].label();
            all.append(l.as_str());
            proof {
                let t = chords@.take(k + 1);
                assert(t.drop_last() =~= chords@.take(k as int));
                if k == 0 {
                    assert(all@ =~= chord_label(chords@[0]));
                } else {
                    assert(all@ =~= joined_labels(t.drop_last()) + " / "@ + chord_label(t.last()));
                }
            }
            k = k + 1;
        }
        assert(chords@.take(chords@.len() as int) =~= chords@);
        if chords.len() == 0 {
            all = String::from_str("unbound");
        }
        Slot { chords, first, all }
    }
}

/// The keys of an optional binding.
pub open spec fn slot_view(o: Option<Slot>) -> Option<Seq<KeyChord>> {
    match o {
        Some(sl) => Some(sl.keys()),
        None => None,
    }
}

/// The bindings of one scope, by action place.
pub open spec fn row_view(row: Seq<Option<Slot>>) -> Seq<Option<Seq<KeyChord>>> {
    row.map_values(|o: Option<Slot>| slot_view(o))
}

/// Each scope's bindings by action, whether the confirm prompt takes any
/// other key as its cancel, and the notes configuration left.
#[derive(Debug, PartialEq, Eq)]
pub struct Keymap {
    slots: Vec<Vec<Option<Slot>>>,
    cancel_any: bool,
    warnings: Vec<String>,
}

/// Every row has a place for every action and every label agrees with its
/// keys.
pub open spec fn slots_wf(slots: Seq<Vec<Option<Slot>>>) -> bool {
    &&& slots.len() == SCOPE_COUNT
    &&& forall|i: int| 0 <= i < SCOPE_COUNT ==> #[trigger] slots[i]@.len() == ACTION_COUNT
    &&& forall|i: int, j: int|
        0 <= i < SCOPE_COUNT && 0 <= j < ACTION_COUNT && (#[trigger] slots[i]@[j]) is Some ==> slots[i]@[j]->0.wf()
}

/// The bindings of rows of places.
pub open spec fn rows_view(slots: Seq<Vec<Option<Slot>>>) -> KeymapView {
    slots.map_values(|row: Vec<Option<Slot>>| row_view(row@))
}

impl Keymap {
    /// The bindings.
    pub closed spec fn view(&self) -> KeymapView {
        rows_view(self.slots@)
    }

    /// Whether the confirm prompt takes any unbound key as its cancel.
    pub closed spec fn cancels_any(&self) -> bool {
        self.cancel_any
    }

    /// The notes configuration left.
    pub closed spec fn notes(&self) -> Seq<Seq<char>> {
        texts(self.warnings@)
    }

    #[verifier::type_invariant]
    closed spec fn wf(&self) -> bool {
        slots_wf(self.slots@)
    }
}

fn is_text_scope_of(s: Scope) -> (r: bool)
    ensures
        r == is_text_scope(s),
{
    match s {
        Scope::Drain | Scope::Command | Scope::Filter | Scope::LogFilter | Scope::DocFilter
        | Scope::Prompt | Scope::PluginForm | Scope::SortPicker | Scope::CopyPicker
        | Scope::Namespaces | Scope::ContextFilter => true,
        _ => false,
    }
}

fn is_view_scope_of(s: Scope) -> (r: bool)
    ensures
        r == is_view_scope(s),
{
    match s {
        Scope::Table | Scope::Detail | Scope::Logs | Scope::Help | Scope::Containers | Scope::Confirm
        | Scope::Pulse | Scope::Xray | Scope::Explain | Scope::Timeline | Scope::Gitops
        | Scope::Argocd | Scope::Adjacent | Scope::Diff | Scope::Events | Scope::FluxMenu
        | Scope::TransferMenu | Scope::PortForwards | Scope::Skins | Scope::Snapshots
        | Scope::Fleet | Scope::Find | Scope::PvcExplore => true,
        _ => false,
    }
}

fn global_keys_of(a: Action) -> (r: Option<Vec<KeyChord>>)
    ensures
        opt_chords(r) == global_keys(a),
{
    match a {
        Action::Quit => Some(vec![mod_key(KeyCode::Char('c'), true, false, false)]),
        Action::Compact => Some(vec![mod_key(KeyCode::Char('e'), true, false, false)]),
        Action::PluginActivity => Some(vec![mod_key(KeyCode::Char('t'), true, true, false)]),
        _ => None,
    }
}

fn input_keys_of(a: Action) -> (r: Option<Vec<KeyChord>>)
    ensures
        opt_chords(r) == input_keys(a),
{
    match a {
        Action::Back => Some(vec![plain_key(KeyCode::Esc)]),
        Action::Backspace => Some(vec![plain_key(KeyCode::Backspace)]),
        Action::Accept => Some(vec![plain_key(KeyCode::Enter)]),
        Action::ClearLine => Some(vec![mod_key(KeyCode::Char('u'), true, false, false)]),
        Action::DeleteWord => Some(
            vec![
                mod_key(KeyCode::Char('w'), true, false, false),
                mod_key(KeyCode::Backspace, false, true, false),
                mod_key(KeyCode::Backspace, true, false, false),
            ],
        ),
        _ => None,
    }
}

fn base_keys_of(s: Scope, a: Action) -> (r: Option<Vec<KeyChord>>)
    ensures
        opt_chords(r) == base_keys(s, a),
{
    let view = is_view_scope_of(s);
    if view && a == Action::Command {
        Some(vec![plain_key(KeyCode::Char(':'))])
    } else if view && s != Scope::Help && a == Action::Help {
        Some(vec![plain_key(KeyCode::Char('?'))])
    } else {
        let g = global_keys_of(a);
        if g.is_some() {
            return g;
        }
        if is_text_scope_of(s) {
            let t = input_keys_of(a);
            if t.is_some() {
                return t;
            }
        }
        default_keys_of(s, a)
    }
}

fn is_shiftable_of(s: Scope, c: KeyChord) -> (r: bool)
    ensures
        r == is_shiftable(s, c),
{
    if c.ctrl || c.alt || c.shift {
        return false;
    }
    if s == Scope::Table && (c.code == KeyCode::Up || c.code == KeyCode::Down) {
        return false;
    }
    match c.code {
        KeyCode::Up | KeyCode::Down | KeyCode::Left | KeyCode::Right | KeyCode::PageUp
        | KeyCode::PageDown | KeyCode::Home | KeyCode::End => true,
        _ => false,
    }
}

fn with_shifted_of(s: Scope, cs: Vec<KeyChord>) -> (r: Vec<KeyChord>)
    ensures
        r@ == with_shifted(s, cs@),
{
    if s == Scope::Command {
        return cs;
    }
    let mut extra: Vec<KeyChord> = Vec::new();
    let mut k: usize = 0;
    while k < cs.len()
        invariant
            k <= cs@.len(),
            extra@ == shifted_of(s, cs@.take(k as int)),
        decreases cs@.len() - k,
    {
        let c = cs[k];
        proof {
            assert(cs@.take(k + 1).drop_last() =~= cs@.take(k as int));
        }
        if is_shiftable_of(s, c) {
            extra.push(KeyChord { shift: true, ..c });
        }
        k = k + 1;
    }
    assert(cs@.take(cs@.len() as int) =~= cs@);
    let mut out = cs;
    let ghost start = out@;
    let mut m: usize = 0;
    while m < extra.len()
        invariant
            m <= extra@.len(),
            out@ == start + extra@.take(m as int),
        decreases extra@.len() - m,
    {
        out.push(extra[m]);
        proof {
            assert(start + extra@.take(m + 1) =~= (start + extra@.take(m as int)).push(extra@[m as int]));
        }
        m = m + 1;
    }
    assert(extra@.take(extra@.len() as int) =~= extra@);
    out
}

/// A row of `ACTION_COUNT` places whose first `n` hold the default keys of
/// scope `s`.
spec fn default_row_upto(row: Seq<Option<Slot>>, s: Scope, n: int) -> bool {
    &&& row.len() == n
    &&& forall|j: int| 0 <= j < n ==> #[trigger] slot_view(row[j]) == default_slot(s, action_at(j as nat))
    &&& forall|j: int| 0 <= j < n && (#[trigger] row[j]) is Some ==> row[j]->0.wf()
}

fn default_row(s: Scope) -> (r: Vec<Option<Slot>>)
    ensures
        default_row_upto(r@, s, ACTION_COUNT as int),
{
    let mut row: Vec<Option<Slot>> = Vec::new();
    let mut j: usize = 0;
    while j < ACTION_COUNT
        invariant
            j <= ACTION_COUNT,
            default_row_upto(row@, s, j as int),
        decreases ACTION_COUNT - j,
    {
        let a = Action::at(j);
        match base_keys_of(s, a) {
            Some(cs) => {
                let all = with_shifted_of(s, cs);
                row.push(Some(Slot::new(all)));
            },
            None => {
                row.push(None);
            },
        }
        proof {
            assert(slot_view(row@[j as int]) == default_slot(s, action_at(j as nat)));
        }
        j = j + 1;
    }
    row
}

fn default_slots() -> (r: Vec<Vec<Option<Slot>>>)
    ensures
        rows_view(r@) == default_view(),
        slots_wf(r@),
{
    let mut slots: Vec<Vec<Option<Slot>>> = Vec::new();
    let mut i: usize = 0;
    while i < SCOPE_COUNT
        invariant
            i <= SCOPE_COUNT,
            slots@.len() == i,
            forall|k: int| 0 <= k < i ==> default_row_upto(#[trigger] slots@[k]@, scope_at(k as nat), ACTION_COUNT as int),
        decreases SCOPE_COUNT - i,
    {
        let row = default_row(Scope::at(i));
        slots.push(row);
        i = i + 1;
    }
    proof {
        assert forall|k: int| 0 <= k < SCOPE_COUNT implies #[trigger] rows_view(slots@)[k] =~= default_view()[k] by {
            assert(default_row_upto(slots@[k]@, scope_at(k as nat), ACTION_COUNT as int));
        }
        assert(rows_view(slots@) =~= default_view());
    }
    slots
}

impl Default for Keymap {
    /// The built-in bindings; the confirm prompt takes any unbound key as
    /// its cancel.
    fn default() -> (r: Self)
        ensures
            r@ == default_view(),
            r.cancels_any(),
            r.notes() == Seq::<Seq<char>>::empty(),
    {
        let slots = default_slots();
        let warnings: Vec<String> = Vec::new();
        let r = Keymap { slots, cancel_any: true, warnings };
        assert(r.notes() =~= Seq::<Seq<char>>::empty());
        r
    }
}

/// Whether some chord of `cs` is `key`.
pub open spec fn matches_any(cs: Seq<KeyChord>, key: KeyPress) -> bool {
    exists|i: int| 0 <= i < cs.len() && chord_identity(#[trigger] cs[i]) == press_identity(key)
}

/// The first of the first `n` actions of a scope's bindings that `key` is
/// bound to.
pub open spec fn first_bound(row: Seq<Option<Seq<KeyChord>>>, key: KeyPress, n: int) -> Option<Action>
    decreases n,
{
    if n <= 0 {
        None
    } else {
        match first_bound(row, key, n - 1) {
            Some(a) => Some(a),
            None => if row[n - 1] is Some && matches_any(row[n - 1]->0, key) {
                Some(action_at((n - 1) as nat))
            } else {
                None
            },
        }
    }
}

/// The action `key` triggers in the scope named `scope`: the first bound to
/// it; else, in the confirm prompt when it takes any key as its cancel,
/// `back`.
pub open spec fn key_action(v: KeymapView, cancel_any: bool, scope: Seq<char>, key: KeyPress) -> Option<Action> {
    match scope_named(scope) {
        None => None,
        Some(s) => match first_bound(v[scope_rank(s) as int], key, ACTION_COUNT as int) {
            Some(a) => Some(a),
            None => if s == Scope::Confirm && cancel_any {
                Some(Action::Back)
            } else {
                None
            },
        },
    }
}

/// The bindings of the first `n` actions of a scope, as (scope name,
/// action, keys), in action order.
pub open spec fn row_entries(s: Scope, row: Seq<Option<Seq<KeyChord>>>, n: int) -> Seq<(Seq<char>, Action, Seq<KeyChord>)>
    decreases n,
{
    if n <= 0 {
        Seq::empty()
    } else {
        let r = row_entries(s, row, n - 1);
        match row[n - 1] {
            Some(cs) => r.push((scope_name(s), action_at((n - 1) as nat), cs)),
            None => r,
        }
    }
}

/// The bindings of the first `n` scopes, scope by scope.
pub open spec fn entries_upto(v: KeymapView, n: int) -> Seq<(Seq<char>, Action, Seq<KeyChord>)>
    decreases n,
{
    if n <= 0 {
        Seq::empty()
    } else {
        entries_upto(v, n - 1) + row_entries(scope_at((n - 1) as nat), v[n - 1], ACTION_COUNT as int)
    }
}

/// Bound actions among the first `n` of a scope's row.
pub open spec fn bound_count(row: Seq<Option<Seq<KeyChord>>>, n: int) -> int
    decreases n,
{
    if n <= 0 {
        0
    } else {
        bound_count(row, n - 1) + if row[n - 1] is Some { 1int } else { 0int }
    }
}

/// Bindings in the first `s` scopes of `v`, then the first `i` actions of
/// scope `s`: where the binding of action `i` in scope `s` is listed.
pub open spec fn bindings_before(v: KeymapView, s: int, i: int) -> int
    decreases s,
{
    if s <= 0 {
        bound_count(v[0], i)
    } else {
        bindings_before(v, s - 1, ACTION_COUNT as int) + bound_count(v[s], i)
    }
}

proof fn lemma_bound_count_mono(row: Seq<Option<Seq<KeyChord>>>, i: int, j: int)
    requires
        0 <= i <= j,
    ensures
        bound_count(row, i) <= bound_count(row, j),
        j > i && row[i] is Some ==> bound_count(row, i) < bound_count(row, j),
    decreases j - i,
{
    if i < j {
        lemma_bound_count_mono(row, i, j - 1);
    }
}

proof fn lemma_row_entries(s: Scope, row: Seq<Option<Seq<KeyChord>>>, n: int)
    requires
        0 <= n,
    ensures
        row_entries(s, row, n).len() == bound_count(row, n),
        forall|i: int|
            0 <= i < n && (#[trigger] row[i]) is Some ==> row_entries(s, row, n)[bound_count(row, i)] == (
                scope_name(s),
                action_at(i as nat),
                row[i]->0,
            ),
    decreases n,
{
    if n > 0 {
        lemma_row_entries(s, row, n - 1);
        assert forall|i: int|
            0 <= i < n && (#[trigger] row[i]) is Some implies row_entries(s, row, n)[bound_count(row, i)] == (
                scope_name(s),
                action_at(i as nat),
                row[i]->0,
            ) by {
            let r = row_entries(s, row, n - 1);
            lemma_bound_count_mono(row, 0, i);
            if i < n - 1 {
                lemma_bound_count_mono(row, i, n - 1);
                assert(bound_count(row, i) < r.len());
                if row[n - 1] is Some {
                    assert(row_entries(s, row, n) == r.push((scope_name(s), action_at((n - 1) as nat), row[n - 1]->0)));
                }
            } else {
                assert(row_entries(s, row, n) == r.push((scope_name(s), action_at((n - 1) as nat), row[n - 1]->0)));
                assert(bound_count(row, i) == r.len());
            }
        }
    }
}

proof fn lemma_entries_upto(v: KeymapView, n: int)
    requires
        0 <= n <= SCOPE_COUNT,
        v.len() == SCOPE_COUNT,
    ensures
        entries_upto(v, n).len() == if n == 0 { 0 } else { bindings_before(v, n - 1, ACTION_COUNT as int) },
        forall|s: int, i: int|
            0 <= s < n && 0 <= i < ACTION_COUNT && (#[trigger] v[s][i]) is Some ==> entries_upto(v, n)[bindings_before(v, s, i)]
                == (scope_name(scope_at(s as nat)), action_at(i as nat), v[s][i]->0),
    decreases n,
{
    if n > 0 {
        lemma_entries_upto(v, n - 1);
        lemma_row_entries(scope_at((n - 1) as nat), v[n - 1], ACTION_COUNT as int);
        let prev = entries_upto(v, n - 1);
        let row = row_entries(scope_at((n - 1) as nat), v[n - 1], ACTION_COUNT as int);
        assert forall|s: int, i: int|
            0 <= s < n && 0 <= i < ACTION_COUNT && (#[trigger] v[s][i]) is Some implies entries_upto(v, n)[bindings_before(v, s, i)]
                == (scope_name(scope_at(s as nat)), action_at(i as nat), v[s][i]->0) by {
            assert(entries_upto(v, n) == prev + row);
            lemma_bindings_nonneg(v, s, i);
            if s < n - 1 {
                lemma_bound_count_mono(v[s], i, ACTION_COUNT as int);
                if s > 0 {
                    assert(bindings_before(v, s, i) == bindings_before(v, s - 1, ACTION_COUNT as int) + bound_count(v[s], i));
                    assert(bindings_before(v, s, ACTION_COUNT as int) == bindings_before(v, s - 1, ACTION_COUNT as int) + bound_count(v[s], ACTION_COUNT as int));
                }
                lemma_bindings_mono(v, s, n - 2);
                assert(bindings_before(v, s, i) < prev.len());
                assert((prev + row)[bindings_before(v, s, i)] == prev[bindings_before(v, s, i)]);
            } else {
                assert(s == n - 1);
                assert(v[n - 1][i] is Some);
                let c = bound_count(v[n - 1], i);
                lemma_bound_count_mono(v[n - 1], i, ACTION_COUNT as int);
                lemma_bound_count_mono(v[n - 1], 0, i);
                if n - 1 > 0 {
                    assert(bindings_before(v, s, i) == bindings_before(v, n - 2, ACTION_COUNT as int) + c);
                } else {
                    assert(bindings_before(v, s, i) == c);
                }
                assert(bindings_before(v, s, i) == prev.len() + c);
                assert(c < row.len());
                assert((prev + row)[prev.len() + c] == row[c]);
            }
        }
    }
}

proof fn lemma_bindings_nonneg(v: KeymapView, s: int, i: int)
    requires
        0 <= s,
        0 <= i,
    ensures
        bindings_before(v, s, i) >= 0,
    decreases s,
{
    lemma_bound_count_mono(v[s], 0, i);
    if s > 0 {
        lemma_bindings_nonneg(v, s - 1, ACTION_COUNT as int);
    }
}

proof fn lemma_bindings_mono(v: KeymapView, s: int, t: int)
    requires
        0 <= s <= t,
    ensures
        bindings_before(v, s, ACTION_COUNT as int) <= bindings_before(v, t, ACTION_COUNT as int),
    decreases t - s,
{
    if s < t {
        lemma_bindings_mono(v, s, t - 1);
        assert(bound_count(v[t], ACTION_COUNT as int) >= 0) by {
            lemma_bound_count_mono(v[t], 0, ACTION_COUNT as int);
        }
    }
}

/// Every binding, by scope and then by action.
pub open spec fn all_entries(v: KeymapView) -> Seq<(Seq<char>, Action, Seq<KeyChord>)> {
    entries_upto(v, SCOPE_COUNT as int)
}

/// `entries` lists every bound (scope, action) with its keys once, scope by
/// scope and then action by action: the binding of action `i` in scope `s`
/// stands after exactly the bindings that come before it in that order,
/// and nothing else is listed.
pub proof fn law_entries_list_each_binding_once_in_order(v: KeymapView)
    requires
        v.len() == SCOPE_COUNT,
    ensures
        all_entries(v).len() == bindings_before(v, SCOPE_COUNT - 1, ACTION_COUNT as int),
        forall|s: int, i: int|
            0 <= s < SCOPE_COUNT && 0 <= i < ACTION_COUNT && (#[trigger] v[s][i]) is Some ==> all_entries(v)[bindings_before(v, s, i)]
                == (scope_name(scope_at(s as nat)), action_at(i as nat), v[s][i]->0),
        forall|s: int, i: int, t: int, j: int|
            0 <= s < SCOPE_COUNT && 0 <= i < ACTION_COUNT && 0 <= t < SCOPE_COUNT && 0 <= j < ACTION_COUNT && (s < t || (s
                == t && i < j)) && (#[trigger] v[s][i]) is Some && (#[trigger] v[t][j]) is Some ==> bindings_before(v, s, i)
                < bindings_before(v, t, j),
{
    lemma_entries_upto(v, SCOPE_COUNT as int);
    assert forall|s: int, i: int, t: int, j: int|
        0 <= s < SCOPE_COUNT && 0 <= i < ACTION_COUNT && 0 <= t < SCOPE_COUNT && 0 <= j < ACTION_COUNT && (s < t || (s
            == t && i < j)) && (#[trigger] v[s][i]) is Some && (#[trigger] v[t][j]) is Some implies bindings_before(v, s, i)
            < bindings_before(v, t, j) by {
        if s == t {
            lemma_bound_count_mono(v[s], i, j);
        } else {
            lemma_bound_count_mono(v[s], i, ACTION_COUNT as int);
            lemma_bindings_mono(v, s, t - 1);
            lemma_bound_count_mono(v[t], 0, j);
            if s > 0 {
                assert(bindings_before(v, s, i) == bindings_before(v, s - 1, ACTION_COUNT as int) + bound_count(v[s], i));
                assert(bindings_before(v, s, ACTION_COUNT as int) == bindings_before(v, s - 1, ACTION_COUNT as int) + bound_count(v[s], ACTION_COUNT as int));
            }
            assert(bindings_before(v, t, j) == bindings_before(v, t - 1, ACTION_COUNT as int) + bound_count(v[t], j));
        }
    }
}

/// The texts of listed entries.
pub open spec fn entries_view(e: Seq<(&'static str, Action, &[KeyChord])>) -> Seq<(Seq<char>, Action, Seq<KeyChord>)> {
    e.map_values(|x: (&'static str, Action, &[KeyChord])| (x.0@, x.1, x.2@))
}

fn same_chords(a: &Vec<KeyChord>, b: &Vec<KeyChord>) -> (r: bool)
    ensures
        r == (a@ == b@),
{
    if a.len() != b.len() {
        return false;
    }
    let mut k: usize = 0;
    while k < a.len()
        invariant
            a@.len() == b@.len(),
            k <= a@.len(),
            forall|i: int| 0 <= i < k ==> a@[i] == b@[i],
        decreases a@.len() - k,
    {
        if a[k] != b[k] {
            return false;
        }
        k = k + 1;
    }
    assert(a@ =~= b@);
    true
}

impl Keymap {
    fn slot_at(&self, s: Scope, a: Action) -> (r: &Option<Slot>)
        ensures
            slot_view(*r) == self@[scope_rank(s) as int][action_rank(a) as int],
            r is Some ==> r->0.wf(),
    {
        proof {
            use_type_invariant(self);
            lemma_scope_rank(s);
            lemma_action_rank(a);
        }
        &self.slots[s.rank()][a.rank() as usize]
    }

    /// The keys bound to `action` in the scope named `scope`; none when it
    /// is unbound there.
    pub fn chords(&self, scope: &str, action: Action) -> (r: &[KeyChord])
        ensures
            r@ == chords_or_none(bound_in(self@, scope@, action)),
    {
        match Scope::named(scope) {
            Some(s) => match self.slot_at(s, action) {
                Some(sl) => sl.chords.as_slice(),
                None => &[],
            },
            None => &[],
        }
    }

    /// Whether the scope named `scope` binds `action`, to keys or to none.
    pub fn binds(&self, scope: &str, action: Action) -> (r: bool)
        ensures
            r == (bound_in(self@, scope@, action) is Some),
    {
        match Scope::named(scope) {
            Some(s) => self.slot_at(s, action).is_some(),
            None => false,
        }
    }

    /// Every key bound to `action` in the scope named `scope`, as help shows
    /// them: labels joined by ` / `, or `unbound`.
    pub fn label(&self, scope: &str, action: Action) -> (r: &str)
        ensures
            r@ == label_of(bound_in(self@, scope@, action), false),
    {
        match Scope::named(scope) {
            Some(s) => match self.slot_at(s, action) {
                Some(sl) => sl.all.as_str(),
                None => "unbound",
            },
            None => "unbound",
        }
    }

    /// The first key bound to `action` in the scope named `scope`, as hints
    /// show it, or `unbound`.
    pub fn first_label(&self, scope: &str, action: Action) -> (r: &str)
        ensures
            r@ == label_of(bound_in(self@, scope@, action), true),
    {
        match Scope::named(scope) {
            Some(s) => match self.slot_at(s, action) {
                Some(sl) => sl.first.as_str(),
                None => "unbound",
            },
            None => "unbound",
        }
    }

    /// The notes configuration left.
    pub fn warnings(&self) -> (r: &[String])
        ensures
            texts(r@) == self.notes(),
    {
        self.warnings.as_slice()
    }

    /// What a mouse wheel step does in the scope named `scope`: move down
    /// or up, except in the confirm prompt, where it cancels when any key
    /// does.
    pub fn wheel_action(&self, scope: &str, down: bool) -> (r: Option<Action>)
        ensures
            r == if scope@ == "confirm"@ {
                if self.cancels_any() { Some(Action::Back) } else { None }
            } else {
                Some(if down { Action::Down } else { Action::Up })
            },
    {
        let n = String::from_str(scope);
        if same_text(&n, "confirm") {
            if self.cancel_any { Some(Action::Back) } else { None }
        } else {
            Some(if down { Action::Down } else { Action::Up })
        }
    }

    /// The action `key` triggers in the scope named `scope`.
    pub fn action(&self, scope: &str, key: &KeyPress) -> (r: Option<Action>)
        ensures
            r == key_action(self@, self.cancels_any(), scope@, *key),
    {
        let s = match Scope::named(scope) {
            Some(s) => s,
            None => {
                return None;
            },
        };
        proof {
            use_type_invariant(self);
            lemma_scope_rank(s);
        }
        let row = &self.slots[s.rank()];
        let ghost rv = self@[scope_rank(s) as int];
        assert(rv == row_view(row@));
        let mut j: usize = 0;
        while j < ACTION_COUNT
            invariant
                j <= ACTION_COUNT,
                row@.len() == ACTION_COUNT,
                rv == row_view(row@),
                first_bound(rv, *key, j as int) is None,
                rv == self@[scope_rank(s) as int],
                scope_named(scope@) == Some(s),
            decreases ACTION_COUNT - j,
        {
            if let Some(sl) = &row[j] {
                let mut k: usize = 0;
                while k < sl.chords.len()
                    invariant
                        k <= sl.chords@.len(),
                        j < ACTION_COUNT,
                        row@.len() == ACTION_COUNT,
                        rv == row_view(row@),
                        row@[j as int] == Some(*sl),
                        first_bound(rv, *key, j as int) is None,
                        rv == self@[scope_rank(s) as int],
                        scope_named(scope@) == Some(s),
                        forall|i: int| 0 <= i < k ==> chord_identity(#[trigger] sl.chords@[i]) != press_identity(*key),
                    decreases sl.chords@.len() - k,
                {
                    if sl.chords[k].matches(key) {
                        proof {
                            lemma_action_at(j as nat);
                            assert(rv.len() == ACTION_COUNT);
                            assert(row@[j as int] == Some(*sl));
                            assert(rv[j as int] == slot_view(row@[j as int]));
                            assert(rv[j as int] == Some(sl.chords@));
                            assert(matches_any(sl.chords@, *key));
                        }
                        let a = Action::at(j);
                        proof {
                            assert(first_bound(rv, *key, j as int + 1) == Some(action_at(j as nat)));
                            lemma_first_bound_settles(rv, *key, j as int + 1, ACTION_COUNT as int);
                        }
                        return Some(a);
                    }
                    k = k + 1;
                }
                assert(!matches_any(sl.chords@, *key));
            }
            j = j + 1;
        }
        if s == Scope::Confirm && self.cancel_any {
            Some(Action::Back)
        } else {
            None
        }
    }

    /// Every binding as (scope, action, keys), by scope and then by action.
    pub fn entries(&self) -> (r: Vec<(&'static str, Action, &[KeyChord])>)
        ensures
            entries_view(r@) == all_entries(self@),
    {
        proof {
            use_type_invariant(self);
        }
        let mut out: Vec<(&'static str, Action, &[KeyChord])> = Vec::new();
        let mut i: usize = 0;
        while i < SCOPE_COUNT
            invariant
                i <= SCOPE_COUNT,
                slots_wf(self.slots@),
                entries_view(out@) == entries_upto(self@, i as int),
            decreases SCOPE_COUNT - i,
        {
            let s = Scope::at(i);
            let name = s.name();
            let row = &self.slots[i];
            let ghost rv = self@[i as int];
            let ghost before = entries_view(out@);
            assert(rv == row_view(row@));
            let mut j: usize = 0;
            while j < ACTION_COUNT
                invariant
                    j <= ACTION_COUNT,
                    row@.len() == ACTION_COUNT,
                    rv == row_view(row@),
                    name@ == scope_name(s),
                    entries_view(out@) == before + row_entries(s, rv, j as int),
                decreases ACTION_COUNT - j,
            {
                if let Some(sl) = &row[j] {
                    let ghost prev = out@;
                    out.push((name, Action::at(j), sl.chords.as_slice()));
                    proof {
                        assert(entries_view(out@) =~= entries_view(prev).push((name@, action_at(j as nat), sl.chords@)));
                    }
                }
                j = j + 1;
            }
            i = i + 1;
        }
        out
    }

    /// Whether these are the built-in bindings, with the confirm prompt
    /// taking any key as its cancel.
    pub fn is_default(&self) -> (r: bool)
        ensures
            r == (self@ == default_view() && self.cancels_any()),
    {
        proof {
            use_type_invariant(self);
        }
        let d = Keymap::default();
        proof {
            use_type_invariant(&d);
        }
        if !self.cancel_any {
            return false;
        }
        let mut i: usize = 0;
        while i < SCOPE_COUNT
            invariant
                i <= SCOPE_COUNT,
                slots_wf(self.slots@),
                slots_wf(d.slots@),
                d@ == default_view(),
                forall|k: int| 0 <= k < i ==> #[trigger] self@[k] == d@[k],
            decreases SCOPE_COUNT - i,
        {
            let a = &self.slots[i];
            let b = &d.slots[i];
            assert(self@[i as int] == row_view(a@));
            assert(d@[i as int] == row_view(b@));
            let mut j: usize = 0;
            while j < ACTION_COUNT
                invariant
                    j <= ACTION_COUNT,
                    i < SCOPE_COUNT,
                    self@.len() == SCOPE_COUNT,
                    d@.len() == SCOPE_COUNT,
                    a@.len() == ACTION_COUNT,
                    b@.len() == ACTION_COUNT,
                    self@[i as int] == row_view(a@),
                    d@[i as int] == row_view(b@),
                    d@ == default_view(),
                    forall|k: int| 0 <= k < j ==> #[trigger] slot_view(a@[k]) == slot_view(b@[k]),
                decreases ACTION_COUNT - j,
            {
                let same = match (&a[j], &b[j]) {
                    (Some(x), Some(y)) => same_chords(&x.chords, &y.chords),
                    (None, None) => true,
                    _ => false,
                };
                if !same {
                    proof {
                        assert(self@[i as int][j as int] != d@[i as int][j as int]);
                    }
                    return false;
                }
                j = j + 1;
            }
            proof {
                assert(self@[i as int] =~= d@[i as int]);
            }
            i = i + 1;
        }
        assert(self@ =~= d@);
        true
    }
}

/// Once some action among the first `n` is found, more actions do not
/// change the first.
pub proof fn lemma_first_bound_settles(row: Seq<Option<Seq<KeyChord>>>, key: KeyPress, n: int, m: int)
    requires
        n <= m,
        first_bound(row, key, n) is Some,
    ensures
        first_bound(row, key, m) == first_bound(row, key, n),
    decreases m - n,
{
    if n < m {
        lemma_first_bound_settles(row, key, n, m - 1);
    }
}

/// One key of a list in `[keys]`: a string, or a value of another TOML
/// type, named as TOML names it (`integer`, `boolean`, ...).
#[derive(Clone, Debug, PartialEq, Eq)]
pub enum KeyItem {
    Text(String),
    Other(String),
}

/// The keys configuration gives an action: one string, a list, or a value
/// of another type.
#[derive(Clone, Debug, PartialEq, Eq)]
pub enum KeySetting {
    Text(String),
    List(Vec<KeyItem>),
    Other,
}

/// What `[keys]` gives a scope or group: a table of action names and keys,
/// in the order the table lists them, or a value of another type.
#[derive(Clone, Debug, PartialEq, Eq)]
pub enum ScopeSetting {
    Table(Vec<(String, KeySetting)>),
    Other,
}

/// The `[keys]` section: a table of scope and group names and their
/// settings, in the order the table lists them, or a value of another type.
#[derive(Clone, Debug, PartialEq, Eq)]
pub enum KeysConfig {
    Table(Vec<(String, ScopeSetting)>),
    Other,
}

/// Where a `[keys]` table applies: a group of scopes, or one scope.
#[derive(Clone, Copy, Debug, PartialEq, Eq, Structural)]
pub enum Target {
    /// Every scope, for the global actions.
    Global,
    /// The text scopes, for the editing actions.
    Input,
    /// The other scopes, for the navigation actions.
    Navigation,
    Scope(Scope),
}

/// The target `name` names.
pub open spec fn target_named(name: Seq<char>) -> Option<Target> {
    if name == "global"@ {
        Some(Target::Global)
    } else if name == "navigation"@ {
        Some(Target::Navigation)
    } else if name == "input"@ {
        Some(Target::Input)
    } else {
        match scope_named(name) {
            Some(s) => Some(Target::Scope(s)),
            None => None,
        }
    }
}

/// Whether setting `a` under target `t` sets it in scope `s`.
pub open spec fn applies(t: Target, s: Scope, a: Action) -> bool {
    match t {
        Target::Global => global_keys(a) is Some,
        Target::Input => is_text_scope(s) && input_keys(a) is Some,
        Target::Navigation => !is_text_scope(s) && is_navigation(a) && !(s == Scope::Confirm && a == Action::Back),
        Target::Scope(x) => x == s,
    }
}

/// The first of the first `n` actions bound in `row` whose name is `name`.
pub open spec fn bound_named(row: Seq<Option<Seq<KeyChord>>>, name: Seq<char>, n: int) -> Option<Action>
    decreases n,
{
    if n <= 0 {
        None
    } else {
        match bound_named(row, name, n - 1) {
            Some(a) => Some(a),
            None => if row[n - 1] is Some && action_name(action_at((n - 1) as nat)) == name {
                Some(action_at((n - 1) as nat))
            } else {
                None
            },
        }
    }
}

/// Whether a setting of the action named `name` under target `t` sets the
/// action in place `j` of the scope in place `i`: the scope binds an action
/// of that name by default, it is that one, and the target covers it.
pub open spec fn is_target(t: Target, name: Seq<char>, i: int, j: int) -> bool {
    &&& 0 <= i < SCOPE_COUNT
    &&& 0 <= j < ACTION_COUNT
    &&& bound_named(default_view()[i], name, ACTION_COUNT as int) == Some(action_at(j as nat))
    &&& applies(t, scope_at(i as nat), action_at(j as nat))
}

/// Whether a setting of the action named `name` under target `t` sets any
/// binding.
pub open spec fn has_target(t: Target, name: Seq<char>) -> bool {
    exists|i: int, j: int| is_target(t, name, i, j)
}

/// Whether chord `c` stands for the same key as some chord of `cs`.
pub open spec fn overlaps_any(c: KeyChord, cs: Seq<KeyChord>) -> bool {
    exists|i: int| 0 <= i < cs.len() && chords_overlap(c, #[trigger] cs[i])
}

/// One text of a list taken in: the key it spells is added unless one of
/// the same key is there, or an error is reported under `path`.
pub open spec fn text_step(acc: (Seq<KeyChord>, Seq<Seq<char>>), t: Seq<char>, path: Seq<char>) -> (Seq<KeyChord>, Seq<Seq<char>>) {
    match chord_of(t) {
        Some(c) => if overlaps_any(c, acc.0) {
            acc
        } else {
            (acc.0.push(c), acc.1)
        },
        None => (acc.0, acc.1.push(path + ": "@ + chord_error(t))),
    }
}

/// One item of a list taken in.
pub open spec fn item_step(acc: (Seq<KeyChord>, Seq<Seq<char>>), item: KeyItem, path: Seq<char>) -> (Seq<KeyChord>, Seq<Seq<char>>) {
    match item {
        KeyItem::Text(t) => text_step(acc, t@, path),
        KeyItem::Other(ty) => (acc.0, acc.1.push(path + ": expected a key string, got "@ + ty@)),
    }
}

/// The keys a list of items gives, each once however it is spelled, and
/// the errors for items that are no key, reported under `path`.
pub open spec fn parse_items(items: Seq<KeyItem>, path: Seq<char>) -> (Seq<KeyChord>, Seq<Seq<char>>)
    decreases items.len(),
{
    if items.len() == 0 {
        (Seq::empty(), Seq::empty())
    } else {
        item_step(parse_items(items.drop_last(), path), items.last(), path)
    }
}

/// The keys and errors of one action's setting.
pub open spec fn parse_setting(k: KeySetting, path: Seq<char>) -> (Seq<KeyChord>, Seq<Seq<char>>) {
    match k {
        KeySetting::Text(t) => text_step((Seq::empty(), Seq::empty()), t@, path),
        KeySetting::List(v) => parse_items(v@, path),
        KeySetting::Other => (Seq::empty(), seq![path + ": expected a key string or an array of key strings"@]),
    }
}

/// A setting found in `[keys]`: its target, the action name, and the keys.
pub type OverrideView = (Target, Seq<char>, Seq<KeyChord>);

/// The errors and settings of the first `n` actions of the table for
/// target `t`, named `scope`.
pub open spec fn actions_plan(t: Target, scope: Seq<char>, actions: Seq<(String, KeySetting)>, n: int) -> (Seq<Seq<char>>, Seq<OverrideView>)
    decreases n,
{
    if n <= 0 {
        (Seq::empty(), Seq::empty())
    } else {
        let (es, ovs) = actions_plan(t, scope, actions, n - 1);
        let (name, k) = actions[n - 1];
        let path = "keys."@ + scope + "."@ + name@;
        if !has_target(t, name@) {
            (es.push(path + ": unsupported action"@), ovs)
        } else {
            let (cs, kes) = parse_setting(k, path);
            (es + kes, ovs.push((t, name@, cs)))
        }
    }
}

/// The action a retired top-level setting was for.
pub open spec fn legacy_action(name: Seq<char>) -> Option<Action> {
    if name == "palette_next"@ {
        Some(Action::Down)
    } else if name == "palette_prev"@ {
        Some(Action::Up)
    } else if name == "palette_accept"@ {
        Some(Action::Accept)
    } else {
        None
    }
}

/// The note for a retired top-level setting.
pub open spec fn legacy_note(name: Seq<char>, a: Action) -> Seq<char> {
    "keys."@ + name + ": legacy setting ignored; move its value to [keys.command] "@ + action_name(a)
}

/// What one entry of `[keys]` gives: notes, errors and settings.
pub open spec fn entry_plan(name: Seq<char>, setting: ScopeSetting) -> (Seq<Seq<char>>, Seq<Seq<char>>, Seq<OverrideView>) {
    match legacy_action(name) {
        Some(a) => (seq![legacy_note(name, a)], Seq::empty(), Seq::empty()),
        None => match target_named(name) {
            None => (Seq::empty(), seq!["keys."@ + name + ": unknown scope"@], Seq::empty()),
            Some(t) => match setting {
                ScopeSetting::Other => (Seq::empty(), seq!["keys."@ + name + ": expected a table of actions"@], Seq::empty()),
                ScopeSetting::Table(actions) => {
                    let (es, ovs) = actions_plan(t, name, actions@, actions@.len() as int);
                    (Seq::empty(), es, ovs)
                },
            },
        },
    }
}

/// What the first `n` entries of `[keys]` give, in order.
pub open spec fn plan(entries: Seq<(String, ScopeSetting)>, n: int) -> (Seq<Seq<char>>, Seq<Seq<char>>, Seq<OverrideView>)
    decreases n,
{
    if n <= 0 {
        (Seq::empty(), Seq::empty(), Seq::empty())
    } else {
        let (ns, es, ovs) = plan(entries, n - 1);
        let (ns2, es2, ovs2) = entry_plan(entries[n - 1].0@, entries[n - 1].1);
        (ns + ns2, es + es2, ovs + ovs2)
    }
}

/// `v` with the bindings that setting `o` covers replaced by its keys.
pub open spec fn apply_one(v: KeymapView, o: OverrideView) -> KeymapView {
    Seq::new(SCOPE_COUNT as nat, |i: int| Seq::new(ACTION_COUNT as nat, |j: int| if is_target(o.0, o.1, i, j) { Some(o.2) } else { v[i][j] }))
}

/// Whether a target is a group of scopes.
pub open spec fn is_group(t: Target) -> bool {
    !(t is Scope)
}

/// `v` with the first `n` settings whose target is a group (or, when
/// `group` is false, a scope) applied in order.
pub open spec fn apply_all(v: KeymapView, ovs: Seq<OverrideView>, group: bool, n: int) -> KeymapView
    decreases n,
{
    if n <= 0 {
        v
    } else {
        let w = apply_all(v, ovs, group, n - 1);
        if is_group(ovs[n - 1].0) == group {
            apply_one(w, ovs[n - 1])
        } else {
            w
        }
    }
}

/// The default bindings with group settings applied, then scope settings,
/// whatever order the file gives them in.
pub open spec fn overridden(ovs: Seq<OverrideView>) -> KeymapView {
    apply_all(apply_all(default_view(), ovs, true, ovs.len() as int), ovs, false, ovs.len() as int)
}

/// The setting of the first entry named `key`.
pub open spec fn first_setting(entries: Seq<(String, ScopeSetting)>, key: Seq<char>, n: int) -> Option<ScopeSetting>
    decreases n,
{
    if n <= 0 {
        None
    } else {
        match first_setting(entries, key, n - 1) {
            Some(x) => Some(x),
            None => if entries[n - 1].0@ == key { Some(entries[n - 1].1) } else { None },
        }
    }
}

/// Whether a table of actions sets `name`.
pub open spec fn sets_name(acts: Seq<(String, KeySetting)>, name: Seq<char>) -> bool {
    exists|k: int| 0 <= k < acts.len() && (#[trigger] acts[k]).0@ == name
}

/// Whether the first entry named `key` is a table that sets `name`.
pub open spec fn table_sets(entries: Seq<(String, ScopeSetting)>, key: Seq<char>, name: Seq<char>) -> bool {
    match first_setting(entries, key, entries.len() as int) {
        Some(ScopeSetting::Table(acts)) => sets_name(acts@, name),
        _ => false,
    }
}

/// The keys of action `a` in the command palette when `[keys.command]`
/// sets it.
pub open spec fn scoped_keys(v: KeymapView, entries: Seq<(String, ScopeSetting)>, a: Action) -> Seq<KeyChord> {
    if table_sets(entries, "command"@, action_name(a)) {
        chords_or_none(v[scope_rank(Scope::Command) as int][action_rank(a) as int])
    } else {
        Seq::empty()
    }
}

/// The completion keys `[keys.command]` sets explicitly.
pub open spec fn completion_keys(v: KeymapView, entries: Seq<(String, ScopeSetting)>) -> Seq<KeyChord> {
    scoped_keys(v, entries, Action::Down) + scoped_keys(v, entries, Action::Up) + scoped_keys(v, entries, Action::Accept)
        + scoped_keys(v, entries, Action::Complete)
}

/// The chords of `cs` that stand for none of `drop`, in order.
pub open spec fn retain_clear(cs: Seq<KeyChord>, drop: Seq<KeyChord>) -> Seq<KeyChord>
    decreases cs.len(),
{
    if cs.len() == 0 {
        Seq::empty()
    } else {
        let r = retain_clear(cs.drop_last(), drop);
        if overlaps_any(cs.last(), drop) {
            r
        } else {
            r.push(cs.last())
        }
    }
}

/// The editing actions that explicit completion keys take keys from.
pub open spec fn is_edit(a: Action) -> bool {
    input_keys(a) is Some && !is_completion(a)
}

/// `v` with the command palette's editing keys cleared of the completion
/// keys `[keys.command]` sets explicitly.
pub open spec fn completed(v: KeymapView, entries: Seq<(String, ScopeSetting)>) -> KeymapView {
    let drop = completion_keys(v, entries);
    Seq::new(SCOPE_COUNT as nat, |i: int| Seq::new(ACTION_COUNT as nat, |j: int|
        if i == scope_rank(Scope::Command) && is_edit(action_at(j as nat)) && v[i][j] is Some {
            Some(retain_clear(v[i][j]->0, drop))
        } else {
            v[i][j]
        }))
}

/// Whether the confirm prompt takes any key as its cancel: unless
/// `[keys.confirm]` sets `back`.
pub open spec fn cancels_any_key(entries: Seq<(String, ScopeSetting)>) -> bool {
    !table_sets(entries, "confirm"@, "back"@)
}

/// The first chord of `cs` that stands for the same key as one of `others`.
pub open spec fn first_clash(cs: Seq<KeyChord>, others: Seq<KeyChord>) -> Option<KeyChord>
    decreases cs.len(),
{
    if cs.len() == 0 {
        None
    } else {
        match first_clash(cs.drop_last(), others) {
            Some(c) => Some(c),
            None => if overlaps_any(cs.last(), others) { Some(cs.last()) } else { None },
        }
    }
}

/// The conflict between the actions in places `i` and `j` of scope `s`, if
/// both are bound and share a key.
pub open spec fn clash_error(s: Scope, row: Seq<Option<Seq<KeyChord>>>, i: int, j: int) -> Seq<Seq<char>> {
    if row[i] is Some && row[j] is Some && first_clash(row[i]->0, row[j]->0) is Some {
        seq![
            "keys."@ + scope_name(s) + ": "@ + chord_label(first_clash(row[i]->0, row[j]->0)->0) + " conflicts between "@
                + action_name(action_at(i as nat)) + " and "@ + action_name(action_at(j as nat)),
        ]
    } else {
        Seq::empty()
    }
}

/// The conflicts of the action in place `i` with those in places after it
/// and before `n`.
pub open spec fn pair_errors(s: Scope, row: Seq<Option<Seq<KeyChord>>>, i: int, n: int) -> Seq<Seq<char>>
    decreases n - i,
{
    if n <= i + 1 {
        Seq::empty()
    } else {
        pair_errors(s, row, i, n - 1) + clash_error(s, row, i, n - 1)
    }
}

/// The conflicts of the first `m` actions of scope `s`.
pub open spec fn scope_errors(s: Scope, row: Seq<Option<Seq<KeyChord>>>, m: int) -> Seq<Seq<char>>
    decreases m,
{
    if m <= 0 {
        Seq::empty()
    } else {
        scope_errors(s, row, m - 1) + pair_errors(s, row, m - 1, ACTION_COUNT as int)
    }
}

/// The conflicts of the first `n` scopes.
pub open spec fn conflict_errors(v: KeymapView, n: int) -> Seq<Seq<char>>
    decreases n,
{
    if n <= 0 {
        Seq::empty()
    } else {
        conflict_errors(v, n - 1) + scope_errors(scope_at((n - 1) as nat), v[n - 1], ACTION_COUNT as int)
    }
}

/// What compiling `[keys]` gives: the bindings, whether the confirm prompt
/// takes any key as its cancel, and the notes; or the errors.
pub open spec fn compiled(cfg: KeysConfig) -> Result<(KeymapView, bool, Seq<Seq<char>>), Seq<Seq<char>>> {
    match cfg {
        KeysConfig::Other => Err(seq!["keys: expected a table"@]),
        KeysConfig::Table(entries) => {
            let (notes, errs, ovs) = plan(entries@, entries@.len() as int);
            let v = completed(overridden(ovs), entries@);
            let all = errs + conflict_errors(v, SCOPE_COUNT as int);
            if all.len() == 0 {
                Ok((v, cancels_any_key(entries@), notes))
            } else {
                Err(all)
            }
        },
    }
}

fn overlaps_any_of(c: &KeyChord, cs: &Vec<KeyChord>) -> (r: bool)
    ensures
        r == overlaps_any(*c, cs@),
{
    let mut k: usize = 0;
    while k < cs.len()
        invariant
            k <= cs@.len(),
            forall|i: int| 0 <= i < k ==> !chords_overlap(*c, #[trigger] cs@[i]),
        decreases cs@.len() - k,
    {
        if overlaps(c, &cs[k]) {
            return true;
        }
        k = k + 1;
    }
    false
}

fn joined(a: &str, b: &str) -> (r: String)
    ensures
        r@ == a@ + b@,
{
    let mut s = String::from_str(a);
    s.append(b);
    s
}

fn take_text(t: &str, path: &str, out: &mut Vec<KeyChord>, errors: &mut Vec<String>)
    ensures
        (final(out)@, texts(final(errors)@)) == text_step((old(out)@, texts(old(errors)@)), t@, path@),
{
    match KeyChord::parse(t) {
        Ok(c) => {
            if !overlaps_any_of(&c, out) {
                out.push(c);
            }
        },
        Err(e) => {
            let mut msg = joined(path, ": ");
            msg.append(e.as_str());
            push_text(errors, msg);
        },
    }
}

fn take_item(item: &KeyItem, path: &str, out: &mut Vec<KeyChord>, errors: &mut Vec<String>)
    ensures
        (final(out)@, texts(final(errors)@)) == item_step((old(out)@, texts(old(errors)@)), *item, path@),
{
    match item {
        KeyItem::Text(t) => take_text(t.as_str(), path, out, errors),
        KeyItem::Other(ty) => {
            let mut msg = joined(path, ": expected a key string, got ");
            msg.append(ty.as_str());
            push_text(errors, msg);
        },
    }
}

/// The keys a setting gives, each once however it is spelled; the errors
/// for what is no key are added to `errors`, reported under `path`.
pub fn parse_chords(spec: &KeySetting, path: &str, errors: &mut Vec<String>) -> (r: Vec<KeyChord>)
    ensures
        r@ == parse_setting(*spec, path@).0,
        texts(final(errors)@) == texts(old(errors)@) + parse_setting(*spec, path@).1,
{
    let ghost start = texts(errors@);
    let mut out: Vec<KeyChord> = Vec::new();
    match spec {
        KeySetting::Text(t) => {
            let mut mine: Vec<String> = Vec::new();
            take_text(t.as_str(), path, &mut out, &mut mine);
            append_texts(errors, &mine);
            assert(texts(mine@) =~= Seq::<Seq<char>>::empty() + parse_setting(*spec, path@).1);
        },
        KeySetting::List(items) => {
            let mut mine: Vec<String> = Vec::new();
            let mut k: usize = 0;
            while k < items.len()
                invariant
                    k <= items@.len(),
                    (out@, texts(mine@)) == parse_items(items@.take(k as int), path@),
                decreases items@.len() - k,
            {
                proof {
                    assert(items@.take(k + 1).drop_last() =~= items@.take(k as int));
                }
                take_item(&items[k], path, &mut out, &mut mine);
                k = k + 1;
            }
            assert(items@.take(items@.len() as int) =~= items@);
            append_texts(errors, &mine);
        },
        KeySetting::Other => {
            let msg = joined(path, ": expected a key string or an array of key strings");
            push_text(errors, msg);
            assert(texts(errors@) =~= start + seq![msg@]);
        },
    }
    out
}

fn append_texts(errors: &mut Vec<String>, more: &Vec<String>)
    ensures
        texts(final(errors)@) == texts(old(errors)@) + texts(more@),
{
    let ghost start = texts(errors@);
    let mut k: usize = 0;
    while k < more.len()
        invariant
            k <= more@.len(),
            texts(errors@) == start + texts(more@.take(k as int)),
        decreases more@.len() - k,
    {
        let m = more[k].clone();
        push_text(errors, m);
        proof {
            assert(start + texts(more@.take(k + 1)) =~= (start + texts(more@.take(k as int))).push(more@[k as int]@));
        }
        k = k + 1;
    }
    assert(more@.take(more@.len() as int) =~= more@);
}

fn named_in(base: &Vec<Vec<Option<Slot>>>, i: usize, name: &str) -> (r: Option<usize>)
    requires
        rows_view(base@) == default_view(),
        slots_wf(base@),
        i < SCOPE_COUNT,
    ensures
        match r {
            Some(j) => j < ACTION_COUNT && bound_named(default_view()[i as int], name@, ACTION_COUNT as int) == Some(action_at(j as nat)),
            None => bound_named(default_view()[i as int], name@, ACTION_COUNT as int) is None,
        },
{
    let row = &base[i];
    let ghost rv = default_view()[i as int];
    assert(rv == row_view(row@));
    let n = String::from_str(name);
    let mut j: usize = 0;
    while j < ACTION_COUNT
        invariant
            j <= ACTION_COUNT,
            row@.len() == ACTION_COUNT,
            rv == row_view(row@),
            rv == default_view()[i as int],
            n@ == name@,
            bound_named(rv, name@, j as int) is None,
        decreases ACTION_COUNT - j,
    {
        if row[j].is_some() {
            let a = Action::at(j);
            if same_text(&n, a.name()) {
                assert(bound_named(rv, name@, j + 1) == Some(action_at(j as nat)));
                proof {
                    lemma_bound_named_settles(rv, name@, j + 1, ACTION_COUNT as int);
                }
                return Some(j);
            }
        }
        j = j + 1;
    }
    None
}

/// Once some action among the first `n` has the name, more actions do not
/// change the first.
pub proof fn lemma_bound_named_settles(row: Seq<Option<Seq<KeyChord>>>, name: Seq<char>, n: int, m: int)
    requires
        n <= m,
        bound_named(row, name, n) is Some,
    ensures
        bound_named(row, name, m) == bound_named(row, name, n),
    decreases m - n,
{
    if n < m {
        lemma_bound_named_settles(row, name, n, m - 1);
    }
}

fn applies_of(t: Target, s: Scope, a: Action) -> (r: bool)
    ensures
        r == applies(t, s, a),
{
    match t {
        Target::Global => global_keys_of(a).is_some(),
        Target::Input => is_text_scope_of(s) && input_keys_of(a).is_some(),
        Target::Navigation => !is_text_scope_of(s) && is_navigation_of(a) && !(s == Scope::Confirm && a == Action::Back),
        Target::Scope(x) => x == s,
    }
}

fn is_navigation_of(a: Action) -> (r: bool)
    ensures
        r == is_navigation(a),
{
    match a {
        Action::Up | Action::Down | Action::First | Action::Last | Action::PageUp | Action::PageDown
        | Action::Left | Action::Right | Action::Back | Action::Close | Action::Command
        | Action::Help => true,
        _ => false,
    }
}

fn target_in(base: &Vec<Vec<Option<Slot>>>, t: Target, name: &str, i: usize) -> (r: Option<usize>)
    requires
        rows_view(base@) == default_view(),
        slots_wf(base@),
        i < SCOPE_COUNT,
    ensures
        match r {
            Some(j) => is_target(t, name@, i as int, j as int) && forall|j2: int| #[trigger]
                is_target(t, name@, i as int, j2) ==> j2 == j,
            None => forall|j: int| !is_target(t, name@, i as int, j),
        },
{
    match named_in(base, i, name) {
        Some(j) => {
            proof {
                lemma_action_at(j as nat);
                assert forall|j2: int| #[trigger] is_target(t, name@, i as int, j2) implies j2 == j by {
                    lemma_action_at(j2 as nat);
                }
            }
            if applies_of(t, Scope::at(i), Action::at(j)) {
                Some(j)
            } else {
                None
            }
        },
        None => None,
    }
}

fn has_target_of(base: &Vec<Vec<Option<Slot>>>, t: Target, name: &str) -> (r: bool)
    requires
        rows_view(base@) == default_view(),
        slots_wf(base@),
    ensures
        r == has_target(t, name@),
{
    let mut i: usize = 0;
    while i < SCOPE_COUNT
        invariant
            i <= SCOPE_COUNT,
            rows_view(base@) == default_view(),
            slots_wf(base@),
            forall|i2: int, j: int| 0 <= i2 < i ==> !is_target(t, name@, i2, j),
        decreases SCOPE_COUNT - i,
    {
        if target_in(base, t, name, i).is_some() {
            return true;
        }
        i = i + 1;
    }
    false
}

fn target_named_of(name: &str) -> (r: Option<Target>)
    ensures
        r == target_named(name@),
{
    let n = String::from_str(name);
    if same_text(&n, "global") {
        Some(Target::Global)
    } else if same_text(&n, "navigation") {
        Some(Target::Navigation)
    } else if same_text(&n, "input") {
        Some(Target::Input)
    } else {
        match Scope::named(name) {
            Some(s) => Some(Target::Scope(s)),
            None => None,
        }
    }
}

fn legacy_action_of(name: &str) -> (r: Option<Action>)
    ensures
        r == legacy_action(name@),
{
    let n = String::from_str(name);
    if same_text(&n, "palette_next") {
        Some(Action::Down)
    } else if same_text(&n, "palette_prev") {
        Some(Action::Up)
    } else if same_text(&n, "palette_accept") {
        Some(Action::Accept)
    } else {
        None
    }
}

/// A setting found in `[keys]`.
struct Override {
    target: Target,
    name: String,
    chords: Vec<KeyChord>,
}

spec fn override_view(o: Override) -> OverrideView {
    (o.target, o.name@, o.chords@)
}

spec fn overrides_view(v: Seq<Override>) -> Seq<OverrideView> {
    v.map_values(|o: Override| override_view(o))
}

fn plan_actions(
    base: &Vec<Vec<Option<Slot>>>,
    t: Target,
    scope: &str,
    actions: &Vec<(String, KeySetting)>,
    errors: &mut Vec<String>,
    ovs: &mut Vec<Override>,
)
    requires
        rows_view(base@) == default_view(),
        slots_wf(base@),
    ensures
        texts(final(errors)@) == texts(old(errors)@) + actions_plan(t, scope@, actions@, actions@.len() as int).0,
        overrides_view(final(ovs)@) == overrides_view(old(ovs)@) + actions_plan(t, scope@, actions@, actions@.len() as int).1,
{
    let ghost e0 = texts(errors@);
    let ghost o0 = overrides_view(ovs@);
    let mut k: usize = 0;
    while k < actions.len()
        invariant
            k <= actions@.len(),
            rows_view(base@) == default_view(),
            slots_wf(base@),
            texts(errors@) == e0 + actions_plan(t, scope@, actions@, k as int).0,
            overrides_view(ovs@) == o0 + actions_plan(t, scope@, actions@, k as int).1,
        decreases actions@.len() - k,
    {
        let name = &actions[k].0;
        let mut path = joined("keys.", scope);
        path.append(".");
        path.append(name.as_str());
        if !has_target_of(base, t, name.as_str()) {
            path.append(": unsupported action");
            push_text(errors, path);
            assert(texts(errors@) =~= e0 + actions_plan(t, scope@, actions@, k + 1).0);
        } else {
            let ghost before = texts(errors@);
            let chords = parse_chords(&actions[k].1, path.as_str(), errors);
            assert(texts(errors@) =~= e0 + actions_plan(t, scope@, actions@, k + 1).0);
            let ghost prev = ovs@;
            ovs.push(Override { target: t, name: name.clone(), chords });
            assert(overrides_view(ovs@) =~= overrides_view(prev).push(override_view(ovs@.last())));
            assert(overrides_view(ovs@) =~= o0 + actions_plan(t, scope@, actions@, k + 1).1);
        }
        k = k + 1;
    }
}

fn plan_entry(
    base: &Vec<Vec<Option<Slot>>>,
    name: &String,
    setting: &ScopeSetting,
    notes: &mut Vec<String>,
    errors: &mut Vec<String>,
    ovs: &mut Vec<Override>,
)
    requires
        rows_view(base@) == default_view(),
        slots_wf(base@),
    ensures
        texts(final(notes)@) == texts(old(notes)@) + entry_plan(name@, *setting).0,
        texts(final(errors)@) == texts(old(errors)@) + entry_plan(name@, *setting).1,
        overrides_view(final(ovs)@) == overrides_view(old(ovs)@) + entry_plan(name@, *setting).2,
{
    let ghost n0 = texts(notes@);
    let ghost e0 = texts(errors@);
    let ghost o0 = overrides_view(ovs@);
    match legacy_action_of(name.as_str()) {
        Some(a) => {
            let mut note = joined("keys.", name.as_str());
            note.append(": legacy setting ignored; move its value to [keys.command] ");
            note.append(a.name());
            push_text(notes, note);
            assert(texts(notes@) =~= n0 + entry_plan(name@, *setting).0);
            assert(texts(errors@) =~= e0 + entry_plan(name@, *setting).1);
            assert(overrides_view(ovs@) =~= o0 + entry_plan(name@, *setting).2);
        },
        None => match target_named_of(name.as_str()) {
            None => {
                let mut e = joined("keys.", name.as_str());
                e.append(": unknown scope");
                push_text(errors, e);
                assert(texts(notes@) =~= n0 + entry_plan(name@, *setting).0);
                assert(texts(errors@) =~= e0 + entry_plan(name@, *setting).1);
                assert(overrides_view(ovs@) =~= o0 + entry_plan(name@, *setting).2);
            },
            Some(t) => match setting {
                ScopeSetting::Other => {
                    let mut e = joined("keys.", name.as_str());
                    e.append(": expected a table of actions");
                    push_text(errors, e);
                    assert(texts(notes@) =~= n0 + entry_plan(name@, *setting).0);
                    assert(texts(errors@) =~= e0 + entry_plan(name@, *setting).1);
                    assert(overrides_view(ovs@) =~= o0 + entry_plan(name@, *setting).2);
                },
                ScopeSetting::Table(actions) => {
                    plan_actions(base, t, name.as_str(), actions, errors, ovs);
                    assert(texts(notes@) =~= n0 + entry_plan(name@, *setting).0);
                },
            },
        },
    }
}

fn plan_all(base: &Vec<Vec<Option<Slot>>>, entries: &Vec<(String, ScopeSetting)>) -> (r: (Vec<String>, Vec<String>, Vec<Override>))
    requires
        rows_view(base@) == default_view(),
        slots_wf(base@),
    ensures
        (texts(r.0@), texts(r.1@), overrides_view(r.2@)) == plan(entries@, entries@.len() as int),
{
    let mut notes: Vec<String> = Vec::new();
    let mut errors: Vec<String> = Vec::new();
    let mut ovs: Vec<Override> = Vec::new();
    assert(texts(notes@) =~= Seq::<Seq<char>>::empty());
    assert(texts(errors@) =~= Seq::<Seq<char>>::empty());
    assert(overrides_view(ovs@) =~= Seq::<OverrideView>::empty());
    let mut k: usize = 0;
    while k < entries.len()
        invariant
            k <= entries@.len(),
            rows_view(base@) == default_view(),
            slots_wf(base@),
            (texts(notes@), texts(errors@), overrides_view(ovs@)) == plan(entries@, k as int),
        decreases entries@.len() - k,
    {
        plan_entry(base, &entries[k].0, &entries[k].1, &mut notes, &mut errors, &mut ovs);
        k = k + 1;
    }
    (notes, errors, ovs)
}

fn set_slot(slots: &mut Vec<Vec<Option<Slot>>>, i: usize, j: usize, x: Option<Slot>)
    requires
        i < old(slots)@.len(),
        j < old(slots)@[i as int]@.len(),
    ensures
        final(slots)@.len() == old(slots)@.len(),
        forall|k: int| 0 <= k < old(slots)@.len() && k != i ==> #[trigger] final(slots)@[k] == old(slots)@[k],
        final(slots)@[i as int]@ == old(slots)@[i as int]@.update(j as int, x),
{
    let mut row = slots.remove(i);
    row.set(j, x);
    slots.insert(i, row);
}

fn copy_chords(v: &Vec<KeyChord>) -> (r: Vec<KeyChord>)
    ensures
        r@ == v@,
{
    let mut out: Vec<KeyChord> = Vec::new();
    let mut k: usize = 0;
    while k < v.len()
        invariant
            k <= v@.len(),
            out@ == v@.take(k as int),
        decreases v@.len() - k,
    {
        out.push(v[k]);
        assert(out@ =~= v@.take(k + 1));
        k = k + 1;
    }
    assert(v@.take(v@.len() as int) =~= v@);
    out
}

/// Bindings of `SCOPE_COUNT` scopes with `ACTION_COUNT` places each.
pub open spec fn shaped(v: KeymapView) -> bool {
    &&& v.len() == SCOPE_COUNT
    &&& forall|i: int| 0 <= i < SCOPE_COUNT ==> #[trigger] v[i].len() == ACTION_COUNT
}

spec fn partial_apply(v: KeymapView, o: OverrideView, n: int) -> KeymapView {
    Seq::new(SCOPE_COUNT as nat, |i: int| Seq::new(ACTION_COUNT as nat, |j: int| if i < n && is_target(o.0, o.1, i, j) { Some(o.2) } else { v[i][j] }))
}

proof fn lemma_rows_shaped(slots: Seq<Vec<Option<Slot>>>)
    requires
        slots_wf(slots),
    ensures
        shaped(rows_view(slots)),
{
}

fn apply_override(slots: &mut Vec<Vec<Option<Slot>>>, base: &Vec<Vec<Option<Slot>>>, o: &Override)
    requires
        rows_view(base@) == default_view(),
        slots_wf(base@),
        slots_wf(old(slots)@),
    ensures
        slots_wf(final(slots)@),
        rows_view(final(slots)@) == apply_one(rows_view(old(slots)@), override_view(*o)),
{
    let ghost v0 = rows_view(slots@);
    let ghost ov = override_view(*o);
    proof {
        lemma_rows_shaped(slots@);
        assert(rows_view(slots@) =~= partial_apply(v0, ov, 0)) by {
            assert forall|i: int| 0 <= i < SCOPE_COUNT implies #[trigger] rows_view(slots@)[i] =~= partial_apply(v0, ov, 0)[i] by {}
        }
    }
    let mut i: usize = 0;
    while i < SCOPE_COUNT
        invariant
            i <= SCOPE_COUNT,
            rows_view(base@) == default_view(),
            slots_wf(base@),
            slots_wf(slots@),
            shaped(v0),
            ov == override_view(*o),
            rows_view(slots@) == partial_apply(v0, ov, i as int),
        decreases SCOPE_COUNT - i,
    {
        let ghost before = slots@;
        match target_in(base, o.target, o.name.as_str(), i) {
            Some(j) => {
                let sl = Slot::new(copy_chords(&o.chords));
                set_slot(slots, i, j, Some(sl));
                proof {
                    assert forall|i2: int| 0 <= i2 < SCOPE_COUNT implies #[trigger] rows_view(slots@)[i2] =~= partial_apply(v0, ov, i + 1)[i2] by {
                        if i2 == i {
                            assert forall|j2: int| 0 <= j2 < ACTION_COUNT implies #[trigger] rows_view(slots@)[i2][j2] == partial_apply(v0, ov, i + 1)[i2][j2] by {
                                if j2 != j {
                                    assert(!is_target(ov.0, ov.1, i2, j2));
                                    assert(rows_view(slots@)[i2][j2] == rows_view(before)[i2][j2]);
                                    assert(rows_view(before)[i2][j2] == partial_apply(v0, ov, i as int)[i2][j2]);
                                } else {
                                    assert(slots@[i2]@[j2] == Some(sl));
                                    assert(rows_view(slots@)[i2][j2] == Some(o.chords@));
                                }
                            }
                        } else {
                            assert(slots@[i2] == before[i2]);
                            assert(rows_view(slots@)[i2] == partial_apply(v0, ov, i as int)[i2]);
                        }
                    }
                    assert(rows_view(slots@) =~= partial_apply(v0, ov, i + 1));
                }
            },
            None => {
                proof {
                    assert forall|i2: int| 0 <= i2 < SCOPE_COUNT implies #[trigger] rows_view(slots@)[i2] =~= partial_apply(v0, ov, i + 1)[i2] by {
                        if i2 == i {
                            assert forall|j2: int| 0 <= j2 < ACTION_COUNT implies #[trigger] rows_view(slots@)[i2][j2] == partial_apply(v0, ov, i + 1)[i2][j2] by {
                                assert(!is_target(ov.0, ov.1, i2, j2));
                                assert(rows_view(slots@)[i2][j2] == partial_apply(v0, ov, i as int)[i2][j2]);
                            }
                        } else {
                            assert(rows_view(slots@)[i2] == partial_apply(v0, ov, i as int)[i2]);
                        }
                    }
                    assert(rows_view(slots@) =~= partial_apply(v0, ov, i + 1));
                }
            },
        }
        i = i + 1;
    }
    proof {
        assert forall|i2: int| 0 <= i2 < SCOPE_COUNT implies #[trigger] partial_apply(v0, ov, SCOPE_COUNT as int)[i2] =~= apply_one(v0, ov)[i2] by {}
        assert(partial_apply(v0, ov, SCOPE_COUNT as int) =~= apply_one(v0, ov));
    }
}

fn is_group_of(t: Target) -> (r: bool)
    ensures
        r == is_group(t),
{
    match t {
        Target::Scope(_) => false,
        _ => true,
    }
}

fn apply_overrides(slots: &mut Vec<Vec<Option<Slot>>>, base: &Vec<Vec<Option<Slot>>>, ovs: &Vec<Override>, group: bool)
    requires
        rows_view(base@) == default_view(),
        slots_wf(base@),
        slots_wf(old(slots)@),
    ensures
        slots_wf(final(slots)@),
        rows_view(final(slots)@) == apply_all(rows_view(old(slots)@), overrides_view(ovs@), group, ovs@.len() as int),
{
    let ghost v0 = rows_view(slots@);
    let mut k: usize = 0;
    while k < ovs.len()
        invariant
            k <= ovs@.len(),
            rows_view(base@) == default_view(),
            slots_wf(base@),
            slots_wf(slots@),
            rows_view(slots@) == apply_all(v0, overrides_view(ovs@), group, k as int),
        decreases ovs@.len() - k,
    {
        if is_group_of(ovs[k].target) == group {
            apply_override(slots, base, &ovs[k]);
        }
        k = k + 1;
    }
}

fn first_setting_of<'a>(entries: &'a Vec<(String, ScopeSetting)>, key: &str) -> (r: Option<&'a ScopeSetting>)
    ensures
        match r {
            Some(x) => first_setting(entries@, key@, entries@.len() as int) == Some(*x),
            None => first_setting(entries@, key@, entries@.len() as int) is None,
        },
{
    let mut k: usize = 0;
    while k < entries.len()
        invariant
            k <= entries@.len(),
            first_setting(entries@, key@, k as int) is None,
        decreases entries@.len() - k,
    {
        if same_text(&entries[k].0, key) {
            proof {
                lemma_first_setting_settles(entries@, key@, k + 1, entries@.len() as int);
            }
            return Some(&entries[k].1);
        }
        k = k + 1;
    }
    None
}

/// Once some entry among the first `n` has the name, more entries do not
/// change the first.
pub proof fn lemma_first_setting_settles(entries: Seq<(String, ScopeSetting)>, key: Seq<char>, n: int, m: int)
    requires
        n <= m,
        first_setting(entries, key, n) is Some,
    ensures
        first_setting(entries, key, m) == first_setting(entries, key, n),
    decreases m - n,
{
    if n < m {
        lemma_first_setting_settles(entries, key, n, m - 1);
    }
}

fn table_sets_of(entries: &Vec<(String, ScopeSetting)>, key: &str, name: &str) -> (r: bool)
    ensures
        r == table_sets(entries@, key@, name@),
{
    match first_setting_of(entries, key) {
        Some(ScopeSetting::Table(acts)) => {
            let mut k: usize = 0;
            while k < acts.len()
                invariant
                    k <= acts@.len(),
                    first_setting(entries@, key@, entries@.len() as int) == Some(ScopeSetting::Table(*acts)),
                    forall|i: int| 0 <= i < k ==> (#[trigger] acts@[i]).0@ != name@,
                decreases acts@.len() - k,
            {
                if same_text(&acts[k].0, name) {
                    assert((acts@[k as int]).0@ == name@);
                    assert(sets_name(acts@, name@));
                    return true;
                }
                k = k + 1;
            }
            false
        },
        _ => false,
    }
}

fn scoped_keys_of(slots: &Vec<Vec<Option<Slot>>>, entries: &Vec<(String, ScopeSetting)>, a: Action, out: &mut Vec<KeyChord>)
    requires
        slots_wf(slots@),
    ensures
        final(out)@ == old(out)@ + scoped_keys(rows_view(slots@), entries@, a),
{
    proof {
        lemma_action_rank(a);
    }
    if table_sets_of(entries, "command", a.name()) {
        match &slots[Scope::Command.rank()][a.rank() as usize] {
            Some(sl) => {
                let ghost start = out@;
                let mut k: usize = 0;
                while k < sl.chords.len()
                    invariant
                        k <= sl.chords@.len(),
                        out@ == start + sl.chords@.take(k as int),
                    decreases sl.chords@.len() - k,
                {
                    out.push(sl.chords[k]);
                    assert(out@ =~= start + sl.chords@.take(k + 1));
                    k = k + 1;
                }
                assert(sl.chords@.take(sl.chords@.len() as int) =~= sl.chords@);
            },
            None => {
                assert(out@ =~= old(out)@ + Seq::<KeyChord>::empty());
            },
        }
    } else {
        assert(out@ =~= old(out)@ + Seq::<KeyChord>::empty());
    }
}

fn retain_clear_of(cs: &Vec<KeyChord>, drop: &Vec<KeyChord>) -> (r: Vec<KeyChord>)
    ensures
        r@ == retain_clear(cs@, drop@),
{
    let mut out: Vec<KeyChord> = Vec::new();
    let mut k: usize = 0;
    while k < cs.len()
        invariant
            k <= cs@.len(),
            out@ == retain_clear(cs@.take(k as int), drop@),
        decreases cs@.len() - k,
    {
        proof {
            assert(cs@.take(k + 1).drop_last() =~= cs@.take(k as int));
        }
        if !overlaps_any_of(&cs[k], drop) {
            out.push(cs[k]);
        }
        k = k + 1;
    }
    assert(cs@.take(cs@.len() as int) =~= cs@);
    out
}

fn is_edit_of(a: Action) -> (r: bool)
    ensures
        r == is_edit(a),
{
    let completion = match a {
        Action::Down | Action::Up | Action::Accept | Action::Complete => true,
        _ => false,
    };
    input_keys_of(a).is_some() && !completion
}

spec fn partial_complete(v: KeymapView, drop: Seq<KeyChord>, n: int) -> KeymapView {
    Seq::new(SCOPE_COUNT as nat, |i: int| Seq::new(ACTION_COUNT as nat, |j: int|
        if i == scope_rank(Scope::Command) && j < n && is_edit(action_at(j as nat)) && v[i][j] is Some {
            Some(retain_clear(v[i][j]->0, drop))
        } else {
            v[i][j]
        }))
}

fn complete(slots: &mut Vec<Vec<Option<Slot>>>, entries: &Vec<(String, ScopeSetting)>)
    requires
        slots_wf(old(slots)@),
    ensures
        slots_wf(final(slots)@),
        rows_view(final(slots)@) == completed(rows_view(old(slots)@), entries@),
{
    let ghost v0 = rows_view(slots@);
    let mut drop: Vec<KeyChord> = Vec::new();
    scoped_keys_of(slots, entries, Action::Down, &mut drop);
    scoped_keys_of(slots, entries, Action::Up, &mut drop);
    scoped_keys_of(slots, entries, Action::Accept, &mut drop);
    scoped_keys_of(slots, entries, Action::Complete, &mut drop);
    assert(drop@ =~= completion_keys(v0, entries@));
    let c = Scope::Command.rank();
    proof {
        lemma_rows_shaped(slots@);
        assert forall|i: int| 0 <= i < SCOPE_COUNT implies #[trigger] rows_view(slots@)[i] =~= partial_complete(v0, drop@, 0)[i] by {}
        assert(rows_view(slots@) =~= partial_complete(v0, drop@, 0));
    }
    let mut j: usize = 0;
    while j < ACTION_COUNT
        invariant
            j <= ACTION_COUNT,
            c == scope_rank(Scope::Command),
            slots_wf(slots@),
            shaped(v0),
            drop@ == completion_keys(v0, entries@),
            rows_view(slots@) == partial_complete(v0, drop@, j as int),
        decreases ACTION_COUNT - j,
    {
        let ghost before = slots@;
        let edit = is_edit_of(Action::at(j));
        proof {
            lemma_action_at(j as nat);
            assert(rows_view(before)[c as int][j as int] == v0[c as int][j as int]);
        }
        let next = if edit {
            match &slots[c][j] {
                Some(sl) => {
                    assert(v0[c as int][j as int] == Some(sl.chords@));
                    Some(retain_clear_of(&sl.chords, &drop))
                },
                None => None,
            }
        } else {
            None
        };
        proof {
            assert(next is Some ==> (is_edit(action_at(j as nat)) && v0[c as int][j as int] is Some && next->0@ == retain_clear(
                v0[c as int][j as int]->0,
                drop@,
            )));
            assert(next is None ==> !(is_edit(action_at(j as nat)) && v0[c as int][j as int] is Some));
        }
        match next {
            Some(cs) => {
                let ghost kept = cs@;
                set_slot(slots, c, j, Some(Slot::new(cs)));
                proof {
                    assert forall|i2: int| 0 <= i2 < SCOPE_COUNT implies #[trigger] rows_view(slots@)[i2] =~= partial_complete(v0, drop@, j + 1)[i2] by {
                        if i2 == c {
                            assert forall|j2: int| 0 <= j2 < ACTION_COUNT implies #[trigger] rows_view(slots@)[i2][j2] == partial_complete(v0, drop@, j + 1)[i2][j2] by {
                                if j2 != j {
                                    assert(rows_view(slots@)[i2][j2] == rows_view(before)[i2][j2]);
                                    assert(rows_view(before)[i2][j2] == partial_complete(v0, drop@, j as int)[i2][j2]);
                                } else {
                                    assert(rows_view(slots@)[i2][j2] == Some(kept));
                                }
                            }
                        } else {
                            assert(slots@[i2] == before[i2]);
                            assert(rows_view(slots@)[i2] == partial_complete(v0, drop@, j as int)[i2]);
                        }
                    }
                    assert(rows_view(slots@) =~= partial_complete(v0, drop@, j + 1));
                }
            },
            None => {
                proof {
                    assert forall|i2: int| 0 <= i2 < SCOPE_COUNT implies #[trigger] rows_view(slots@)[i2] =~= partial_complete(v0, drop@, j + 1)[i2] by {
                        if i2 == c {
                            assert forall|j2: int| 0 <= j2 < ACTION_COUNT implies #[trigger] rows_view(slots@)[i2][j2] == partial_complete(v0, drop@, j + 1)[i2][j2] by {
                                assert(rows_view(slots@)[i2][j2] == partial_complete(v0, drop@, j as int)[i2][j2]);
                            }
                        } else {
                            assert(rows_view(slots@)[i2] == partial_complete(v0, drop@, j as int)[i2]);
                        }
                    }
                    assert(rows_view(slots@) =~= partial_complete(v0, drop@, j + 1));
                }
            },
        }
        j = j + 1;
    }
    proof {
        assert forall|i2: int| 0 <= i2 < SCOPE_COUNT implies #[trigger] partial_complete(v0, drop@, ACTION_COUNT as int)[i2] =~= completed(v0, entries@)[i2] by {}
        assert(partial_complete(v0, drop@, ACTION_COUNT as int) =~= completed(v0, entries@));
    }
}

/// Once some chord among the first `n` of `cs` clashes, the first clash of
/// longer prefixes is the same.
pub proof fn lemma_first_clash_settles(cs: Seq<KeyChord>, others: Seq<KeyChord>, n: int, m: int)
    requires
        0 <= n <= m <= cs.len(),
        first_clash(cs.take(n), others) is Some,
    ensures
        first_clash(cs.take(m), others) == first_clash(cs.take(n), others),
    decreases m - n,
{
    if n < m {
        lemma_first_clash_settles(cs, others, n, m - 1);
        assert(cs.take(m).drop_last() =~= cs.take(m - 1));
    }
}

fn first_clash_of(cs: &Vec<KeyChord>, others: &Vec<KeyChord>) -> (r: Option<KeyChord>)
    ensures
        r == first_clash(cs@, others@),
{
    let mut k: usize = 0;
    while k < cs.len()
        invariant
            k <= cs@.len(),
            first_clash(cs@.take(k as int), others@) is None,
        decreases cs@.len() - k,
    {
        proof {
            assert(cs@.take(k + 1).drop_last() =~= cs@.take(k as int));
        }
        if overlaps_any_of(&cs[k], others) {
            proof {
                assert(first_clash(cs@.take(k + 1), others@) == Some(cs@[k as int]));
                lemma_first_clash_settles(cs@, others@, k + 1, cs@.len() as int);
                assert(cs@.take(cs@.len() as int) =~= cs@);
            }
            return Some(cs[k]);
        }
        k = k + 1;
    }
    assert(cs@.take(cs@.len() as int) =~= cs@);
    None
}

fn clash_message(s: Scope, c: &KeyChord, a: Action, b: Action) -> (r: String)
    ensures
        r@ == "keys."@ + scope_name(s) + ": "@ + chord_label(*c) + " conflicts between "@ + action_name(a) + " and "@
            + action_name(b),
{
    let mut m = joined("keys.", s.name());
    m.append(": ");
    let l = c.label();
    m.append(l.as_str());
    m.append(" conflicts between ");
    m.append(a.name());
    m.append(" and ");
    m.append(b.name());
    m
}

fn conflicts_of(slots: &Vec<Vec<Option<Slot>>>) -> (r: Vec<String>)
    requires
        slots_wf(slots@),
    ensures
        texts(r@) == conflict_errors(rows_view(slots@), SCOPE_COUNT as int),
{
    let ghost v = rows_view(slots@);
    let mut errs: Vec<String> = Vec::new();
    assert(texts(errs@) =~= Seq::<Seq<char>>::empty());
    let mut s: usize = 0;
    while s < SCOPE_COUNT
        invariant
            s <= SCOPE_COUNT,
            slots_wf(slots@),
            v == rows_view(slots@),
            texts(errs@) == conflict_errors(v, s as int),
        decreases SCOPE_COUNT - s,
    {
        let sc = Scope::at(s);
        let row = &slots[s];
        let ghost rv = v[s as int];
        assert(rv == row_view(row@));
        let mut i: usize = 0;
        while i < ACTION_COUNT
            invariant
                i <= ACTION_COUNT,
                s < SCOPE_COUNT,
                row@.len() == ACTION_COUNT,
                rv == row_view(row@),
                rv == v[s as int],
                sc == scope_at(s as nat),
                texts(errs@) == conflict_errors(v, s as int) + scope_errors(sc, rv, i as int),
            decreases ACTION_COUNT - i,
        {
            let mut j: usize = i + 1;
            while j < ACTION_COUNT
                invariant
                    i < j <= ACTION_COUNT,
                    row@.len() == ACTION_COUNT,
                    rv == row_view(row@),
                    texts(errs@) == conflict_errors(v, s as int) + scope_errors(sc, rv, i as int) + pair_errors(sc, rv, i as int, j as int),
                decreases ACTION_COUNT - j,
            {
                let ghost prev = texts(errs@);
                if let (Some(x), Some(y)) = (&row[i], &row[j]) {
                    assert(rv[i as int] == Some(x.chords@));
                    assert(rv[j as int] == Some(y.chords@));
                    match first_clash_of(&x.chords, &y.chords) {
                        Some(c) => {
                            let m = clash_message(sc, &c, Action::at(i), Action::at(j));
                            push_text(&mut errs, m);
                            assert(clash_error(sc, rv, i as int, j as int) =~= seq![m@]);
                        },
                        None => {
                            assert(clash_error(sc, rv, i as int, j as int) =~= Seq::<Seq<char>>::empty());
                        },
                    }
                } else {
                    assert(clash_error(sc, rv, i as int, j as int) =~= Seq::<Seq<char>>::empty());
                }
                assert(texts(errs@) =~= prev + clash_error(sc, rv, i as int, j as int));
                j = j + 1;
            }
            i = i + 1;
        }
        s = s + 1;
    }
    errs
}

impl Keymap {
    /// The bindings `[keys]` asks for: the defaults, with group tables
    /// (`global`, `input`, `navigation`) applied first and scope tables
    /// after, whatever order the file lists them in; explicit completion
    /// keys of the command palette taken from its editing actions; and no
    /// two actions of a scope sharing a key. Retired top-level settings
    /// leave a note. Every problem is reported, with its path.
    pub fn compile(cfg: &KeysConfig) -> (r: Result<Keymap, Vec<String>>)
        ensures
            match (r, compiled(*cfg)) {
                (Ok(m), Ok((v, c, n))) => m@ == v && m.cancels_any() == c && m.notes() == n,
                (Err(es), Err(e)) => texts(es@) == e,
                _ => false,
            },
    {
        let entries = match cfg {
            KeysConfig::Table(e) => e,
            KeysConfig::Other => {
                let mut es: Vec<String> = Vec::new();
                push_text(&mut es, String::from_str("keys: expected a table"));
                assert(texts(es@) =~= seq!["keys: expected a table"@]);
                return Err(es);
            },
        };
        let base = default_slots();
        let (notes, mut errors, ovs) = plan_all(&base, entries);
        let mut slots = default_slots();
        apply_overrides(&mut slots, &base, &ovs, true);
        apply_overrides(&mut slots, &base, &ovs, false);
        complete(&mut slots, entries);
        let conflicts = conflicts_of(&slots);
        append_texts(&mut errors, &conflicts);
        let cancel_any = !table_sets_of(entries, "confirm", "back");
        if errors.len() == 0 {
            Ok(Keymap { slots, cancel_any, warnings: notes })
        } else {
            Err(errors)
        }
    }
}

/// No two actions of a scope share a key: no chord of one stands for a
/// chord of the other.
pub open spec fn conflict_free(v: KeymapView) -> bool {
    forall|s: int, i: int, j: int, x: int, y: int|
        0 <= s < SCOPE_COUNT && 0 <= i < j < ACTION_COUNT && v[s][i] is Some && v[s][j] is Some && 0 <= x
            < v[s][i]->0.len() && 0 <= y < v[s][j]->0.len() ==> !#[trigger] chords_overlap(v[s][i]->0[x], v[s][j]->0[y])
}

proof fn lemma_conflict_errors_empty(v: KeymapView, n: int, s: int)
    requires
        conflict_errors(v, n).len() == 0,
        0 <= s < n,
    ensures
        scope_errors(scope_at(s as nat), v[s], ACTION_COUNT as int).len() == 0,
    decreases n,
{
    if s < n - 1 {
        lemma_conflict_errors_empty(v, n - 1, s);
    }
}

proof fn lemma_scope_errors_empty(sc: Scope, row: Seq<Option<Seq<KeyChord>>>, m: int, i: int)
    requires
        scope_errors(sc, row, m).len() == 0,
        0 <= i < m,
    ensures
        pair_errors(sc, row, i, ACTION_COUNT as int).len() == 0,
    decreases m,
{
    if i < m - 1 {
        lemma_scope_errors_empty(sc, row, m - 1, i);
    }
}

proof fn lemma_pair_errors_empty(sc: Scope, row: Seq<Option<Seq<KeyChord>>>, i: int, n: int, j: int)
    requires
        pair_errors(sc, row, i, n).len() == 0,
        i < j < n,
    ensures
        clash_error(sc, row, i, j).len() == 0,
    decreases n - i,
{
    if j < n - 1 {
        lemma_pair_errors_empty(sc, row, i, n - 1, j);
    }
}

proof fn lemma_first_clash_none(cs: Seq<KeyChord>, others: Seq<KeyChord>, x: int)
    requires
        first_clash(cs, others) is None,
        0 <= x < cs.len(),
    ensures
        !overlaps_any(cs[x], others),
    decreases cs.len(),
{
    if x < cs.len() - 1 {
        lemma_first_clash_none(cs.drop_last(), others, x);
    }
}

/// A keymap that `[keys]` compiles to binds no key to two actions of one
/// scope: a configuration that would is refused with the conflict named.
pub proof fn law_compiled_keymap_is_conflict_free(cfg: KeysConfig)
    requires
        compiled(cfg) is Ok,
    ensures
        conflict_free(compiled(cfg)->Ok_0.0),
{
    let v = compiled(cfg)->Ok_0.0;
    match cfg {
        KeysConfig::Table(entries) => {
            let (notes, errs, ovs) = plan(entries@, entries@.len() as int);
            assert(conflict_errors(v, SCOPE_COUNT as int).len() == 0);
            assert forall|s: int, i: int, j: int, x: int, y: int|
                0 <= s < SCOPE_COUNT && 0 <= i < j < ACTION_COUNT && v[s][i] is Some && v[s][j] is Some && 0 <= x
                    < v[s][i]->0.len() && 0 <= y < v[s][j]->0.len() implies !#[trigger] chords_overlap(
                v[s][i]->0[x],
                v[s][j]->0[y],
            ) by {
                lemma_conflict_errors_empty(v, SCOPE_COUNT as int, s);
                lemma_scope_errors_empty(scope_at(s as nat), v[s], ACTION_COUNT as int, i);
                lemma_pair_errors_empty(scope_at(s as nat), v[s], i, ACTION_COUNT as int, j);
                assert(first_clash(v[s][i]->0, v[s][j]->0) is None);
                lemma_first_clash_none(v[s][i]->0, v[s][j]->0, x);
                if chords_overlap(v[s][i]->0[x], v[s][j]->0[y]) {
                    assert(overlaps_any(v[s][i]->0[x], v[s][j]->0));
                }
            }
        },
        KeysConfig::Other => {},
    }
}

/// Standing for the same key is an equivalence between spellings: every
/// chord stands for itself, in both directions, and through a third.
pub proof fn law_overlap_is_an_equivalence(a: KeyChord, b: KeyChord, c: KeyChord)
    ensures
        chords_overlap(a, a),
        chords_overlap(a, b) == chords_overlap(b, a),
        chords_overlap(a, b) && chords_overlap(b, c) ==> chords_overlap(a, c),
{
}

/// The keys the last of the first `n` settings of one kind (group tables,
/// or scope tables when `group` is false) gives the action in place `j` of
/// the scope in place `i`, if any covers it.
pub open spec fn last_cover(ovs: Seq<OverrideView>, group: bool, i: int, j: int, n: int) -> Option<Seq<KeyChord>>
    decreases n,
{
    if n <= 0 {
        None
    } else if is_group(ovs[n - 1].0) == group && is_target(ovs[n - 1].0, ovs[n - 1].1, i, j) {
        Some(ovs[n - 1].2)
    } else {
        last_cover(ovs, group, i, j, n - 1)
    }
}

proof fn lemma_apply_all(v: KeymapView, ovs: Seq<OverrideView>, group: bool, n: int, i: int, j: int)
    requires
        0 <= i < SCOPE_COUNT,
        0 <= j < ACTION_COUNT,
    ensures
        apply_all(v, ovs, group, n)[i][j] == match last_cover(ovs, group, i, j, n) {
            Some(cs) => Some(cs),
            None => v[i][j],
        },
    decreases n,
{
    if n > 0 {
        lemma_apply_all(v, ovs, group, n - 1, i, j);
    }
}

/// Scope tables win over group tables, whatever order `[keys]` lists
/// them in: a binding takes the keys of the last scope table that sets it,
/// else of the last group table that covers it, else keeps its default.
pub proof fn law_scope_tables_win(entries: Seq<(String, ScopeSetting)>, i: int, j: int)
    requires
        0 <= i < SCOPE_COUNT,
        0 <= j < ACTION_COUNT,
    ensures
        ({
            let ovs = plan(entries, entries.len() as int).2;
            overridden(ovs)[i][j] == match last_cover(ovs, false, i, j, ovs.len() as int) {
                Some(cs) => Some(cs),
                None => match last_cover(ovs, true, i, j, ovs.len() as int) {
                    Some(cs) => Some(cs),
                    None => default_view()[i][j],
                },
            }
        }),
{
    let ovs = plan(entries, entries.len() as int).2;
    let g = apply_all(default_view(), ovs, true, ovs.len() as int);
    lemma_apply_all(default_view(), ovs, true, ovs.len() as int, i, j);
    lemma_apply_all(g, ovs, false, ovs.len() as int, i, j);
}

} // verus!
