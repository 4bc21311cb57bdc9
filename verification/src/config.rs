//! Settings as the configuration files hold them, with the checks that turn
//! doubtful values into warnings instead of errors. Paths are kept as
//! strings and string maps as lists of `(key, value)` pairs.

use crate::keys::{chord_error, chord_of, KeyChord};
use crate::text::{
    blank, chars_of, debug_quoted, debug_string, decimal, decimal_string, is_blank, push_char,
};
use vstd::prelude::*;
use vstd::string::StringExecFns;

verus! {

/// The text of each string in `v`.
pub open spec fn texts(v: Seq<String>) -> Seq<Seq<char>> {
    v.map_values(|s: String| s@)
}

/// How inline plugins of an override file combine with earlier ones.
#[derive(Clone, Copy, Debug, Default, PartialEq, Eq, Structural)]
pub enum PluginMergeMode {
    /// The override's plugin list replaces the earlier one.
    #[default]
    Replace,
    /// Entries with the same name are replaced in place, others appended.
    Name,
}

/// Plugin merge controls an override file may set at its root.
#[derive(Clone, Debug, Default)]
pub struct PluginMergeControls {
    pub plugins_merge: PluginMergeMode,
    pub plugins_remove: Vec<String>,
}

/// Additional label sources for the node ROLES column.
#[derive(Clone, Debug, Default)]
pub struct NodeRoles {
    pub label_prefixes: Vec<String>,
    pub label_keys: Vec<String>,
}

/// Opt-in functionality that is still being evaluated.
#[derive(Clone, Debug, Default)]
pub struct Experimental {
    /// Use the built-in describer instead of the kubectl subprocess.
    pub native_describe: bool,
}

/// Delivery for `:notify` events, besides the status-line flash.
#[derive(Clone, Debug)]
pub struct NotifyConfig {
    /// Ring the terminal bell on a notification.
    pub bell: bool,
    /// Desktop-notification escape protocol: `osc777`, `osc9`, `both`, `off`.
    pub desktop: String,
    /// Notifier subprocess (argv). Empty = none configured.
    pub command: Vec<String>,
}

impl Default for NotifyConfig {
    fn default() -> (r: Self)
        ensures
            r.bell,
            r.desktop@ == "osc777"@,
            r.command@.len() == 0,
    {
        NotifyConfig { bell: true, desktop: String::from_str("osc777"), command: Vec::new() }
    }
}

/// A named, saved port-forward.
#[derive(Clone, Debug, Default)]
pub struct Forward {
    pub name: String,
    /// Forward target in kubectl syntax (`pod/web`, `svc/api`, `deploy/api`).
    pub target: String,
    pub namespace: String,
    /// `LOCAL:REMOTE` port pair (kubectl also accepts a bare port).
    pub ports: String,
    /// Start automatically when connecting to a matching context.
    pub autostart: bool,
    /// Kubeconfig context names this forward applies to. Empty = every context.
    pub contexts: Vec<String>,
}

/// Whether `s` is the text of `t`.
pub fn same_text(s: &String, t: &str) -> (r: bool)
    ensures
        r == (s@ == t@),
{
    let u = String::from_str(t);
    *s == u
}

impl Forward {
    /// Whether this forward applies to `context`: it lists no contexts, or
    /// lists this one.
    pub fn matches_context(&self, context: &str) -> (r: bool)
        ensures
            r == (self.contexts@.len() == 0 || exists|i: int|
                0 <= i < self.contexts@.len() && #[trigger] self.contexts@[i]@ == context@),
    {
        if self.contexts.len() == 0 {
            return true;
        }
        let mut k: usize = 0;
        while k < self.contexts.len()
            invariant
                k <= self.contexts@.len(),
                forall|i: int| 0 <= i < k ==> #[trigger] self.contexts@[i]@ != context@,
            decreases self.contexts@.len() - k,
        {
            if same_text(&self.contexts[k], context) {
                return true;
            }
            k = k + 1;
        }
        false
    }
}

/// The cross-context fleet dashboard.
#[derive(Clone, Debug, Default)]
pub struct FleetConfig {
    /// Kubeconfig context names to summarize. Empty = the dashboard is off.
    pub contexts: Vec<String>,
}

/// Log-view controls (kubelet streams).
#[derive(Clone, Debug)]
pub struct LogsConfig {
    /// Initial lines requested per stream.
    pub tail: i64,
    /// Maximum lines retained in the follow buffer.
    pub buffer: usize,
    /// Optional lookback (`30m`, `4h`, `2d`).
    pub since: Option<String>,
    /// Start log views fullscreen.
    pub fullscreen: bool,
    /// External formatter argv for the JSON toggle.
    pub format_command: Vec<String>,
}

impl Default for LogsConfig {
    fn default() -> (r: Self)
        ensures
            r.tail == 300,
            r.buffer == 5000,
            r.since is None,
            !r.fullscreen,
            r.format_command@.len() == 0,
    {
        LogsConfig { tail: 300, buffer: 5000, since: None, fullscreen: false, format_command: Vec::new() }
    }
}

/// Bytes in a mebibyte.
pub const MIB: u64 = 1_048_576;

/// The smallest rotation threshold, 64 KiB.
pub const MIN_ROTATE_BYTES: u64 = 65_536;

/// `mb` mebibytes in bytes, saturating, and never below 64 KiB.
pub open spec fn rotate_bytes(mb: u64) -> u64 {
    let b = if mb * MIB > u64::MAX { u64::MAX } else { (mb * MIB) as u64 };
    if b < MIN_ROTATE_BYTES { MIN_ROTATE_BYTES } else { b }
}

fn rotate_bytes_of(mb: u64) -> (r: u64)
    ensures
        r == rotate_bytes(mb),
{
    let b = match mb.checked_mul(MIB) {
        Some(v) => v,
        None => u64::MAX,
    };
    if b < MIN_ROTATE_BYTES { MIN_ROTATE_BYTES } else { b }
}

/// The configured file when it is set and not empty, else `default`.
pub open spec fn file_or(file: Option<String>, default: Seq<char>) -> Seq<char> {
    match file {
        Some(f) => if f@.len() > 0 { f@ } else { default },
        None => default,
    }
}

fn file_or_default(file: &Option<String>, default: String) -> (r: String)
    ensures
        r@ == file_or(*file, default@),
{
    match file {
        Some(f) => if !f.as_str().is_empty() { f.clone() } else { default },
        None => default,
    }
}

/// Optional action history on disk.
#[derive(Clone, Debug)]
pub struct JournalConfig {
    pub enabled: bool,
    pub file: Option<String>,
    pub max_size_mb: u64,
}

impl Default for JournalConfig {
    fn default() -> (r: Self)
        ensures
            !r.enabled,
            r.file is None,
            r.max_size_mb == 8,
    {
        JournalConfig { enabled: false, file: None, max_size_mb: 8 }
    }
}

impl JournalConfig {
    /// Where the journal goes: the configured file, else `default` (the
    /// state directory's `journal.jsonl`, which the caller locates).
    pub fn path(&self, default: String) -> (r: String)
        ensures
            r@ == file_or(self.file, default@),
    {
        file_or_default(&self.file, default)
    }

    /// Size cap in bytes, floored at 64 KiB.
    pub fn max_bytes(&self) -> (r: u64)
        ensures
            r == rotate_bytes(self.max_size_mb),
            r >= MIN_ROTATE_BYTES,
    {
        rotate_bytes_of(self.max_size_mb)
    }
}

/// Structured application logging (the program's own diagnostics).
#[derive(Clone, Debug)]
pub struct LoggingConfig {
    /// `off` | `error` | `warn` | `info` | `debug` | `trace`.
    pub level: String,
    /// Log file; the caller supplies the default location.
    pub file: Option<String>,
    /// Size at which the log rotates.
    pub max_size_mb: u64,
}

impl Default for LoggingConfig {
    fn default() -> (r: Self)
        ensures
            r.level@ == "off"@,
            r.file is None,
            r.max_size_mb == 8,
    {
        LoggingConfig { level: String::from_str("off"), file: None, max_size_mb: 8 }
    }
}

impl LoggingConfig {
    /// Where the log goes: the configured file, else `default`.
    pub fn path(&self, default: String) -> (r: String)
        ensures
            r@ == file_or(self.file, default@),
    {
        file_or_default(&self.file, default)
    }

    /// Rotation threshold in bytes, floored at 64 KiB.
    pub fn max_bytes(&self) -> (r: u64)
        ensures
            r == rotate_bytes(self.max_size_mb),
            r >= MIN_ROTATE_BYTES,
    {
        rotate_bytes_of(self.max_size_mb)
    }
}

/// Options for the diagnostic-bundle export.
#[derive(Clone, Debug)]
pub struct BundleConfig {
    pub anonymize: bool,
    pub log_lines: i64,
    pub max_pods: usize,
}

impl Default for BundleConfig {
    fn default() -> (r: Self)
        ensures
            !r.anonymize,
            r.log_lines == 200,
            r.max_pods == 3,
    {
        BundleConfig { anonymize: false, log_lines: 200, max_pods: 3 }
    }
}

/// Fallback lifetime of a PVC helper pod, in seconds.
pub const PVC_DEFAULT_TTL_SECS: u64 = 1_800;

/// Defaults for the PVC browser's helper pod.
#[derive(Clone, Debug)]
pub struct PvcExploreConfig {
    pub image: String,
    pub ttl: String,
}

impl Default for PvcExploreConfig {
    fn default() -> (r: Self)
        ensures
            r.image@ == "busybox:1.37"@,
            r.ttl@ == "30m"@,
    {
        PvcExploreConfig { image: String::from_str("busybox:1.37"), ttl: String::from_str("30m") }
    }
}

/// Defaults for ephemeral and node debug containers.
#[derive(Clone, Debug)]
pub struct DebugConfig {
    pub image: String,
    pub command: Vec<String>,
    pub node_image: String,
    pub node_namespace: String,
    pub node_profile: Option<String>,
}

impl Default for DebugConfig {
    fn default() -> (r: Self)
        ensures
            r.image@ == "busybox:latest"@,
            r.command@.len() == 0,
            r.node_image@ == "busybox:latest"@,
            r.node_namespace@ == "default"@,
            r.node_profile is None,
    {
        DebugConfig {
            image: String::from_str("busybox:latest"),
            command: Vec::new(),
            node_image: String::from_str("busybox:latest"),
            node_namespace: String::from_str("default"),
            node_profile: None,
        }
    }
}

/// A numeric warn/critical band.
#[derive(Clone, Copy, Debug, Default)]
pub struct CountBand {
    pub warn: Option<i64>,
    pub critical: Option<i64>,
}

/// A Kubernetes-quantity warn/critical band.
#[derive(Clone, Debug, Default)]
pub struct QuantityBand {
    pub warn: Option<String>,
    pub critical: Option<String>,
}

/// One layer of thresholds.
#[derive(Clone, Debug, Default)]
pub struct ThresholdSet {
    pub restarts: Option<CountBand>,
    pub cpu: Option<QuantityBand>,
    pub memory: Option<QuantityBand>,
    pub utilization: Option<CountBand>,
}

/// Global thresholds and per-resource overrides.
#[derive(Clone, Debug, Default)]
pub struct Thresholds {
    pub defaults: ThresholdSet,
    pub resources: Vec<(String, ThresholdSet)>,
}

/// A log-search backend.
#[derive(Clone, Debug, Default)]
pub struct LogProviderConfig {
    pub kind: String,
    pub url: String,
    pub lookback: Option<String>,
    pub limit: Option<usize>,
    pub headers: Vec<(String, String)>,
    pub fields: LogProviderFields,
}

/// Field-name mapping for a log backend.
#[derive(Clone, Debug, Default)]
pub struct LogProviderFields {
    pub namespace: Option<String>,
    pub pod: Option<String>,
    pub container: Option<String>,
}

/// A Prometheus-compatible metrics backend.
#[derive(Clone, Debug, Default)]
pub struct MetricsProviderConfig {
    pub kind: String,
    pub url: String,
    pub window: Option<String>,
    pub step: Option<String>,
    pub headroom: Option<u32>,
    pub headers: Vec<(String, String)>,
}

/// External provider integrations.
#[derive(Clone, Debug, Default)]
pub struct Providers {
    pub logs: Option<LogProviderConfig>,
    pub metrics: Option<MetricsProviderConfig>,
}

/// A custom table view for one resource kind.
#[derive(Clone, Debug, Default)]
pub struct ViewConfig {
    pub sort: Option<String>,
    pub replace: bool,
    pub node: Option<String>,
    pub drill: Option<DrillConfig>,
    pub refs: Vec<RefConfig>,
    pub children: Vec<String>,
    pub columns: Vec<ViewColumnConfig>,
}

/// A reference from one kind's objects to another kind.
#[derive(Clone, Debug, Default)]
pub struct RefConfig {
    pub path: String,
    pub kind: String,
    pub kind_path: Option<String>,
    pub kinds: Vec<String>,
    pub relation: Option<String>,
    pub reverse: Option<String>,
    pub namespace_path: Option<String>,
}

/// Where `enter` on a row drills to.
#[derive(Clone, Debug, Default)]
pub struct DrillConfig {
    pub kind: String,
    pub labels: Option<String>,
    pub fields: Option<String>,
}

/// One column of a custom view.
#[derive(Clone, Debug, Default)]
pub struct ViewColumnConfig {
    pub metric: Option<String>,
    pub builtin: Option<String>,
    pub name: String,
    pub path: String,
    pub kind: Option<String>,
    pub format: Option<String>,
    pub wide: bool,
    pub width: Option<u16>,
    pub align: Option<String>,
    pub colors: Option<Vec<(String, String)>>,
}

/// Skin selection and per-swatch overrides.
#[derive(Clone, Debug, Default)]
pub struct Skin {
    pub name: Option<String>,
    pub colors: Vec<(String, String)>,
    pub background: bool,
}

/// A saved navigation command.
#[derive(Clone, Debug, Default)]
pub struct Bookmark {
    pub key: Option<String>,
    pub name: String,
    pub resource: String,
    pub namespace: Option<String>,
    pub context: Option<String>,
    pub filter: Option<String>,
    pub sort: Option<String>,
    pub view: Option<String>,
}

/// A task-oriented collection of views.
#[derive(Clone, Debug, Default)]
pub struct Workspace {
    pub key: Option<String>,
    pub name: String,
    pub context: Option<String>,
    pub views: Vec<WorkspaceView>,
}

/// One view within a workspace.
#[derive(Clone, Debug, Default)]
pub struct WorkspaceView {
    pub name: String,
    pub resource: String,
    pub namespace: Option<String>,
    pub filter: Option<String>,
    pub sort: Option<String>,
    pub view: Option<String>,
}

/// The text of an optional string.
pub open spec fn opt_text(o: Option<String>) -> Option<Seq<char>> {
    match o {
        Some(s) => Some(s@),
        None => None,
    }
}

pub fn clone_opt(o: &Option<String>) -> (r: Option<String>)
    ensures
        opt_text(r) == opt_text(*o),
{
    match o {
        Some(s) => Some(s.clone()),
        None => None,
    }
}

impl WorkspaceView {
    /// The equivalent bookmark: the same fields, with no key and no context.
    pub fn as_bookmark(&self) -> (b: Bookmark)
        ensures
            b.key is None,
            b.context is None,
            b.name@ == self.name@,
            b.resource@ == self.resource@,
            opt_text(b.namespace) == opt_text(self.namespace),
            opt_text(b.filter) == opt_text(self.filter),
            opt_text(b.sort) == opt_text(self.sort),
            opt_text(b.view) == opt_text(self.view),
    {
        Bookmark {
            key: None,
            name: self.name.clone(),
            resource: self.resource.clone(),
            namespace: clone_opt(&self.namespace),
            context: None,
            filter: clone_opt(&self.filter),
            sort: clone_opt(&self.sort),
            view: clone_opt(&self.view),
        }
    }
}

/// A declarative safety policy for dangerous actions.
#[derive(Clone, Debug, Default)]
pub struct Guardrail {
    pub contexts: Vec<String>,
    pub namespaces: Vec<String>,
    pub resources: Vec<String>,
    pub actions: Vec<String>,
    pub deny: bool,
    pub confirmation: Option<String>,
    pub max_bulk: Option<usize>,
    pub reason: Option<String>,
}

/// Upper bound for `mouse_scroll_lines`.
pub const MAX_MOUSE_SCROLL_LINES: u16 = 100;

/// Steps per wheel event: unset means 3, `0` means 1, and values above the
/// maximum mean the maximum.
pub open spec fn scroll_lines(value: Option<u16>) -> u16 {
    match value {
        None => 3,
        Some(n) => if n == 0 { 1 } else if n > MAX_MOUSE_SCROLL_LINES { MAX_MOUSE_SCROLL_LINES } else { n },
    }
}

/// The warning `mouse_scroll_lines` gives for `value`, if any.
pub open spec fn scroll_lines_warning(value: Option<u16>) -> Option<Seq<char>> {
    match value {
        Some(n) => if n == 0 {
            Some("mouse_scroll_lines: 0 is not allowed — using 1"@)
        } else if n > MAX_MOUSE_SCROLL_LINES {
            Some("mouse_scroll_lines: "@ + decimal(n as nat) + " is above the maximum of 100 — using 100"@)
        } else {
            None
        },
        None => None,
    }
}

/// Resolve `mouse_scroll_lines` (see `scroll_lines`), pushing a warning onto
/// `warnings` when the value had to be changed.
pub fn mouse_scroll_lines(value: Option<u16>, warnings: &mut Vec<String>) -> (r: u16)
    ensures
        r == scroll_lines(value),
        1 <= r <= MAX_MOUSE_SCROLL_LINES,
        texts(final(warnings)@) == match scroll_lines_warning(value) {
            Some(w) => texts(old(warnings)@).push(w),
            None => texts(old(warnings)@),
        },
{
    match value {
        None => 3,
        Some(0) => {
            let w = String::from_str("mouse_scroll_lines: 0 is not allowed — using 1");
            warnings.push(w);
            assert(texts(warnings@) =~= texts(old(warnings)@).push(w@));
            1
        },
        Some(n) => {
            if n > MAX_MOUSE_SCROLL_LINES {
                let mut w = String::from_str("mouse_scroll_lines: ");
                let d = decimal_string(n as u64);
                w.append(d.as_str());
                w.append(" is above the maximum of 100 — using 100");
                warnings.push(w);
                assert(texts(warnings@) =~= texts(old(warnings)@).push(w@));
                MAX_MOUSE_SCROLL_LINES
            } else {
                n
            }
        },
    }
}

/// A character that may stand in a directory name unchanged.
pub open spec fn dir_safe(c: char) -> bool {
    ('a' <= c && c <= 'z') || ('A' <= c && c <= 'Z') || ('0' <= c && c <= '9') || c == '.' || c == '_' || c == '-'
}

/// `name` with every unsafe character replaced by `-`.
pub open spec fn dashed(name: Seq<char>) -> Seq<char> {
    name.map_values(|c: char| if dir_safe(c) { c } else { '-' })
}

/// The directory name for a kubeconfig name: unsafe characters become `-`,
/// and a name of dots only (or nothing) becomes as many dashes (at least one).
pub open spec fn sanitized(name: Seq<char>) -> Seq<char> {
    let d = dashed(name);
    if forall|i: int| 0 <= i < d.len() ==> d[i] == '.' {
        Seq::new(if d.len() == 0 { 1 } else { d.len() }, |i: int| '-')
    } else {
        d
    }
}

/// Map a kubeconfig cluster/context name onto a safe directory name (see
/// `sanitized`).
pub fn sanitize(name: &str) -> (r: String)
    ensures
        r@ == sanitized(name@),
        r@.len() >= 1,
        forall|i: int| 0 <= i < r@.len() ==> dir_safe(#[trigger] r@[i]),
        !(forall|i: int| 0 <= i < r@.len() ==> #[trigger] r@[i] == '.'),
{
    let cs = chars_of(name);
    let mut out = String::new();
    let mut all_dots = true;
    let mut k: usize = 0;
    while k < cs.len()
        invariant
            cs@ == name@,
            k <= cs@.len(),
            out@ == dashed(name@).take(k as int),
            all_dots == forall|i: int| 0 <= i < k ==> dashed(name@)[i] == '.',
        decreases cs@.len() - k,
    {
        let c = cs[k];
        let safe = ('a' <= c && c <= 'z') || ('A' <= c && c <= 'Z') || ('0' <= c && c <= '9') || c == '.'
            || c == '_' || c == '-';
        let d = if safe { c } else { '-' };
        assert(d == dashed(name@)[k as int]);
        push_char(&mut out, d);
        assert(dashed(name@).take(k + 1) =~= dashed(name@).take(k as int).push(d));
        all_dots = all_dots && d == '.';
        k = k + 1;
    }
    assert(dashed(name@).take(cs@.len() as int) =~= dashed(name@));
    if all_dots {
        let n = if cs.len() == 0 { 1 } else { cs.len() };
        let mut dashes = String::new();
        let mut j: usize = 0;
        while j < n
            invariant
                j <= n,
                dashes@ == Seq::new(j as nat, |i: int| '-'),
            decreases n - j,
        {
            push_char(&mut dashes, '-');
            assert(dashes@ =~= Seq::new((j + 1) as nat, |i: int| '-'));
            j = j + 1;
        }
        assert(dashes@[0] == '-');
        return dashes;
    }
    proof {
        let d = dashed(name@);
        assert forall|i: int| 0 <= i < d.len() implies dir_safe(#[trigger] d[i]) by {
            assert(d[i] == (if dir_safe(name@[i]) { name@[i] } else { '-' }));
        }
    }
    out
}

/// How a config file read turned out, for the `:config` view.
pub enum ReadOutcome {
    /// Present and valid.
    Loaded,
    /// Not there.
    Absent,
    /// There but malformed; the message says why.
    Invalid(String),
}

/// The label the `:config` view shows for a read outcome.
pub open spec fn state_label(o: ReadOutcome) -> Seq<char> {
    match o {
        ReadOutcome::Loaded => "loaded"@,
        ReadOutcome::Absent => "absent"@,
        ReadOutcome::Invalid(_) => "invalid - skipped"@,
    }
}

/// `loaded`, `absent`, or `invalid - skipped`.
pub fn state_of(outcome: &ReadOutcome) -> (r: &'static str)
    ensures
        r@ == state_label(*outcome),
{
    match outcome {
        ReadOutcome::Loaded => "loaded",
        ReadOutcome::Absent => "absent",
        ReadOutcome::Invalid(_) => "invalid - skipped",
    }
}


/// Append `w` to the warnings.
pub fn push_text(warns: &mut Vec<String>, w: String)
    ensures
        texts(final(warns)@) == texts(old(warns)@).push(w@),
{
    warns.push(w);
    assert(texts(warns@) =~= texts(old(warns)@).push(w@));
}

/// `"<unnamed>"` for an empty name, else the name itself.
pub open spec fn label_of(name: Seq<char>) -> Seq<char> {
    if name.len() == 0 { "<unnamed>"@ } else { name }
}

fn label_str(name: &String) -> (r: &str)
    ensures
        r@ == label_of(name@),
{
    if name.as_str().is_empty() { "<unnamed>" } else { name.as_str() }
}

/// Whether the first element of `command` exists and is blank.
pub open spec fn blank_executable(command: Seq<String>) -> bool {
    command.len() > 0 && blank(command[0]@)
}

/// Warnings for `[notify]`: an unknown `desktop` protocol, and a `command`
/// whose executable is blank.
pub open spec fn notify_warning_list(cfg: NotifyConfig) -> Seq<Seq<char>> {
    let d = cfg.desktop@;
    (if d == "osc9"@ || d == "osc777"@ || d == "both"@ || d == "off"@ {
        Seq::empty()
    } else {
        seq!["notify: desktop '"@ + d + "' is not osc777/osc9/both/off; using osc777"@]
    }) + (if blank_executable(cfg.command@) {
        seq!["notify: command has an empty executable; ignored"@]
    } else {
        Seq::empty()
    })
}

/// Validate `[notify]` (see `notify_warning_list`).
pub fn notify_warnings(cfg: &NotifyConfig) -> (r: Vec<String>)
    ensures
        texts(r@) == notify_warning_list(*cfg),
{
    let mut warns: Vec<String> = Vec::new();
    let d = &cfg.desktop;
    if !(same_text(d, "osc9") || same_text(d, "osc777") || same_text(d, "both") || same_text(d, "off")) {
        let mut w = String::from_str("notify: desktop '");
        w.append(d.as_str());
        w.append("' is not osc777/osc9/both/off; using osc777");
        push_text(&mut warns, w);
    }
    let ghost first = texts(warns@);
    if cfg.command.len() > 0 && is_blank(cfg.command[0].as_str()) {
        push_text(&mut warns, String::from_str("notify: command has an empty executable; ignored"));
    }
    assert(texts(warns@) =~= notify_warning_list(*cfg));
    warns
}

/// Whether `c` is an ASCII digit.
pub open spec fn is_digit(c: char) -> bool {
    '0' <= c && c <= '9'
}

/// Number of `c` in `s`.
pub open spec fn count_of(s: Seq<char>, c: char) -> nat
    decreases s.len(),
{
    if s.len() == 0 {
        0
    } else {
        count_of(s.drop_last(), c) + if s.last() == c { 1nat } else { 0nat }
    }
}

/// A `LOCAL:REMOTE` port pair or a bare port: one or two runs of digits,
/// joined by a single `:`.
pub open spec fn ports_ok(p: Seq<char>) -> bool {
    &&& p.len() > 0
    &&& forall|i: int| 0 <= i < p.len() ==> is_digit(#[trigger] p[i]) || p[i] == ':'
    &&& count_of(p, ':') <= 1
    &&& p[0] != ':'
    &&& p.last() != ':'
}

/// Whether an earlier forward has the same, non-blank name.
pub open spec fn duplicate_forward(fs: Seq<Forward>, i: int) -> bool {
    exists|j: int| 0 <= j < i && !blank(#[trigger] fs[j].name@) && fs[j].name@ == fs[i].name@
}

/// Warnings for forward `i` of `fs`.
pub open spec fn forward_msgs(fs: Seq<Forward>, i: int) -> Seq<Seq<char>> {
    let f = fs[i];
    let label = label_of(f.name@);
    (if blank(f.name@) {
        seq!["forwards: entry with empty name"@]
    } else if duplicate_forward(fs, i) {
        seq!["forwards."@ + label + ": duplicate name"@]
    } else {
        Seq::empty()
    }) + (if blank(f.target@) {
        seq!["forwards."@ + label + ": empty target"@]
    } else {
        Seq::empty()
    }) + (if !ports_ok(f.ports@) {
        seq!["forwards."@ + label + ": ports '"@ + f.ports@ + "' is not LOCAL:REMOTE (e.g. 8080:80)"@]
    } else {
        Seq::empty()
    })
}

/// Warnings for the first `n` forwards, in order.
pub open spec fn forward_warning_list(fs: Seq<Forward>, n: int) -> Seq<Seq<char>>
    decreases n,
{
    if n <= 0 {
        Seq::empty()
    } else {
        forward_warning_list(fs, n - 1) + forward_msgs(fs, n - 1)
    }
}

fn ports_valid(p: &String) -> (r: bool)
    ensures
        r == ports_ok(p@),
{
    let cs = chars_of(p.as_str());
    let n = cs.len();
    if n == 0 {
        return false;
    }
    let mut colons: usize = 0;
    let mut k: usize = 0;
    while k < n
        invariant
            cs@ == p@,
            n == cs@.len(),
            k <= n,
            colons == count_of(cs@.take(k as int), ':'),
            colons <= k,
            forall|i: int| 0 <= i < k ==> is_digit(#[trigger] cs@[i]) || cs@[i] == ':',
        decreases n - k,
    {
        let c = cs[k];
        assert(cs@.take(k + 1).drop_last() =~= cs@.take(k as int));
        if !(('0' <= c && c <= '9') || c == ':') {
            return false;
        }
        if c == ':' {
            colons = colons + 1;
        }
        k = k + 1;
    }
    assert(cs@.take(n as int) =~= cs@);
    colons <= 1 && cs[0] != ':' && cs[n - 1] != ':'
}

/// Validate `[[forwards]]`: one warning per problem, in order. A blank name,
/// a name used before, a blank target, and ports that are not `LOCAL:REMOTE`
/// or a bare port each give one.
pub fn forward_warnings(forwards: &[Forward]) -> (r: Vec<String>)
    ensures
        texts(r@) == forward_warning_list(forwards@, forwards@.len() as int),
{
    let mut warns: Vec<String> = Vec::new();
    let n = forwards.len();
    let mut k: usize = 0;
    while k < n
        invariant
            n == forwards@.len(),
            k <= n,
            texts(warns@) == forward_warning_list(forwards@, k as int),
        decreases n - k,
    {
        let f = &forwards[k];
        let label = label_str(&f.name);
        let ghost before = texts(warns@);
        if is_blank(f.name.as_str()) {
            push_text(&mut warns, String::from_str("forwards: entry with empty name"));
        } else {
            let mut dup = false;
            let mut j: usize = 0;
            while j < k
                invariant
                    n == forwards@.len(),
                    k < n,
                    j <= k,
                    !blank(forwards@[k as int].name@),
                    *f == forwards@[k as int],
                    dup == exists|i: int| 0 <= i < j && !blank(#[trigger] forwards@[i].name@) && forwards@[i].name@ == forwards@[k as int].name@,
                decreases k - j,
            {
                if !is_blank(forwards[j].name.as_str()) && forwards[j].name == f.name {
                    dup = true;
                }
                j = j + 1;
            }
            if dup {
                let mut w = String::from_str("forwards.");
                w.append(label);
                w.append(": duplicate name");
                push_text(&mut warns, w);
            }
        }
        let ghost mid = texts(warns@);
        if is_blank(f.target.as_str()) {
            let mut w = String::from_str("forwards.");
            w.append(label);
            w.append(": empty target");
            push_text(&mut warns, w);
        }
        let ghost mid2 = texts(warns@);
        if !ports_valid(&f.ports) {
            let mut w = String::from_str("forwards.");
            w.append(label);
            w.append(": ports '");
            w.append(f.ports.as_str());
            w.append("' is not LOCAL:REMOTE (e.g. 8080:80)");
            push_text(&mut warns, w);
        }
        assert(texts(warns@) =~= before + forward_msgs(forwards@, k as int));
        k = k + 1;
    }
    warns
}


/// Value of a run of ASCII digits.
pub open spec fn digits_value(s: Seq<char>) -> int
    decreases s.len(),
{
    if s.len() == 0 {
        0
    } else {
        10 * digits_value(s.drop_last()) + (s.last() as int - 48)
    }
}

proof fn lemma_digits_value_grows(s: Seq<char>, k: int)
    requires
        0 <= k <= s.len(),
        forall|i: int| 0 <= i < s.len() ==> is_digit(#[trigger] s[i]),
    ensures
        0 <= digits_value(s.take(k)) <= digits_value(s),
    decreases s.len() - k,
{
    if k < s.len() {
        lemma_digits_value_grows(s, k + 1);
        assert(s.take(k + 1).drop_last() =~= s.take(k));
        assert(s.take(k + 1).last() == s[k]);
        assert(is_digit(s[k]));
    } else {
        assert(s.take(k) =~= s);
        lemma_digits_value_nonneg(s);
    }
}

proof fn lemma_digits_value_nonneg(s: Seq<char>)
    requires
        forall|i: int| 0 <= i < s.len() ==> is_digit(#[trigger] s[i]),
    ensures
        0 <= digits_value(s),
    decreases s.len(),
{
    if s.len() > 0 {
        assert(is_digit(s[s.len() - 1]));
        lemma_digits_value_nonneg(s.drop_last());
    }
}

/// Seconds per unit of a duration suffix: `s`, `m`, `h`, `d`.
pub open spec fn unit_seconds(c: char) -> Option<int> {
    if c == 's' {
        Some(1)
    } else if c == 'm' {
        Some(60)
    } else if c == 'h' {
        Some(3600)
    } else if c == 'd' {
        Some(86400)
    } else {
        None
    }
}

/// Whether `t` is digits followed by one unit letter.
pub open spec fn duration_shaped(t: Seq<char>) -> bool {
    &&& t.len() >= 2
    &&& forall|i: int| 0 <= i < t.len() - 1 ==> is_digit(#[trigger] t[i])
    &&& unit_seconds(t.last()) is Some
}

/// Seconds a duration shaped like `30m` stands for.
pub open spec fn duration_seconds(t: Seq<char>) -> int {
    digits_value(t.drop_last()) * unit_seconds(t.last())->0
}

/// What `parse_lookback` gives for `s`: seconds for a (trimmed) number
/// followed by `s`, `m`, `h` or `d` that fits in an `i64`, else a message.
pub open spec fn lookback_of(s: Seq<char>) -> Result<i64, Seq<char>> {
    let t = crate::text::trimmed(s);
    if !duration_shaped(t) {
        Err("'"@ + t + "' is not a duration such as 30s, 15m, 4h or 2d"@)
    } else if duration_seconds(t) > i64::MAX {
        Err("'"@ + t + "' is too long"@)
    } else {
        Ok(duration_seconds(t) as i64)
    }
}

/// Parse a lookback or lifetime such as `30m`, `4h` or `2d` into seconds.
pub fn parse_lookback(s: &str) -> (r: Result<i64, String>)
    ensures
        match lookback_of(s@) {
            Ok(v) => r == Ok::<i64, String>(v),
            Err(m) => r matches Err(e) && e@ == m,
        },
{
    let t = crate::text::trim_chars(s);
    let n = t.len();
    let ts = crate::text::string_from(&t);
    let mut bad = String::from_str("'");
    bad.append(ts.as_str());
    bad.append("' is not a duration such as 30s, 15m, 4h or 2d");
    if n < 2 {
        return Err(bad);
    }
    let u = t[n - 1];
    let unit: i64 = if u == 's' {
        1
    } else if u == 'm' {
        60
    } else if u == 'h' {
        3600
    } else if u == 'd' {
        86400
    } else {
        0
    };
    if unit == 0 {
        assert(unit_seconds(t@.last()) is None);
        return Err(bad);
    }
    let mut long = String::from_str("'");
    long.append(ts.as_str());
    long.append("' is too long");
    let ghost digits = t@.drop_last();
    let mut value: i64 = 0;
    let mut k: usize = 0;
    let mut overflow = false;
    while k < n - 1
        invariant
            n == t@.len(),
            n >= 2,
            t@ == crate::text::trimmed(s@),
            bad@ == "'"@ + t@ + "' is not a duration such as 30s, 15m, 4h or 2d"@,
            digits == t@.drop_last(),
            k <= n - 1,
            forall|i: int| 0 <= i < k ==> is_digit(#[trigger] t@[i]),
            !overflow ==> value == digits_value(digits.take(k as int)),
            overflow ==> digits_value(digits.take(k as int)) > i64::MAX,
            value >= 0,
        decreases n - 1 - k,
    {
        let c = t[k];
        if !('0' <= c && c <= '9') {
            assert(!duration_shaped(t@));
            return Err(bad);
        }
        proof {
            assert(digits.take(k + 1).drop_last() =~= digits.take(k as int));
            assert(digits.take(k + 1).last() == c);
        }
        let d = ((c as u32) - 48) as i64;
        if !overflow {
            match value.checked_mul(10) {
                Some(v10) => match v10.checked_add(d) {
                    Some(v) => {
                        value = v;
                    },
                    None => {
                        overflow = true;
                    },
                },
                None => {
                    overflow = true;
                    proof {
                        lemma_digits_value_nonneg(digits.take(k as int));
                    }
                },
            }
        } else {
            proof {
                assert forall|i: int| 0 <= i < k + 1 implies is_digit(#[trigger] digits.take(k + 1)[i]) by {
                    assert(digits.take(k + 1)[i] == t@[i]);
                }
                assert forall|i: int| 0 <= i < k implies is_digit(#[trigger] digits.take(k as int)[i]) by {
                    assert(digits.take(k as int)[i] == t@[i]);
                }
                lemma_digits_value_nonneg(digits.take(k as int));
            }
        }
        k = k + 1;
    }
    assert(digits.take(n - 1) =~= digits);
    assert(duration_shaped(t@));
    if overflow {
        return Err(long);
    }
    proof {
        lemma_digits_value_nonneg(digits);
    }
    match value.checked_mul(unit) {
        Some(v) => Ok(v),
        None => Err(long),
    }
}

/// Whether `s` names a log level: `off`, `error`, `warn`, `info`, `debug`
/// or `trace`, in any case, around whitespace.
pub open spec fn level_known(s: Seq<char>) -> bool {
    let l = crate::text::lower_seq(crate::text::trimmed(s));
    l == "off"@ || l == "error"@ || l == "warn"@ || l == "info"@ || l == "debug"@ || l == "trace"@
}

/// Whether `s` names a log level (see `level_known`).
pub fn parse_level(s: &str) -> (r: bool)
    ensures
        r == level_known(s@),
{
    let t = crate::text::trim_chars(s);
    let l = crate::text::lower_chars(&t);
    crate::text::chars_eq(&l, "off") || crate::text::chars_eq(&l, "error") || crate::text::chars_eq(&l, "warn")
        || crate::text::chars_eq(&l, "info") || crate::text::chars_eq(&l, "debug")
        || crate::text::chars_eq(&l, "trace")
}

/// Warnings for `[logging]`: a level that is none of the known ones, and a
/// file setting that is empty.
pub open spec fn logging_warning_list(cfg: LoggingConfig) -> Seq<Seq<char>> {
    (if level_known(cfg.level@) {
        Seq::empty()
    } else {
        seq!["logging: level '"@ + cfg.level@ + "' is not off/error/warn/info/debug/trace; logging disabled"@]
    }) + (if cfg.file matches Some(f) && f@.len() == 0 {
        seq!["logging: file is empty; using the default log path"@]
    } else {
        Seq::empty()
    })
}

/// Validate `[logging]` (see `logging_warning_list`).
pub fn logging_warnings(cfg: &LoggingConfig) -> (r: Vec<String>)
    ensures
        texts(r@) == logging_warning_list(*cfg),
{
    let mut warns: Vec<String> = Vec::new();
    if !parse_level(cfg.level.as_str()) {
        let mut w = String::from_str("logging: level '");
        w.append(cfg.level.as_str());
        w.append("' is not off/error/warn/info/debug/trace; logging disabled");
        push_text(&mut warns, w);
    }
    let empty_file = match &cfg.file {
        Some(f) => f.as_str().is_empty(),
        None => false,
    };
    if empty_file {
        push_text(&mut warns, String::from_str("logging: file is empty; using the default log path"));
    }
    assert(texts(warns@) =~= logging_warning_list(*cfg));
    warns
}

/// Warnings for `[pvc_explore]`: a blank image, and a lifetime that does
/// not parse or is not positive.
pub open spec fn pvc_warning_list(cfg: PvcExploreConfig) -> Seq<Seq<char>> {
    (if blank(cfg.image@) {
        seq!["pvc_explore: image is empty — helper pods cannot be created"@]
    } else {
        Seq::empty()
    }) + match lookback_of(cfg.ttl@) {
        Err(e) => seq!["pvc_explore: ttl: "@ + e + "; using 30m"@],
        Ok(secs) => if secs <= 0 {
            seq!["pvc_explore: ttl "@ + debug_quoted(cfg.ttl@) + " must be positive; using 30m"@]
        } else {
            Seq::empty()
        },
    }
}

/// Validate `[pvc_explore]` (see `pvc_warning_list`).
pub fn pvc_explore_warnings(cfg: &PvcExploreConfig) -> (r: Vec<String>)
    ensures
        texts(r@) == pvc_warning_list(*cfg),
{
    let mut warns: Vec<String> = Vec::new();
    if is_blank(cfg.image.as_str()) {
        push_text(&mut warns, String::from_str("pvc_explore: image is empty — helper pods cannot be created"));
    }
    match parse_lookback(cfg.ttl.as_str()) {
        Err(e) => {
            let mut w = String::from_str("pvc_explore: ttl: ");
            w.append(e.as_str());
            w.append("; using 30m");
            push_text(&mut warns, w);
        },
        Ok(secs) => {
            if secs <= 0 {
                let mut w = String::from_str("pvc_explore: ttl ");
                let q = debug_string(cfg.ttl.as_str());
                w.append(q.as_str());
                w.append(" must be positive; using 30m");
                push_text(&mut warns, w);
            }
        },
    }
    assert(texts(warns@) =~= pvc_warning_list(*cfg));
    warns
}


/// The warning for a key that spells no chord, if `key` is set and bad.
pub open spec fn key_msgs(what: Seq<char>, label: Seq<char>, key: Option<String>) -> Seq<Seq<char>> {
    match key {
        Some(k) => if chord_of(k@) is None {
            seq![what + " "@ + debug_quoted(label) + ": invalid key — "@ + chord_error(k@)]
        } else {
            Seq::empty()
        },
        None => Seq::empty(),
    }
}

/// Whether a view kind is one that bookmarks and workspaces can open.
pub open spec fn view_kind_ok(v: Seq<char>) -> bool {
    v == "xray"@ || v == "pulse"@
}

/// The warning for an unknown view kind, if `view` is set and unknown.
pub open spec fn view_msgs(what: Seq<char>, label: Seq<char>, view: Option<String>) -> Seq<Seq<char>> {
    match view {
        Some(v) => if view_kind_ok(v@) {
            Seq::empty()
        } else {
            seq![what + " "@ + debug_quoted(label) + ": unknown view "@ + debug_quoted(v@) + " (expected xray/pulse) — ignored"@]
        },
        None => Seq::empty(),
    }
}

/// Warnings for one bookmark: a blank name, a blank resource, a bad key,
/// an unknown view.
pub open spec fn bookmark_msgs(b: Bookmark) -> Seq<Seq<char>> {
    let label = label_of(b.name@);
    (if blank(b.name@) { seq!["bookmark: missing `name`"@] } else { Seq::empty() })
        + (if blank(b.resource@) {
        seq!["bookmark "@ + debug_quoted(label) + ": missing `resource`"@]
    } else {
        Seq::empty()
    }) + key_msgs("bookmark"@, label, b.key) + view_msgs("bookmark"@, label, b.view)
}

/// Warnings for all bookmarks, in order.
pub open spec fn bookmark_warning_list(bs: Seq<Bookmark>) -> Seq<Seq<char>>
    decreases bs.len(),
{
    if bs.len() == 0 {
        Seq::empty()
    } else {
        bookmark_warning_list(bs.drop_last()) + bookmark_msgs(bs.last())
    }
}

fn push_key_msgs(warns: &mut Vec<String>, what: &str, label: &str, key: &Option<String>)
    ensures
        texts(final(warns)@) == texts(old(warns)@) + key_msgs(what@, label@, *key),
{
    if let Some(k) = key {
        match KeyChord::parse(k.as_str()) {
            Err(e) => {
                let mut w = String::from_str(what);
                w.append(" ");
                let q = debug_string(label);
                w.append(q.as_str());
                w.append(": invalid key — ");
                w.append(e.as_str());
                push_text(warns, w);
            },
            Ok(_) => {},
        }
    }
    assert(texts(warns@) =~= texts(old(warns)@) + key_msgs(what@, label@, *key));
}

fn push_view_msgs(warns: &mut Vec<String>, what: &str, label: &str, view: &Option<String>)
    ensures
        texts(final(warns)@) == texts(old(warns)@) + view_msgs(what@, label@, *view),
{
    if let Some(v) = view {
        if !(same_text(v, "xray") || same_text(v, "pulse")) {
            let mut w = String::from_str(what);
            w.append(" ");
            let q = debug_string(label);
            w.append(q.as_str());
            w.append(": unknown view ");
            let qv = debug_string(v.as_str());
            w.append(qv.as_str());
            w.append(" (expected xray/pulse) — ignored");
            push_text(warns, w);
        }
    }
    assert(texts(warns@) =~= texts(old(warns)@) + view_msgs(what@, label@, *view));
}

/// Validate bookmarks (see `bookmark_msgs`); a broken bookmark is reported,
/// never fatal.
pub fn bookmark_warnings(bookmarks: &[Bookmark]) -> (r: Vec<String>)
    ensures
        texts(r@) == bookmark_warning_list(bookmarks@),
{
    let mut warns: Vec<String> = Vec::new();
    let n = bookmarks.len();
    let mut k: usize = 0;
    while k < n
        invariant
            n == bookmarks@.len(),
            k <= n,
            texts(warns@) == bookmark_warning_list(bookmarks@.take(k as int)),
        decreases n - k,
    {
        let b = &bookmarks[k];
        let ghost before = texts(warns@);
        let label = label_str(&b.name);
        if is_blank(b.name.as_str()) {
            push_text(&mut warns, String::from_str("bookmark: missing `name`"));
        }
        if is_blank(b.resource.as_str()) {
            let mut w = String::from_str("bookmark ");
            let q = debug_string(label);
            w.append(q.as_str());
            w.append(": missing `resource`");
            push_text(&mut warns, w);
        }
        push_key_msgs(&mut warns, "bookmark", label, &b.key);
        push_view_msgs(&mut warns, "bookmark", label, &b.view);
        proof {
            assert(bookmarks@.take(k + 1).drop_last() =~= bookmarks@.take(k as int));
            assert(bookmarks@.take(k + 1).last() == *b);
            assert(texts(warns@) =~= before + bookmark_msgs(*b));
        }
        k = k + 1;
    }
    assert(bookmarks@.take(n as int) =~= bookmarks@);
    warns
}

/// Warnings for the views of a workspace labelled `label`.
pub open spec fn workspace_view_msgs(label: Seq<char>, vs: Seq<WorkspaceView>) -> Seq<Seq<char>>
    decreases vs.len(),
{
    if vs.len() == 0 {
        Seq::empty()
    } else {
        let v = vs.last();
        workspace_view_msgs(label, vs.drop_last()) + (if blank(v.resource@) {
            seq!["workspace "@ + debug_quoted(label) + ": a view is missing `resource`"@]
        } else {
            Seq::empty()
        }) + view_msgs("workspace"@, label, v.view)
    }
}

/// Warnings for one workspace: a blank name, a bad key, no views, then its
/// views' problems.
pub open spec fn workspace_msgs(w: Workspace) -> Seq<Seq<char>> {
    let label = label_of(w.name@);
    (if blank(w.name@) { seq!["workspace: missing `name`"@] } else { Seq::empty() })
        + key_msgs("workspace"@, label, w.key)
        + (if w.views@.len() == 0 {
        seq!["workspace "@ + debug_quoted(label) + ": no [[workspaces.views]]"@]
    } else {
        Seq::empty()
    }) + workspace_view_msgs(label, w.views@)
}

/// Warnings for all workspaces, in order.
pub open spec fn workspace_warning_list(ws: Seq<Workspace>) -> Seq<Seq<char>>
    decreases ws.len(),
{
    if ws.len() == 0 {
        Seq::empty()
    } else {
        workspace_warning_list(ws.drop_last()) + workspace_msgs(ws.last())
    }
}

/// Validate workspaces (see `workspace_msgs`).
pub fn workspace_warnings(workspaces: &[Workspace]) -> (r: Vec<String>)
    ensures
        texts(r@) == workspace_warning_list(workspaces@),
{
    let mut warns: Vec<String> = Vec::new();
    let n = workspaces.len();
    let mut k: usize = 0;
    while k < n
        invariant
            n == workspaces@.len(),
            k <= n,
            texts(warns@) == workspace_warning_list(workspaces@.take(k as int)),
        decreases n - k,
    {
        let ws = &workspaces[k];
        let ghost before = texts(warns@);
        let label = label_str(&ws.name);
        if is_blank(ws.name.as_str()) {
            push_text(&mut warns, String::from_str("workspace: missing `name`"));
        }
        push_key_msgs(&mut warns, "workspace", label, &ws.key);
        if ws.views.len() == 0 {
            let mut w = String::from_str("workspace ");
            let q = debug_string(label);
            w.append(q.as_str());
            w.append(": no [[workspaces.views]]");
            push_text(&mut warns, w);
        }
        let ghost mid = texts(warns@);
        let nv = ws.views.len();
        let mut j: usize = 0;
        while j < nv
            invariant
                nv == ws.views@.len(),
                j <= nv,
                label@ == label_of(ws.name@),
                texts(warns@) == mid + workspace_view_msgs(label@, ws.views@.take(j as int)),
            decreases nv - j,
        {
            let v = &ws.views[j];
            let ghost vbefore = texts(warns@);
            if is_blank(v.resource.as_str()) {
                let mut w = String::from_str("workspace ");
                let q = debug_string(label);
                w.append(q.as_str());
                w.append(": a view is missing `resource`");
                push_text(&mut warns, w);
            }
            push_view_msgs(&mut warns, "workspace", label, &v.view);
            proof {
                assert(ws.views@.take(j + 1).drop_last() =~= ws.views@.take(j as int));
                assert(ws.views@.take(j + 1).last() == *v);
                assert(texts(warns@) =~= mid + workspace_view_msgs(label@, ws.views@.take(j + 1)));
            }
            j = j + 1;
        }
        proof {
            assert(ws.views@.take(nv as int) =~= ws.views@);
            assert(workspaces@.take(k + 1).drop_last() =~= workspaces@.take(k as int));
            assert(workspaces@.take(k + 1).last() == *ws);
            assert(texts(warns@) =~= before + workspace_msgs(*ws));
        }
        k = k + 1;
    }
    assert(workspaces@.take(n as int) =~= workspaces@);
    warns
}

/// Whether a guardrail confirmation mode is one of the known ones.
pub open spec fn confirmation_ok(c: Seq<char>) -> bool {
    c == "confirm"@ || c == "type-resource-name"@ || c == "type-context-name"@
}

/// The warning for guardrail number `number` (counting from one).
pub open spec fn guardrail_msgs(number: nat, g: Guardrail) -> Seq<Seq<char>> {
    match g.confirmation {
        Some(c) => if confirmation_ok(c@) {
            Seq::empty()
        } else {
            seq!["guardrail #"@ + decimal(number) + ": unknown confirmation "@ + debug_quoted(c@)
                + " (expected confirm/type-resource-name/type-context-name) — treated as confirm"@]
        },
        None => Seq::empty(),
    }
}

/// Warnings for the first `n` guardrails, in order.
pub open spec fn guardrail_warning_list(gs: Seq<Guardrail>, n: int) -> Seq<Seq<char>>
    decreases n,
{
    if n <= 0 {
        Seq::empty()
    } else {
        guardrail_warning_list(gs, n - 1) + guardrail_msgs(n as nat, gs[n - 1])
    }
}

/// Validate guardrails: an unknown `confirmation` mode warns (and is
/// treated as `confirm`).
pub fn guardrail_warnings(guardrails: &[Guardrail]) -> (r: Vec<String>)
    ensures
        texts(r@) == guardrail_warning_list(guardrails@, guardrails@.len() as int),
{
    let mut warns: Vec<String> = Vec::new();
    let n = guardrails.len();
    let mut k: usize = 0;
    while k < n
        invariant
            n == guardrails@.len(),
            k <= n,
            texts(warns@) == guardrail_warning_list(guardrails@, k as int),
        decreases n - k,
    {
        let g = &guardrails[k];
        let ghost before = texts(warns@);
        if let Some(c) = &g.confirmation {
            if !(same_text(c, "confirm") || same_text(c, "type-resource-name") || same_text(c, "type-context-name")) {
                let mut w = String::from_str("guardrail #");
                let d = decimal_string((k as u64) + 1);
                w.append(d.as_str());
                w.append(": unknown confirmation ");
                let q = debug_string(c.as_str());
                w.append(q.as_str());
                w.append(" (expected confirm/type-resource-name/type-context-name) — treated as confirm");
                push_text(&mut warns, w);
            }
        }
        assert(texts(warns@) =~= before + guardrail_msgs((k + 1) as nat, *g));
        k = k + 1;
    }
    warns
}


/// Number of empty texts among the first `n` of `s`.
pub open spec fn empty_count(s: Seq<String>, n: int) -> nat
    decreases n,
{
    if n <= 0 {
        0
    } else {
        empty_count(s, n - 1) + if s[n - 1]@.len() == 0 { 1nat } else { 0nat }
    }
}

/// The warning given once per empty label prefix.
pub open spec fn empty_prefix_warning() -> Seq<char> {
    "node_roles.label_prefixes: empty prefix ignored"@
}

impl NodeRoles {
    /// Normalized label sources: prefixes without the empty ones (each
    /// dropped with a warning), prefixes and keys sorted and without
    /// duplicates.
    pub fn compile(&self) -> (r: (NodeRoles, Vec<String>))
        ensures
            crate::order::strictly_sorted(texts(r.0.label_prefixes@)),
            forall|t: Seq<char>| texts(r.0.label_prefixes@).contains(t) <==> (t.len() > 0 && texts(self.label_prefixes@).contains(t)),
            crate::order::strictly_sorted(texts(r.0.label_keys@)),
            forall|t: Seq<char>| texts(r.0.label_keys@).contains(t) <==> texts(self.label_keys@).contains(t),
            texts(r.1@) == Seq::new(empty_count(self.label_prefixes@, self.label_prefixes@.len() as int), |i: int| empty_prefix_warning()),
    {
        let mut prefixes: Vec<String> = Vec::new();
        let mut warnings: Vec<String> = Vec::new();
        let ghost src = texts(self.label_prefixes@);
        let n = self.label_prefixes.len();
        let mut k: usize = 0;
        while k < n
            invariant
                n == self.label_prefixes@.len(),
                src == texts(self.label_prefixes@),
                k <= n,
                crate::order::strictly_sorted(texts(prefixes@)),
                forall|t: Seq<char>| texts(prefixes@).contains(t) <==> (t.len() > 0 && src.take(k as int).contains(t)),
                texts(warnings@) == Seq::new(empty_count(self.label_prefixes@, k as int), |i: int| empty_prefix_warning()),
            decreases n - k,
        {
            let p = &self.label_prefixes[k];
            let ghost before = texts(prefixes@);
            proof {
                assert(src.take(k + 1) =~= src.take(k as int).push(p@));
            }
            if p.as_str().is_empty() {
                push_text(&mut warnings, String::from_str("node_roles.label_prefixes: empty prefix ignored"));
                assert(texts(warnings@) =~= Seq::new(empty_count(self.label_prefixes@, k + 1), |i: int| empty_prefix_warning()));
                assert forall|t: Seq<char>| texts(prefixes@).contains(t) <==> (t.len() > 0 && src.take(k + 1).contains(t)) by {
                    if t.len() > 0 && src.take(k + 1).contains(t) {
                        let pre1 = src.take(k + 1);
                        let i = choose|i: int| 0 <= i < pre1.len() && pre1[i] == t;
                        if i < k {
                            assert(src.take(k as int)[i] == t);
                        }
                    }
                    if src.take(k as int).contains(t) {
                        let pre0 = src.take(k as int);
                        let i = choose|i: int| 0 <= i < pre0.len() && pre0[i] == t;
                        assert(src.take(k + 1)[i] == t);
                    }
                }
            } else {
                crate::order::insert_sorted(&mut prefixes, p.clone());
                assert(texts(warnings@) =~= Seq::new(empty_count(self.label_prefixes@, k + 1), |i: int| empty_prefix_warning()));
                assert forall|t: Seq<char>| texts(prefixes@).contains(t) <==> (t.len() > 0 && src.take(k + 1).contains(t)) by {
                    if t.len() > 0 && src.take(k + 1).contains(t) {
                        let pre1 = src.take(k + 1);
                        let i = choose|i: int| 0 <= i < pre1.len() && pre1[i] == t;
                        if i < k {
                            assert(src.take(k as int)[i] == t);
                        }
                    }
                    if src.take(k as int).contains(t) {
                        let pre0 = src.take(k as int);
                        let i = choose|i: int| 0 <= i < pre0.len() && pre0[i] == t;
                        assert(src.take(k + 1)[i] == t);
                    }
                    if t == p@ {
                        assert(src.take(k + 1)[k as int] == t);
                    }
                }
            }
            k = k + 1;
        }
        assert(src.take(n as int) =~= src);
        let keys = sorted_unique(&self.label_keys);
        (NodeRoles { label_prefixes: prefixes, label_keys: keys }, warnings)
    }
}

/// The texts of `v`, strictly sorted, each once.
pub fn sorted_unique(v: &Vec<String>) -> (r: Vec<String>)
    ensures
        crate::order::strictly_sorted(texts(r@)),
        forall|t: Seq<char>| texts(r@).contains(t) <==> texts(v@).contains(t),
{
    let mut out: Vec<String> = Vec::new();
    let ghost src = texts(v@);
    let n = v.len();
    let mut k: usize = 0;
    while k < n
        invariant
            n == v@.len(),
            src == texts(v@),
            k <= n,
            crate::order::strictly_sorted(texts(out@)),
            forall|t: Seq<char>| texts(out@).contains(t) <==> src.take(k as int).contains(t),
        decreases n - k,
    {
        let x = &v[k];
        proof {
            assert(src.take(k + 1) =~= src.take(k as int).push(x@));
        }
        crate::order::insert_sorted(&mut out, x.clone());
        assert forall|t: Seq<char>| texts(out@).contains(t) <==> src.take(k + 1).contains(t) by {
            if src.take(k + 1).contains(t) {
                let pre1 = src.take(k + 1);
                let i = choose|i: int| 0 <= i < pre1.len() && pre1[i] == t;
                if i < k {
                    assert(src.take(k as int)[i] == t);
                }
            }
            if src.take(k as int).contains(t) {
                let pre0 = src.take(k as int);
                let i = choose|i: int| 0 <= i < pre0.len() && pre0[i] == t;
                assert(src.take(k + 1)[i] == t);
            }
            if t == x@ {
                assert(src.take(k + 1)[k as int] == t);
            }
        }
        k = k + 1;
    }
    assert(src.take(n as int) =~= src);
    out
}


/// Compiling compiled label sources changes nothing: the prefixes and keys
/// that a second compile keeps (strictly sorted, the same texts as the
/// first compile's non-empty ones) are the first compile's.
pub proof fn law_compile_idempotent(first: Seq<Seq<char>>, second: Seq<Seq<char>>)
    requires
        crate::order::strictly_sorted(first),
        forall|t: Seq<char>| first.contains(t) ==> t.len() > 0,
        crate::order::strictly_sorted(second),
        forall|t: Seq<char>| second.contains(t) <==> (t.len() > 0 && first.contains(t)),
    ensures
        second == first,
{
    crate::order::law_strictly_sorted_unique(second, first);
}

/// A plugin from `[[plugins]]`: a key chord or palette name that runs a
/// command for the selected row (or the context).
#[derive(Clone, Debug, Default)]
pub struct Plugin {
    /// Key chord that triggers the plugin.
    pub key: String,
    /// Optional command-palette name, independent of the executable.
    pub palette: Option<String>,
    pub requires: Vec<String>,
    pub install: Option<String>,
    /// When the input form opens for a run without arguments: `missing`
    /// (default) only when an input has no default, `always` for any input.
    pub prompt: Option<String>,
    /// `context` runs once without requiring a selected row; default `selection`.
    pub target: Option<String>,
    /// Declare traffic generation even when no Kubernetes objects are mutated.
    pub network_load: bool,
    /// Remote port (or an input placeholder) to forward for the selected pod/service.
    pub port_forward: Option<String>,
    /// Set for a package sofka ships, whose adapter is this binary.
    pub bundled: bool,
    pub name: String,
    pub command: String,
    pub args: Vec<String>,
    pub scopes: Vec<String>,
    /// Whether the plugin can modify the cluster; absent means it can.
    pub mutating: Option<bool>,
    /// Confirm (showing the exact command) before running.
    pub confirm: bool,
    /// Mark the plugin dangerous: implies `confirm`.
    pub dangerous: bool,
    /// Run the command through `sh -c` instead of executing the argv directly.
    pub shell: bool,
    /// Output mode: `terminal` (default), `popup`, `background` or `report`.
    pub output: Option<String>,
    /// Timeout for `popup`/`background` runs (`"30s"`, `"2m"`). Default 30s.
    pub timeout: Option<String>,
}

/// The placeholders sofka expands in a plugin's argv, never inside a shell
/// script.
pub open spec fn plugin_placeholders() -> Seq<Seq<char>> {
    seq![
        "$NAMESPACE"@,
        "$NS"@,
        "$NAME"@,
        "$CONTEXT"@,
        "$CLUSTER"@,
        "$RESOURCE"@,
        "$GROUP"@,
        "$VERSION"@,
        "$KIND"@,
        "$FILTER"@,
    ]
}

/// The first of the first `n` placeholders that occurs in `command`.
pub open spec fn first_placeholder(command: Seq<char>, n: int) -> Option<Seq<char>>
    decreases n,
{
    if n <= 0 {
        None
    } else {
        match first_placeholder(command, n - 1) {
            Some(p) => Some(p),
            None => if crate::text::occurs_in(command, plugin_placeholders()[n - 1]) {
                Some(plugin_placeholders()[n - 1])
            } else {
                None
            },
        }
    }
}

/// The warning for plugin `p`'s name and the rest of the message.
pub open spec fn plugin_msg(p: Plugin, rest: Seq<char>) -> Seq<char> {
    "plugin "@ + debug_quoted(p.name@) + rest
}

/// Problems with one plugin, in order: a key that is no chord (unless it
/// is empty and the plugin has a palette name), an unknown output or prompt,
/// a timeout that is no duration, and a shell script with a placeholder.
pub open spec fn plugin_msgs(p: Plugin) -> Seq<Seq<char>> {
    (if !(p.key@.len() == 0 && p.palette is Some) && chord_of(p.key@) is None {
        seq![plugin_msg(p, ": invalid key — "@ + chord_error(p.key@))]
    } else {
        Seq::empty()
    }) + (match p.output {
        Some(o) => if !(o@ == "terminal"@ || o@ == "popup"@ || o@ == "background"@ || o@ == "report"@) {
            seq![
                plugin_msg(
                    p,
                    ": unknown output "@ + debug_quoted(o@) + " (expected terminal/popup/background/report) — using terminal"@,
                ),
            ]
        } else {
            Seq::empty()
        },
        None => Seq::empty(),
    }) + (match p.prompt {
        Some(o) => if !(o@ == "missing"@ || o@ == "always"@) {
            seq![plugin_msg(p, ": unknown prompt "@ + debug_quoted(o@) + " (expected missing/always) — using missing"@)]
        } else {
            Seq::empty()
        },
        None => Seq::empty(),
    }) + (match p.timeout {
        Some(t) => match lookback_of(t@) {
            Err(e) => seq![plugin_msg(p, ": timeout: "@ + e + " — using 30s"@)],
            Ok(_) => Seq::empty(),
        },
        None => Seq::empty(),
    }) + (if p.shell && first_placeholder(p.command@, 10) is Some {
        seq![
            plugin_msg(
                p,
                ": shell command contains "@ + first_placeholder(p.command@, 10)->0
                    + ", which sofka does not expand there — pass it in args and use \"$1\""@,
            ),
        ]
    } else {
        Seq::empty()
    })
}

/// Problems with each plugin in turn.
pub open spec fn plugin_warning_list(ps: Seq<Plugin>) -> Seq<Seq<char>>
    decreases ps.len(),
{
    if ps.len() == 0 {
        Seq::empty()
    } else {
        plugin_warning_list(ps.drop_last()) + plugin_msgs(ps.last())
    }
}

fn placeholders() -> (r: Vec<&'static str>)
    ensures
        crate::keymap::strs_view(r@) == plugin_placeholders(),
{
    let r = vec!["$NAMESPACE", "$NS", "$NAME", "$CONTEXT", "$CLUSTER", "$RESOURCE", "$GROUP", "$VERSION", "$KIND", "$FILTER"];
    assert(crate::keymap::strs_view(r@) =~= plugin_placeholders());
    r
}

fn first_placeholder_of(command: &str) -> (r: Option<&'static str>)
    ensures
        match r {
            Some(p) => first_placeholder(command@, 10) == Some(p@),
            None => first_placeholder(command@, 10) is None,
        },
{
    let ps = placeholders();
    assert(crate::keymap::strs_view(ps@).len() == ps@.len());
    let mut k: usize = 0;
    while k < ps.len()
        invariant
            k <= ps@.len(),
            ps@.len() == 10,
            crate::keymap::strs_view(ps@) == plugin_placeholders(),
            first_placeholder(command@, k as int) is None,
        decreases ps@.len() - k,
    {
        assert(ps@[k as int]@ == plugin_placeholders()[k as int]);
        if crate::text::contains_str(command, ps[k]) {
            proof {
                lemma_first_placeholder_settles(command@, k + 1, 10);
            }
            return Some(ps[k]);
        }
        k = k + 1;
    }
    None
}

/// Once some placeholder among the first `n` occurs, more placeholders do
/// not change the first.
proof fn lemma_first_placeholder_settles(command: Seq<char>, n: int, m: int)
    requires
        n <= m,
        first_placeholder(command, n) is Some,
    ensures
        first_placeholder(command, m) == first_placeholder(command, n),
    decreases m - n,
{
    if n < m {
        lemma_first_placeholder_settles(command, n, m - 1);
    }
}

fn plugin_warning(warns: &mut Vec<String>, p: &Plugin, rest: &str)
    ensures
        texts(final(warns)@) == texts(old(warns)@).push(plugin_msg(*p, rest@)),
{
    let mut w = String::from_str("plugin ");
    let q = debug_string(p.name.as_str());
    w.append(q.as_str());
    w.append(rest);
    push_text(warns, w);
}

fn push_plugin_msgs(warns: &mut Vec<String>, p: &Plugin)
    ensures
        texts(final(warns)@) == texts(old(warns)@) + plugin_msgs(*p),
{
    let ghost w0 = texts(warns@);
    let ghost a = if !(p.key@.len() == 0 && p.palette is Some) && chord_of(p.key@) is None {
        seq![plugin_msg(*p, ": invalid key — "@ + chord_error(p.key@))]
    } else {
        Seq::<Seq<char>>::empty()
    };
    proof {
        reveal_strlit("");
        assert(""@.len() == 0);
        assert(p.key@.len() == 0 ==> p.key@ =~= ""@);
    }
    let empty_key = same_text(&p.key, "");
    assert(empty_key == (p.key@.len() == 0));
    if !(empty_key && p.palette.is_some()) {
        match KeyChord::parse(p.key.as_str()) {
            Err(e) => {
                let mut rest = String::from_str(": invalid key — ");
                rest.append(e.as_str());
                plugin_warning(warns, p, rest.as_str());
            },
            Ok(_) => {},
        }
    }
    assert(texts(warns@) =~= w0 + a);
    let ghost w1 = texts(warns@);
    if let Some(o) = &p.output {
        if !(same_text(o, "terminal") || same_text(o, "popup") || same_text(o, "background") || same_text(o, "report")) {
            let mut rest = String::from_str(": unknown output ");
            let q = debug_string(o.as_str());
            rest.append(q.as_str());
            rest.append(" (expected terminal/popup/background/report) — using terminal");
            plugin_warning(warns, p, rest.as_str());
        }
    }
    let ghost w2 = texts(warns@);
    if let Some(o) = &p.prompt {
        if !(same_text(o, "missing") || same_text(o, "always")) {
            let mut rest = String::from_str(": unknown prompt ");
            let q = debug_string(o.as_str());
            rest.append(q.as_str());
            rest.append(" (expected missing/always) — using missing");
            plugin_warning(warns, p, rest.as_str());
        }
    }
    let ghost w3 = texts(warns@);
    if let Some(t) = &p.timeout {
        match parse_lookback(t.as_str()) {
            Err(e) => {
                let mut rest = String::from_str(": timeout: ");
                rest.append(e.as_str());
                rest.append(" — using 30s");
                plugin_warning(warns, p, rest.as_str());
            },
            Ok(_) => {},
        }
    }
    let ghost w4 = texts(warns@);
    if p.shell {
        if let Some(ph) = first_placeholder_of(p.command.as_str()) {
            let mut rest = String::from_str(": shell command contains ");
            rest.append(ph);
            rest.append(", which sofka does not expand there — pass it in args and use \"$1\"");
            plugin_warning(warns, p, rest.as_str());
        }
    }
    assert(texts(warns@) =~= w0 + plugin_msgs(*p));
}

/// Problems with each plugin in turn (see `plugin_msgs`); none is fatal.
pub fn plugin_warnings(plugins: &[Plugin]) -> (r: Vec<String>)
    ensures
        texts(r@) == plugin_warning_list(plugins@),
{
    let mut warns: Vec<String> = Vec::new();
    let n = plugins.len();
    let mut k: usize = 0;
    assert(texts(warns@) =~= plugin_warning_list(plugins@.take(0)));
    while k < n
        invariant
            n == plugins@.len(),
            k <= n,
            texts(warns@) == plugin_warning_list(plugins@.take(k as int)),
        decreases n - k,
    {
        proof {
            assert(plugins@.take(k + 1).drop_last() =~= plugins@.take(k as int));
            assert(plugins@.take(k + 1).last() == plugins@[k as int]);
        }
        push_plugin_msgs(&mut warns, &plugins[k]);
        k = k + 1;
    }
    assert(plugins@.take(n as int) =~= plugins@);
    warns
}

} // verus!
