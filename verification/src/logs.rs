//! The log view's line buffer: per-line timestamps that can be hidden and
//! shown again, lines kept in time order as they arrive from several
//! streams, and the buffer bound.

use crate::config::texts;
use crate::text::{chars_of, string_from};
use vstd::prelude::*;
use vstd::string::StringExecFns;

verus! {

/// Nanoseconds since the Unix epoch of an RFC 3339 timestamp, as `jiff`
/// parses it, or `None` when `jiff` rejects the text.
pub uninterp spec fn timestamp_nanos(s: Seq<char>) -> Option<i128>;

/// `s.parse::<jiff::Timestamp>()` (through `k8s-openapi`'s re-export), in
/// nanoseconds. The result is named, not spelled out.
#[verifier::external_body]
fn parse_timestamp(s: &str) -> (r: Option<i128>)
    ensures
        r == timestamp_nanos(s@),
{
    s.parse::<k8s_openapi::jiff::Timestamp>().ok().map(|t| t.as_nanosecond())
}

/// `jiff::Timestamp::now()` in nanoseconds: the clock, so nothing is stated
/// of it.
#[verifier::external_body]
fn now_nanos() -> (r: i128) {
    k8s_openapi::jiff::Timestamp::now().as_nanosecond()
}

/// What the buffer remembers of one line.
#[derive(Debug, Default)]
pub struct LogLineMeta {
    /// The time the line sorts by.
    pub sort_time: Option<i128>,
    /// The line as pretty-printed JSON, when that has been made.
    pub pretty: Option<String>,
    /// Where the line's leading timestamp starts (in characters) and its
    /// text, the following space included.
    pub timestamp: Option<(usize, String)>,
    /// Whether the line has been looked at for JSON.
    pub checked_json: bool,
    /// Bytes of the JSON budget this line holds.
    pub json_charge: usize,
}

/// First index `i >= from` with `] ` at `i`, or the length when none.
pub open spec fn close_bracket(cs: Seq<char>, from: int) -> int
    decreases cs.len() - from,
{
    if from < 0 || from + 1 >= cs.len() {
        cs.len() as int
    } else if cs[from] == ']' && cs[from + 1] == ' ' {
        from
    } else {
        close_bracket(cs, from + 1)
    }
}

/// First index `i >= from` holding a space, or the length when none.
pub open spec fn space_from(cs: Seq<char>, from: int) -> int
    decreases cs.len() - from,
{
    if from < 0 || from >= cs.len() {
        cs.len() as int
    } else if cs[from] == ' ' {
        from
    } else {
        space_from(cs, from + 1)
    }
}

pub proof fn lemma_close_bracket(cs: Seq<char>, from: int)
    requires
        0 <= from,
    ensures
        from <= close_bracket(cs, from) <= cs.len() || close_bracket(cs, from) == cs.len(),
        close_bracket(cs, from) <= cs.len(),
        close_bracket(cs, from) < cs.len() ==> close_bracket(cs, from) + 1 < cs.len(),
    decreases cs.len() - from,
{
    if from + 1 < cs.len() && !(cs[from] == ']' && cs[from + 1] == ' ') {
        lemma_close_bracket(cs, from + 1);
    }
}

proof fn lemma_space_from(cs: Seq<char>, from: int)
    requires
        0 <= from <= cs.len(),
    ensures
        from <= space_from(cs, from) <= cs.len(),
    decreases cs.len() - from,
{
    if from < cs.len() && cs[from] != ' ' {
        lemma_space_from(cs, from + 1);
    }
}

/// Where a leading timestamp may start: after a `[source] ` prefix, if the
/// line has one.
pub open spec fn stamp_start(cs: Seq<char>) -> int {
    if cs.len() > 0 && cs[0] == '[' {
        let c = close_bracket(cs, 0);
        if c < cs.len() { c + 2 } else { 0 }
    } else {
        0
    }
}

/// Where the leading timestamp's text ends (at the next space).
pub open spec fn stamp_end(cs: Seq<char>) -> int {
    space_from(cs, stamp_start(cs))
}

/// The leading timestamp of a line, when its text parses: where it starts
/// and its text including one following space.
pub open spec fn stamp_of(cs: Seq<char>) -> Option<(int, Seq<char>, i128)> {
    let s = stamp_start(cs);
    let e = stamp_end(cs);
    match timestamp_nanos(cs.subrange(s, e)) {
        Some(t) => Some((s, cs.subrange(s, if e + 1 < cs.len() { e + 1 } else { cs.len() as int }), t)),
        None => None,
    }
}

proof fn lemma_stamp_bounds(cs: Seq<char>)
    ensures
        0 <= stamp_start(cs) <= stamp_end(cs) <= cs.len(),
{
    lemma_close_bracket(cs, 0);
    lemma_space_from(cs, stamp_start(cs));
}

pub fn subrange_string(cs: &Vec<char>, from: usize, to: usize) -> (r: String)
    requires
        from <= to <= cs@.len(),
    ensures
        r@ == cs@.subrange(from as int, to as int),
{
    let mut s = String::new();
    let mut k = from;
    while k < to
        invariant
            from <= k <= to,
            to <= cs@.len(),
            s@ == cs@.subrange(from as int, k as int),
        decreases to - k,
    {
        crate::text::push_char(&mut s, cs[k]);
        assert(cs@.subrange(from as int, k + 1) =~= cs@.subrange(from as int, k as int).push(cs@[k as int]));
        k = k + 1;
    }
    s
}

impl LogLineMeta {
    /// Read a line's leading timestamp (after an optional `[source] `
    /// prefix). A line without one sorts at `fallback`, the newest time
    /// seen, or at the current time when there is none.
    pub fn parse(line: &str, fallback: Option<i128>) -> (r: LogLineMeta)
        ensures
            r.pretty is None,
            !r.checked_json,
            r.json_charge == 0,
            match stamp_of(line@) {
                Some((s, ts, t)) => r.sort_time == Some(t) && stamp_view(r.timestamp) == Some((s, ts)),
                None => r.timestamp is None && r.sort_time is Some && (fallback is Some ==> r.sort_time == fallback),
            },
    {
        let cs = chars_of(line);
        let n = cs.len();
        proof {
            lemma_stamp_bounds(line@);
            lemma_close_bracket(line@, 0);
        }
        let mut start: usize = 0;
        if n > 0 && cs[0] == '[' {
            let mut i: usize = 0;
            while i + 1 < n && !(cs[i] == ']' && cs[i + 1] == ' ')
                invariant
                    cs@ == line@,
                    n == cs@.len(),
                    close_bracket(cs@, i as int) == close_bracket(cs@, 0),
                    i < n,
                decreases n - i,
            {
                i = i + 1;
            }
            if i + 1 < n {
                start = i + 2;
            }
        }
        assert(start == stamp_start(line@));
        let mut end = start;
        while end < n && cs[end] != ' '
            invariant
                cs@ == line@,
                n == cs@.len(),
                start <= end <= n,
                space_from(cs@, end as int) == space_from(cs@, start as int),
            decreases n - end,
        {
            end = end + 1;
        }
        let token = subrange_string(&cs, start, end);
        match parse_timestamp(token.as_str()) {
            Some(t) => {
                let stop = if end < n { end + 1 } else { n };
                let ts = subrange_string(&cs, start, stop);
                LogLineMeta { sort_time: Some(t), pretty: None, timestamp: Some((start, ts)), checked_json: false, json_charge: 0 }
            },
            None => {
                let t = match fallback {
                    Some(f) => f,
                    None => now_nanos(),
                };
                LogLineMeta { sort_time: Some(t), pretty: None, timestamp: None, checked_json: false, json_charge: 0 }
            },
        }
    }
}

/// `a` sorts no later than `b`: no time sorts first, then by time.
pub open spec fn time_le(a: Option<i128>, b: Option<i128>) -> bool {
    match (a, b) {
        (None, _) => true,
        (Some(_), None) => false,
        (Some(x), Some(y)) => x <= y,
    }
}

/// The sort times of `meta`.
pub open spec fn sort_times(meta: Seq<LogLineMeta>) -> Seq<Option<i128>> {
    meta.map_values(|m: LogLineMeta| m.sort_time)
}

/// Times in non-decreasing order.
pub open spec fn times_sorted(t: Seq<Option<i128>>) -> bool {
    forall|i: int, j: int| 0 <= i < j < t.len() ==> time_le(#[trigger] t[i], #[trigger] t[j])
}

/// Where a line sorting at `t` goes: after every line that sorts no later.
pub open spec fn insert_position(times: Seq<Option<i128>>, t: Option<i128>) -> int
    decreases times.len(),
{
    if times.len() == 0 {
        0
    } else if time_le(times.last(), t) {
        times.len() as int
    } else {
        insert_position(times.drop_last(), t)
    }
}

/// A timestamp record as a position and text.
pub open spec fn stamp_view(t: Option<(usize, String)>) -> Option<(int, Seq<char>)> {
    match t {
        Some((s, ts)) => Some((s as int, ts@)),
        None => None,
    }
}

/// `cs` with `ts` put in at `at`.
pub open spec fn with_stamp(cs: Seq<char>, at: int, ts: Seq<char>) -> Seq<char> {
    cs.take(at) + ts + cs.skip(at)
}

/// `cs` with the `len` characters at `at` taken out.
pub open spec fn without_stamp(cs: Seq<char>, at: int, len: int) -> Seq<char> {
    cs.take(at) + cs.skip(at + len)
}

/// Whether text `cs` agrees with a timestamp record: when timestamps are
/// shown the timestamp text sits at its place, else the place is inside.
pub open spec fn stamp_fits(cs: Seq<char>, stamp: Option<(int, Seq<char>)>, shown: bool) -> bool {
    match stamp {
        Some((s, ts)) => if shown {
            0 <= s && s + ts.len() <= cs.len() && cs.subrange(s, s + ts.len()) == ts
        } else {
            0 <= s <= cs.len()
        },
        None => true,
    }
}

/// Line `i` agrees with its timestamp record.
pub open spec fn entry_fits(lines: Seq<String>, meta: Seq<LogLineMeta>, shown: bool, i: int) -> bool {
    stamp_fits(lines[i]@, stamp_view(meta[i].timestamp), shown)
}

/// The pretty form of record `i`, if any, agrees with the record's
/// timestamp.
pub open spec fn pretty_fits(meta: Seq<LogLineMeta>, shown: bool, i: int) -> bool {
    match meta[i].pretty {
        Some(p) => stamp_fits(p@, stamp_view(meta[i].timestamp), shown),
        None => true,
    }
}

/// Every pretty form agrees with its record's timestamp.
pub open spec fn prettys_fit(meta: Seq<LogLineMeta>, shown: bool) -> bool {
    forall|i: int| 0 <= i < meta.len() ==> #[trigger] pretty_fits(meta, shown, i)
}

/// Every line with a record agrees with it.
pub open spec fn entries_fit(lines: Seq<String>, meta: Seq<LogLineMeta>, shown: bool) -> bool {
    forall|i: int| 0 <= i < meta.len() ==> #[trigger] entry_fits(lines, meta, shown, i)
}

proof fn lemma_entries_insert(lines: Seq<String>, meta: Seq<LogLineMeta>, shown: bool, p: int, l: String, m: LogLineMeta)
    requires
        entries_fit(lines, meta, shown),
        meta.len() == lines.len(),
        0 <= p <= lines.len(),
        stamp_fits(l@, stamp_view(m.timestamp), shown),
    ensures
        entries_fit(lines.insert(p, l), meta.insert(p, m), shown),
{
    let nl = lines.insert(p, l);
    let nm = meta.insert(p, m);
    assert forall|i: int| 0 <= i < nm.len() implies #[trigger] entry_fits(nl, nm, shown, i) by {
        if i < p {
            assert(nl[i] == lines[i] && nm[i] == meta[i]);
            assert(entry_fits(lines, meta, shown, i));
        } else if i > p {
            assert(nl[i] == lines[i - 1] && nm[i] == meta[i - 1]);
            assert(entry_fits(lines, meta, shown, i - 1));
        }
    }
}

proof fn lemma_prettys_insert(meta: Seq<LogLineMeta>, shown: bool, p: int, m: LogLineMeta)
    requires
        prettys_fit(meta, shown),
        0 <= p <= meta.len(),
        pretty_fits(seq![m], shown, 0),
    ensures
        prettys_fit(meta.insert(p, m), shown),
{
    let nm = meta.insert(p, m);
    assert forall|i: int| 0 <= i < nm.len() implies #[trigger] pretty_fits(nm, shown, i) by {
        if i < p {
            assert(nm[i] == meta[i]);
            assert(pretty_fits(meta, shown, i));
        } else if i > p {
            assert(nm[i] == meta[i - 1]);
            assert(pretty_fits(meta, shown, i - 1));
        } else {
            assert(seq![m][0] == m);
        }
    }
}

proof fn lemma_padded_prettys(meta: Seq<LogLineMeta>, n: int, shown: bool)
    requires
        prettys_fit(meta, shown),
        meta.len() <= n,
    ensures
        prettys_fit(padded_meta(meta, n), shown),
{
    let pm = padded_meta(meta, n);
    assert forall|i: int| 0 <= i < pm.len() implies #[trigger] pretty_fits(pm, shown, i) by {
        if i < meta.len() {
            assert(pm[i] == meta[i]);
            assert(pretty_fits(meta, shown, i));
        }
    }
}

/// The lines of a log view and what is known of each.
pub struct LogsView {
    /// The lines, as displayed.
    pub lines: Vec<String>,
    /// What is known of each line; may be shorter than `lines`.
    pub meta: Vec<LogLineMeta>,
    /// Whether leading timestamps are shown.
    pub timestamps: bool,
    /// Whether JSON records are shown pretty-printed.
    pub json: bool,
    /// Whether the view follows new lines.
    pub follow: bool,
    /// Bumped whenever lines already shown change.
    pub revision: u64,
    /// Bytes left for pretty-printed records.
    pub json_budget: usize,
    /// The external formatter's argv; empty for the built-in one.
    pub format_command: Vec<String>,
    /// Whether the external formatter could not be started.
    pub format_broken: bool,
}

impl LogsView {
    /// The buffer's invariant: no more records than lines, and each line
    /// agrees with its timestamp record.
    pub open spec fn wf(&self) -> bool {
        &&& self.meta@.len() <= self.lines@.len()
        &&& entries_fit(self.lines@, self.meta@, self.timestamps)
    }

    /// Every pretty form agrees with its record's timestamp, as toggling
    /// the timestamps needs.
    pub open spec fn prettys_fit(&self) -> bool {
        prettys_fit(self.meta@, self.timestamps)
    }

    /// An empty view with timestamps shown.
    pub fn new() -> (r: LogsView)
        ensures
            r.wf(),
            r.lines@.len() == 0,
            r.meta@.len() == 0,
            r.timestamps,
            !r.json,
            r.follow,
            r.json_budget == crate::pretty::JSON_CACHE_LIMIT,
            r.format_command@.len() == 0,
            !r.format_broken,
    {
        LogsView {
            lines: Vec::new(),
            meta: Vec::new(),
            timestamps: true,
            json: false,
            follow: true,
            revision: 0,
            json_budget: crate::pretty::JSON_CACHE_LIMIT,
            format_command: Vec::new(),
            format_broken: false,
        }
    }

    /// The text shown for line `i`: its pretty-printed JSON while that view
    /// is on and the line has one, else the line itself.
    pub fn display_line(&self, i: usize) -> (r: &str)
        requires
            i < self.lines@.len(),
        ensures
            r@ == if self.json && i < self.meta@.len() && self.meta@[i as int].pretty is Some {
                self.meta@[i as int].pretty->0@
            } else {
                self.lines@[i as int]@
            },
    {
        if self.json && i < self.meta.len() {
            match &self.meta[i].pretty {
                Some(p) => {
                    return p.as_str();
                },
                None => {},
            }
        }
        self.lines[i].as_str()
    }
}


/// `cs` with `ts` put in at `at`.
fn insert_text(cs: &Vec<char>, at: usize, ts: &Vec<char>) -> (r: String)
    requires
        at <= cs@.len(),
    ensures
        r@ == with_stamp(cs@, at as int, ts@),
{
    let mut out = subrange_string(cs, 0, at);
    let mid = string_from(ts);
    out.append(mid.as_str());
    let tail = subrange_string(cs, at, cs.len());
    out.append(tail.as_str());
    assert(cs@.take(at as int) =~= cs@.subrange(0, at as int));
    assert(cs@.skip(at as int) =~= cs@.subrange(at as int, cs@.len() as int));
    out
}

/// `cs` with the `len` characters at `at` taken out.
fn remove_text(cs: &Vec<char>, at: usize, len: usize) -> (r: String)
    requires
        at + len <= cs@.len(),
    ensures
        r@ == without_stamp(cs@, at as int, len as int),
{
    let n = cs.len();
    let mut out = subrange_string(cs, 0, at);
    let tail = subrange_string(cs, at + len, n);
    out.append(tail.as_str());
    assert(cs@.take(at as int) =~= cs@.subrange(0, at as int));
    assert(cs@.skip(at + len) =~= cs@.subrange(at + len, cs@.len() as int));
    out
}

/// The text a line is kept as: without its leading timestamp while
/// timestamps are hidden.
pub open spec fn shown_text(cs: Seq<char>, shown: bool) -> Seq<char> {
    match stamp_of(cs) {
        Some((s, ts, _)) => if shown { cs } else { without_stamp(cs, s, ts.len() as int) },
        None => cs,
    }
}

/// Sort times of the lines, `None` for lines without a record.
pub open spec fn padded_times(meta: Seq<LogLineMeta>, n: int) -> Seq<Option<i128>> {
    sort_times(meta) + Seq::new((n - meta.len()) as nat, |i: int| None::<i128>)
}

/// A record that knows nothing of its line.
pub open spec fn empty_meta() -> LogLineMeta {
    LogLineMeta { sort_time: None, pretty: None, timestamp: None, checked_json: false, json_charge: 0 }
}

/// `meta` grown to `n` records with empty ones.
pub open spec fn padded_meta(meta: Seq<LogLineMeta>, n: int) -> Seq<LogLineMeta> {
    meta + Seq::new((n - meta.len()) as nat, |i: int| empty_meta())
}

proof fn lemma_insert_position(times: Seq<Option<i128>>, t: Option<i128>)
    ensures
        0 <= insert_position(times, t) <= times.len(),
        forall|i: int| insert_position(times, t) <= i < times.len() ==> !time_le(#[trigger] times[i], t)
            || !times_sorted(times),
        times_sorted(times) ==> forall|i: int| 0 <= i < insert_position(times, t) ==> time_le(#[trigger] times[i], t),
    decreases times.len(),
{
    if times.len() > 0 && !time_le(times.last(), t) {
        let d = times.drop_last();
        lemma_insert_position(d, t);
        if times_sorted(times) {
            assert(times_sorted(d)) by {
                assert forall|i: int, j: int| 0 <= i < j < d.len() implies time_le(#[trigger] d[i], #[trigger] d[j]) by {
                    assert(d[i] == times[i] && d[j] == times[j]);
                }
            }
            assert forall|i: int| insert_position(times, t) <= i < times.len() implies !time_le(#[trigger] times[i], t) by {
                if i < d.len() {
                    assert(d[i] == times[i]);
                }
            }
            assert forall|i: int| 0 <= i < insert_position(times, t) implies time_le(#[trigger] times[i], t) by {
                assert(d[i] == times[i]);
            }
        } else {
        }
    } else if times.len() > 0 && times_sorted(times) {
        assert forall|i: int| 0 <= i < times.len() implies time_le(#[trigger] times[i], t) by {
            if i < times.len() - 1 {
                assert(time_le(times[i], times[times.len() - 1]));
            }
        }
    }
}

/// Inserting a time at its `insert_position` keeps sorted times sorted.
pub proof fn lemma_insert_keeps_sorted(times: Seq<Option<i128>>, t: Option<i128>)
    requires
        times_sorted(times),
    ensures
        times_sorted(times.insert(insert_position(times, t), t)),
{
    lemma_insert_position(times, t);
    let p = insert_position(times, t);
    let nt = times.insert(p, t);
    assert forall|i: int, j: int| 0 <= i < j < nt.len() implies time_le(#[trigger] nt[i], #[trigger] nt[j]) by {
        if j < p {
            assert(nt[i] == times[i] && nt[j] == times[j]);
        } else if j == p {
            assert(nt[i] == times[i]);
        } else if i == p {
            assert(nt[j] == times[j - 1]);
            assert(!time_le(times[j - 1], t));
        } else if i < p {
            assert(nt[i] == times[i] && nt[j] == times[j - 1]);
        } else {
            assert(nt[i] == times[i - 1] && nt[j] == times[j - 1]);
        }
    }
}

fn time_le_exec(a: Option<i128>, b: Option<i128>) -> (r: bool)
    ensures
        r == time_le(a, b),
{
    match (a, b) {
        (None, _) => true,
        (Some(_), None) => false,
        (Some(x), Some(y)) => x <= y,
    }
}

pub(crate) fn clone_stamp(t: &Option<(usize, String)>) -> (r: Option<(usize, String)>)
    ensures
        stamp_view(r) == stamp_view(*t),
{
    match t {
        Some((s, ts)) => Some((*s, ts.clone())),
        None => None,
    }
}

impl LogsView {
    /// Give every line a record, lines without one getting an empty record.
    pub(crate) fn pad_meta(&mut self)
        requires
            old(self).wf(),
        ensures
            final(self).wf(),
            final(self).meta@ == padded_meta(old(self).meta@, old(self).lines@.len() as int),
            final(self).json_budget == old(self).json_budget,
            final(self).format_command@ == old(self).format_command@,
            final(self).format_broken == old(self).format_broken,
            final(self).meta@.len() == final(self).lines@.len(),
            final(self).lines@ == old(self).lines@,
            final(self).timestamps == old(self).timestamps,
            final(self).json == old(self).json,
            final(self).follow == old(self).follow,
            final(self).revision == old(self).revision,
            sort_times(final(self).meta@) == padded_times(old(self).meta@, old(self).lines@.len() as int),
    {
        let ghost om = self.meta@;
        assert(padded_meta(om, om.len() as int) =~= om);
        while self.meta.len() < self.lines.len()
            invariant
                self.wf(),
                self.lines@ == old(self).lines@,
                self.timestamps == old(self).timestamps,
                self.json == old(self).json,
                self.follow == old(self).follow,
                self.revision == old(self).revision,
                om.len() <= self.meta@.len() <= self.lines@.len(),
                sort_times(self.meta@) == padded_times(om, self.meta@.len() as int),
                self.meta@ == padded_meta(om, self.meta@.len() as int),
                self.json_budget == old(self).json_budget,
                self.format_command@ == old(self).format_command@,
                self.format_broken == old(self).format_broken,
            decreases self.lines@.len() - self.meta@.len(),
        {
            let ghost before = self.meta@;
            self.meta.push(LogLineMeta { sort_time: None, pretty: None, timestamp: None, checked_json: false, json_charge: 0 });
            proof {
                assert(sort_times(self.meta@) =~= sort_times(before).push(None));
                assert(padded_times(om, self.meta@.len() as int) =~= padded_times(om, before.len() as int).push(None));
                assert(padded_meta(om, self.meta@.len() as int) =~= padded_meta(om, before.len() as int).push(empty_meta()));
                assert forall|i: int| 0 <= i < self.meta@.len() implies #[trigger] entry_fits(self.lines@, self.meta@, self.timestamps, i) by {
                    if i < before.len() {
                        assert(self.meta@[i] == before[i]);
                        assert(entry_fits(self.lines@, before, self.timestamps, i));
                    }
                }
            }
        }
    }

    /// Add one line where its time puts it: after every line that sorts no
    /// later, so lines with equal times keep their arrival order. A line
    /// without a timestamp sorts at the newest time seen (the last line's).
    /// While timestamps are hidden, the line's own is taken out. While the
    /// JSON view is on with the built-in formatter, the line is looked at
    /// for a JSON record (see `json_step`); with an external formatter it
    /// is left for `prepare_json`. Returns where the line went.
    #[verifier::rlimit(50)]
    #[verifier::spinoff_prover]
    pub fn push_line(&mut self, line: String) -> (p: usize)
        requires
            old(self).wf(),
            old(self).lines@.len() < usize::MAX,
        ensures
            final(self).wf(),
            final(self).timestamps == old(self).timestamps,
            final(self).json == old(self).json,
            final(self).follow == old(self).follow,
            final(self).format_command@ == old(self).format_command@,
            final(self).format_broken == old(self).format_broken,
            if old(self).json && old(self).format_command@.len() == 0 {
                let s = crate::pretty::json_step(
                    false,
                    None,
                    0,
                    stamp_view(final(self).meta@[p as int].timestamp),
                    final(self).lines@[p as int]@,
                    old(self).json_budget as int,
                    false,
                    old(self).format_broken,
                );
                &&& crate::config::opt_text(final(self).meta@[p as int].pretty) == s.0
                &&& final(self).json_budget == s.1
                &&& final(self).meta@[p as int].json_charge == s.2
                &&& final(self).meta@[p as int].checked_json
            } else {
                &&& final(self).meta@[p as int].pretty is None
                &&& final(self).json_budget == old(self).json_budget
                &&& final(self).meta@[p as int].json_charge == 0
                &&& !final(self).meta@[p as int].checked_json
            },
            final(self).meta@.len() == final(self).lines@.len(),
            p <= old(self).lines@.len(),
            p == insert_position(padded_times(old(self).meta@, old(self).lines@.len() as int), final(self).meta@[p as int].sort_time),
            final(self).meta@[p as int].sort_time is Some,
            texts(final(self).lines@) == texts(old(self).lines@).insert(p as int, shown_text(line@, old(self).timestamps)),
            sort_times(final(self).meta@) == padded_times(old(self).meta@, old(self).lines@.len() as int).insert(p as int, final(self).meta@[p as int].sort_time),
            match stamp_of(line@) {
                Some((_, _, t)) => final(self).meta@[p as int].sort_time == Some(t),
                None => old(self).lines@.len() > 0 && padded_times(old(self).meta@, old(self).lines@.len() as int).last() is Some
                    ==> final(self).meta@[p as int].sort_time == padded_times(old(self).meta@, old(self).lines@.len() as int).last(),
            },
            times_sorted(padded_times(old(self).meta@, old(self).lines@.len() as int)) ==> times_sorted(sort_times(final(self).meta@)),
            old(self).timestamps && old(self).prettys_fit() ==> final(self).prettys_fit(),
    {
        self.pad_meta();
        proof {
            if old(self).timestamps && old(self).prettys_fit() {
                lemma_padded_prettys(old(self).meta@, old(self).lines@.len() as int, true);
            }
        }
        let ghost times = sort_times(self.meta@);
        let ghost old_lines = texts(self.lines@);
        let n = self.lines.len();
        let fallback = if n > 0 { self.meta[n - 1].sort_time } else { None };
        proof {
            if n > 0 {
                assert(times.last() == self.meta@[n - 1].sort_time);
            }
        }
        let mut meta = LogLineMeta::parse(line.as_str(), fallback);
        let text = shown_line(line, self.timestamps, &meta);
        let ghost m0 = meta;
        let ghost b0 = self.json_budget as int;
        if self.json && self.format_command.len() == 0 {
            let mut budget = self.json_budget;
            let mut broken = self.format_broken;
            let _ = meta.format_json(text.as_str(), &mut budget, &self.format_command, &mut broken);
            self.json_budget = budget;
        }
        let t = meta.sort_time;
        let p = insert_index(&self.meta, t);
        let ghost newm = meta;
        let ghost om = self.meta@;
        let ghost ol = self.lines@;
        proof {
            lemma_entries_insert(ol, om, self.timestamps, p as int, text, newm);
            lemma_insert_position(times, t);
            if old(self).timestamps && old(self).prettys_fit() {
                assert(pretty_fits(seq![newm], true, 0)) by {
                    assert(seq![m0][0] == m0);
                    crate::pretty::lemma_step_keeps_fit(m0, text@, b0, false, self.format_broken);
                    assert(seq![newm][0] == newm);
                }
                lemma_prettys_insert(om, true, p as int, newm);
            }
        }
        self.meta.insert(p, meta);
        self.lines.insert(p, text);
        if p < n {
            self.revision = self.revision.wrapping_add(1);
        }
        proof {
            assert(self.meta@[p as int] == newm);
            assert(sort_times(self.meta@) =~= times.insert(p as int, t));
            assert(texts(self.lines@) =~= old_lines.insert(p as int, text@));
            if times_sorted(times) {
                lemma_insert_keeps_sorted(times, t);
            }
        }
        p
    }
}

/// The text to keep for `line`, given its record from `LogLineMeta::parse`.
fn shown_line(line: String, shown: bool, meta: &LogLineMeta) -> (r: String)
    requires
        meta.pretty is None,
        match stamp_of(line@) {
            Some((s, ts, t)) => meta.sort_time == Some(t) && stamp_view(meta.timestamp) == Some((s, ts)),
            None => meta.timestamp is None,
        },
    ensures
        r@ == shown_text(line@, shown),
        stamp_fits(r@, stamp_view(meta.timestamp), shown),
{
    proof {
        lemma_stamp_bounds(line@);
        match stamp_of(line@) {
            Some((s, ts, _)) => {
                assert(line@.subrange(s, s + ts.len()) =~= ts);
            },
            None => {},
        }
    }
    if !shown {
        match &meta.timestamp {
            Some((s, ts)) => {
                let cs = chars_of(line.as_str());
                let tcs = chars_of(ts.as_str());
                return remove_text(&cs, *s, tcs.len());
            },
            None => {},
        }
    }
    line
}

/// Index after every record whose time sorts no later than `t`, scanning
/// from the end.
fn insert_index(meta: &Vec<LogLineMeta>, t: Option<i128>) -> (p: usize)
    ensures
        p == insert_position(sort_times(meta@), t),
        p <= meta@.len(),
{
    let ghost times = sort_times(meta@);
    let n = meta.len();
    let mut p: usize = n;
    assert(times.take(n as int) =~= times);
    while p > 0 && !time_le_exec(meta[p - 1].sort_time, t)
        invariant
            n == meta@.len(),
            times == sort_times(meta@),
            p <= n,
            insert_position(times.take(p as int), t) == insert_position(times, t),
        decreases p,
    {
        proof {
            assert(times.take(p as int).drop_last() =~= times.take(p - 1));
            assert(times.take(p as int).last() == meta@[p - 1].sort_time);
        }
        p = p - 1;
    }
    proof {
        if p > 0 {
            assert(times.take(p as int).last() == meta@[p - 1].sort_time);
        }
        lemma_insert_position(times.take(p as int), t);
    }
    p
}


/// A line after a timestamp toggle: the timestamp put back when they are
/// now shown, taken out when they are now hidden.
pub open spec fn toggled(cs: Seq<char>, stamp: Option<(int, Seq<char>)>, now_shown: bool) -> Seq<char> {
    match stamp {
        Some((s, ts)) => if now_shown {
            with_stamp(cs, s, ts)
        } else {
            without_stamp(cs, s, ts.len() as int)
        },
        None => cs,
    }
}

/// Toggling twice gives the text back.
pub proof fn law_toggle_twice_restores(cs: Seq<char>, stamp: Option<(int, Seq<char>)>, shown: bool)
    requires
        stamp_fits(cs, stamp, shown),
    ensures
        stamp_fits(toggled(cs, stamp, !shown), stamp, !shown),
        toggled(toggled(cs, stamp, !shown), stamp, shown) == cs,
{
    match stamp {
        Some((si, ts)) => {
            if shown {
                let w = without_stamp(cs, si, ts.len() as int);
                assert(with_stamp(w, si, ts) =~= cs) by {
                    assert(cs =~= cs.take(si) + cs.subrange(si, si + ts.len()) + cs.skip(si + ts.len()));
                }
            } else {
                let w = with_stamp(cs, si, ts);
                assert(w.subrange(si, si + ts.len()) =~= ts);
                assert(without_stamp(w, si, ts.len() as int) =~= cs);
            }
        },
        None => {},
    }
}

fn toggle_text(text: &String, stamp: &Option<(usize, String)>, now_shown: bool) -> (r: String)
    requires
        stamp_fits(text@, stamp_view(*stamp), !now_shown),
    ensures
        r@ == toggled(text@, stamp_view(*stamp), now_shown),
{
    match stamp {
        Some((s, ts)) => {
            let cs = chars_of(text.as_str());
            let tcs = chars_of(ts.as_str());
            if now_shown {
                insert_text(&cs, *s, &tcs)
            } else {
                remove_text(&cs, *s, tcs.len())
            }
        },
        None => text.clone(),
    }
}

impl LogsView {
    /// Show or hide the leading timestamps of every line (and of its
    /// pretty form) that has one.
    pub fn toggle_timestamps(&mut self)
        requires
            old(self).wf(),
            old(self).prettys_fit(),
        ensures
            final(self).wf(),
            final(self).prettys_fit(),
            final(self).timestamps == !old(self).timestamps,
            final(self).json == old(self).json,
            final(self).follow == old(self).follow,
            final(self).meta@.len() == old(self).meta@.len(),
            final(self).lines@.len() == old(self).lines@.len(),
            forall|i: int| 0 <= i < old(self).meta@.len() ==> #[trigger] final(self).lines@[i]@
                == toggled(old(self).lines@[i]@, stamp_view(old(self).meta@[i].timestamp), final(self).timestamps),
            forall|i: int| old(self).meta@.len() <= i < old(self).lines@.len() ==> #[trigger] final(self).lines@[i]@
                == old(self).lines@[i]@,
            forall|i: int| 0 <= i < old(self).meta@.len() ==> (#[trigger] final(self).meta@[i]).sort_time == old(self).meta@[i].sort_time
                && stamp_view(final(self).meta@[i].timestamp) == stamp_view(old(self).meta@[i].timestamp)
                && crate::config::opt_text(final(self).meta@[i].pretty) == match old(self).meta@[i].pretty {
                    Some(p) => Some(toggled(p@, stamp_view(old(self).meta@[i].timestamp), final(self).timestamps)),
                    None => None,
                },
    {
        let now = !self.timestamps;
        let ghost ol = self.lines@;
        let ghost om = self.meta@;
        let mut new_meta: Vec<LogLineMeta> = Vec::new();
        let m = self.meta.len();
        let mut i: usize = 0;
        while i < m
            invariant
                m == om.len(),
                om == self.meta@,
                self.timestamps == !now,
                self.json == old(self).json,
                self.follow == old(self).follow,
                self.meta@.len() <= self.lines@.len(),
                entries_fit(ol, om, !now),
                prettys_fit(om, !now),
                i <= m,
                self.lines@.len() == ol.len(),
                new_meta@.len() == i,
                forall|j: int| 0 <= j < i ==> #[trigger] self.lines@[j]@ == toggled(ol[j]@, stamp_view(om[j].timestamp), now),
                forall|j: int| i <= j < ol.len() ==> #[trigger] self.lines@[j] == ol[j],
                forall|j: int| 0 <= j < i ==> (#[trigger] new_meta@[j]).sort_time == om[j].sort_time
                    && stamp_view(new_meta@[j].timestamp) == stamp_view(om[j].timestamp)
                    && crate::config::opt_text(new_meta@[j].pretty) == match om[j].pretty {
                        Some(p) => Some(toggled(p@, stamp_view(om[j].timestamp), now)),
                        None => None,
                    },
            decreases m - i,
        {
            assert(entry_fits(ol, om, !now, i as int));
            assert(pretty_fits(om, !now, i as int));
            let stamp = &self.meta[i].timestamp;
            let line = toggle_text(&self.lines[i], stamp, now);
            let pretty = match &self.meta[i].pretty {
                Some(p) => Some(toggle_text(p, stamp, now)),
                None => None,
            };
            let rec = LogLineMeta {
                sort_time: self.meta[i].sort_time,
                pretty,
                timestamp: clone_stamp(stamp),
                checked_json: self.meta[i].checked_json,
                json_charge: self.meta[i].json_charge,
            };
            new_meta.push(rec);
            self.lines.set(i, line);
            i = i + 1;
        }
        self.meta = new_meta;
        self.timestamps = now;
        self.revision = self.revision.wrapping_add(1);
        proof {
            assert forall|j: int| 0 <= j < self.meta@.len() implies #[trigger] entry_fits(self.lines@, self.meta@, now, j) by {
                assert(entry_fits(ol, om, !now, j));
                law_toggle_twice_restores(ol[j]@, stamp_view(om[j].timestamp), !now);
            }
            assert forall|j: int| 0 <= j < self.meta@.len() implies #[trigger] pretty_fits(self.meta@, now, j) by {
                assert(pretty_fits(om, !now, j));
                match om[j].pretty {
                    Some(p) => {
                        law_toggle_twice_restores(p@, stamp_view(om[j].timestamp), !now);
                    },
                    None => {},
                }
            }
        }
    }

    /// Drop the `n` oldest lines (and their records).
    pub fn drain_front(&mut self, n: usize)
        requires
            old(self).wf(),
        ensures
            final(self).wf(),
            final(self).timestamps == old(self).timestamps,
            final(self).json == old(self).json,
            final(self).follow == old(self).follow,
            texts(final(self).lines@) == texts(old(self).lines@).skip(
                if n as int <= old(self).lines@.len() { n as int } else { old(self).lines@.len() as int },
            ),
            sort_times(final(self).meta@) == sort_times(old(self).meta@).skip(
                if n as int <= old(self).meta@.len() { n as int } else { old(self).meta@.len() as int },
            ),
            old(self).prettys_fit() ==> final(self).prettys_fit(),
            final(self).json_budget == old(self).json_budget,
            final(self).format_command@ == old(self).format_command@,
            final(self).format_broken == old(self).format_broken,
    {
        let nl = if n <= self.lines.len() { n } else { self.lines.len() };
        let nm = if n <= self.meta.len() { n } else { self.meta.len() };
        let ghost ol = self.lines@;
        let ghost om = self.meta@;
        let mut lines: Vec<String> = Vec::new();
        let mut meta: Vec<LogLineMeta> = Vec::new();
        let mut k = nl;
        while k < self.lines.len()
            invariant
                nl <= k <= ol.len(),
                self.lines@ == ol,
                lines@ == ol.subrange(nl as int, k as int),
            decreases ol.len() - k,
        {
            lines.push(self.lines[k].clone());
            assert(lines@ =~= ol.subrange(nl as int, k + 1)) by {
                assert(lines@.last()@ == ol[k as int]@);
            }
            k = k + 1;
        }
        let mut j = nm;
        let ghost om2: Seq<LogLineMeta> = Seq::empty();
        while j < self.meta.len()
            invariant
                nm <= j <= om.len(),
                self.meta@ == om,
                meta@.len() == j - nm,
                forall|q: int| 0 <= q < j - nm ==> (#[trigger] meta@[q]).sort_time == om[nm + q].sort_time
                    && stamp_view(meta@[q].timestamp) == stamp_view(om[nm + q].timestamp)
                    && crate::config::opt_text(meta@[q].pretty) == crate::config::opt_text(om[nm + q].pretty),
            decreases om.len() - j,
        {
            let rec = LogLineMeta {
                sort_time: self.meta[j].sort_time,
                pretty: crate::config::clone_opt(&self.meta[j].pretty),
                timestamp: clone_stamp(&self.meta[j].timestamp),
                checked_json: self.meta[j].checked_json,
                json_charge: self.meta[j].json_charge,
            };
            meta.push(rec);
            j = j + 1;
        }
        self.lines = lines;
        self.meta = meta;
        proof {
            assert(texts(self.lines@) =~= texts(ol).skip(nl as int)) by {
                assert forall|q: int| 0 <= q < texts(self.lines@).len() implies texts(self.lines@)[q] == texts(ol).skip(nl as int)[q] by {
                    assert(self.lines@[q] == ol[nl + q]);
                }
            }
            assert(sort_times(self.meta@) =~= sort_times(om).skip(nm as int));
            assert forall|q: int| 0 <= q < self.meta@.len() implies #[trigger] entry_fits(self.lines@, self.meta@, self.timestamps, q) by {
                assert(entry_fits(ol, om, self.timestamps, nm + q));
                assert(self.lines@[q] == ol[nl + q]);
                assert(nl == nm) by {
                    if nm < nl {
                        assert(om.len() <= ol.len());
                    }
                }
            }
            if old(self).prettys_fit() {
                assert forall|q: int| 0 <= q < self.meta@.len() implies #[trigger] pretty_fits(self.meta@, self.timestamps, q) by {
                    assert(pretty_fits(om, self.timestamps, nm + q));
                    match om[nm + q].pretty {
                        Some(p) => {
                            assert(self.meta@[q].pretty matches Some(pp) && pp@ == p@);
                        },
                        None => {},
                    }
                }
            }
        }
    }

    /// Keep at most `cap` lines, dropping the oldest.
    pub fn trim_to(&mut self, cap: usize)
        requires
            old(self).wf(),
        ensures
            final(self).wf(),
            final(self).timestamps == old(self).timestamps,
            final(self).json == old(self).json,
            final(self).follow == old(self).follow,
            texts(final(self).lines@) == if old(self).lines@.len() > cap {
                texts(old(self).lines@).skip(old(self).lines@.len() - cap)
            } else {
                texts(old(self).lines@)
            },
            times_sorted(sort_times(old(self).meta@)) ==> times_sorted(sort_times(final(self).meta@)),
            old(self).prettys_fit() ==> final(self).prettys_fit(),
            final(self).json_budget == old(self).json_budget,
            final(self).format_command@ == old(self).format_command@,
            final(self).format_broken == old(self).format_broken,
    {
        let n = self.lines.len();
        let excess = if n > cap { n - cap } else { 0 };
        let ghost t0 = sort_times(self.meta@);
        self.drain_front(excess);
        proof {
            if n <= cap {
                assert(texts(old(self).lines@).skip(0) =~= texts(old(self).lines@));
            }
            let t1 = sort_times(self.meta@);
            if times_sorted(t0) {
                assert forall|i: int, j: int| 0 <= i < j < t1.len() implies time_le(#[trigger] t1[i], #[trigger] t1[j]) by {
                    let d = t0.len() - t1.len();
                    assert(t1[i] == t0[i + d] && t1[j] == t0[j + d]);
                }
            }
        }
    }
}

/// How many lines a log view keeps: the configured buffer (at least one)
/// while following, `paused_cap` while paused.
pub fn log_buffer_cap(follow: bool, buffer: usize, paused_cap: usize) -> (r: usize)
    ensures
        r == if follow { if buffer < 1 { 1 } else { buffer } } else { paused_cap },
{
    if follow {
        if buffer < 1 { 1 } else { buffer }
    } else {
        paused_cap
    }
}

/// A raw log line as displayed: carriage returns removed, tabs as spaces.
pub open spec fn cleaned(cs: Seq<char>) -> Seq<char>
    decreases cs.len(),
{
    if cs.len() == 0 {
        Seq::empty()
    } else {
        let c = cs.last();
        cleaned(cs.drop_last()) + if c == '\r' { Seq::empty() } else if c == '\t' { seq![' '] } else { seq![c] }
    }
}

/// Remove carriage returns and turn tabs into spaces.
pub fn clean_log_line(line: &str) -> (r: String)
    ensures
        r@ == cleaned(line@),
{
    let cs = chars_of(line);
    let mut out = String::new();
    let mut k: usize = 0;
    while k < cs.len()
        invariant
            cs@ == line@,
            k <= cs@.len(),
            out@ == cleaned(cs@.take(k as int)),
        decreases cs@.len() - k,
    {
        let c = cs[k];
        let ghost before = out@;
        assert(cs@.take(k + 1).drop_last() =~= cs@.take(k as int));
        if c == '\r' {
            assert(out@ =~= before + Seq::<char>::empty());
        } else if c == '\t' {
            crate::text::push_char(&mut out, ' ');
            assert(out@ =~= before + seq![' ']);
        } else {
            crate::text::push_char(&mut out, c);
            assert(out@ =~= before + seq![c]);
        }
        k = k + 1;
    }
    assert(cs@.take(cs@.len() as int) =~= cs@);
    out
}

/// The sort time a line with text `c` arrives with, in a buffer whose
/// times are `times`: its own timestamp; without one, the newest line's
/// time; without that either, the clock's reading `now`.
pub open spec fn arrival_time(c: Seq<char>, times: Seq<Option<i128>>, now: i128) -> Option<i128> {
    match stamp_of(c) {
        Some((_, _, t)) => Some(t),
        None => if times.len() > 0 && times.last() is Some {
            times.last()
        } else {
            Some(now)
        },
    }
}

/// The buffer's texts and sort times after the first `n` raw lines of
/// `batch` are pushed one by one (cleaned, without their timestamps while
/// those are hidden), each going after every line that sorts no later;
/// `clock` holds the clock's readings for lines that need one.
pub open spec fn pushed_from(
    texts0: Seq<Seq<char>>,
    times0: Seq<Option<i128>>,
    batch: Seq<String>,
    shown: bool,
    clock: Seq<i128>,
    n: int,
) -> (Seq<Seq<char>>, Seq<Option<i128>>)
    decreases n,
{
    if n <= 0 || n > batch.len() {
        (texts0, times0)
    } else {
        let prev = pushed_from(texts0, times0, batch, shown, clock, n - 1);
        let c = cleaned(batch[n - 1]@);
        let t = arrival_time(c, prev.1, clock[n - 1]);
        let p = insert_position(prev.1, t);
        (prev.0.insert(p, shown_text(c, shown)), prev.1.insert(p, t))
    }
}

/// The last `cap` of `s` (all of `s` when it is no longer).
pub open spec fn last_n(s: Seq<Seq<char>>, cap: int) -> Seq<Seq<char>> {
    if s.len() > cap {
        s.skip(s.len() - cap)
    } else {
        s
    }
}

impl LogsView {
    /// Add a batch of raw lines, each cleaned and placed by its time after
    /// every line that sorts no later (see `pushed_from`), then keep the
    /// newest `cap` lines. A buffer in time order stays in time order.
    pub fn push_log_lines(&mut self, lines: Vec<String>, cap: usize)
        requires
            old(self).wf(),
            old(self).lines@.len() + lines@.len() < usize::MAX,
        ensures
            final(self).wf(),
            final(self).timestamps == old(self).timestamps,
            final(self).json == old(self).json,
            final(self).follow == old(self).follow,
            final(self).lines@.len() == if cap < old(self).lines@.len() + lines@.len() {
                cap as int
            } else {
                (old(self).lines@.len() + lines@.len()) as int
            },
            exists|clock: Seq<i128>|
                #![trigger pushed_from(texts(old(self).lines@), padded_times(old(self).meta@, old(self).lines@.len() as int), lines@, old(self).timestamps, clock, lines@.len() as int)]
                texts(final(self).lines@) == last_n(
                    pushed_from(
                        texts(old(self).lines@),
                        padded_times(old(self).meta@, old(self).lines@.len() as int),
                        lines@,
                        old(self).timestamps,
                        clock,
                        lines@.len() as int,
                    ).0,
                    cap as int,
                ),
            times_sorted(padded_times(old(self).meta@, old(self).lines@.len() as int)) ==> times_sorted(sort_times(final(self).meta@)),
            old(self).timestamps && old(self).prettys_fit() ==> final(self).prettys_fit(),
            final(self).format_command@ == old(self).format_command@,
            final(self).format_broken == old(self).format_broken,
    {
        let mut k: usize = 0;
        let ghost start = self.lines@.len();
        let ghost texts0 = texts(self.lines@);
        let ghost times0 = padded_times(self.meta@, self.lines@.len() as int);
        let ghost shown = self.timestamps;
        let ghost mut clock: Seq<i128> = Seq::empty();
        while k < lines.len()
            invariant
                self.wf(),
                self.timestamps == old(self).timestamps,
                self.json == old(self).json,
                self.follow == old(self).follow,
                shown == old(self).timestamps,
                k <= lines@.len(),
                self.lines@.len() == start + k,
                start == old(self).lines@.len(),
                start + lines@.len() < usize::MAX,
                texts0 == texts(old(self).lines@),
                times0 == padded_times(old(self).meta@, old(self).lines@.len() as int),
                clock.len() == k,
                texts(self.lines@) == pushed_from(texts0, times0, lines@, shown, clock, k as int).0,
                padded_times(self.meta@, self.lines@.len() as int) == pushed_from(texts0, times0, lines@, shown, clock, k as int).1,
                times_sorted(times0) ==> times_sorted(padded_times(self.meta@, self.lines@.len() as int)),
                old(self).timestamps && old(self).prettys_fit() ==> self.prettys_fit(),
                self.format_command@ == old(self).format_command@,
                self.format_broken == old(self).format_broken,
            decreases lines@.len() - k,
        {
            let clean = clean_log_line(lines[k].as_str());
            let ghost before = texts(self.lines@);
            let ghost tb = padded_times(self.meta@, self.lines@.len() as int);
            let p = self.push_line(clean);
            proof {
                let t = self.meta@[p as int].sort_time;
                let now: i128 = t->0;
                let c2 = clock.push(now);
                assert(padded_times(self.meta@, self.lines@.len() as int) =~= sort_times(self.meta@));
                assert forall|j: int| 0 <= j <= k implies #[trigger] pushed_from(texts0, times0, lines@, shown, c2, j)
                    == pushed_from(texts0, times0, lines@, shown, clock, j) by {
                    lemma_pushed_prefix(texts0, times0, lines@, shown, clock, c2, j);
                }
                assert(arrival_time(clean@, tb, now) == t);
                let prev = pushed_from(texts0, times0, lines@, shown, c2, k as int);
                assert(prev.0 == before && prev.1 == tb);
                assert(c2[k as int] == now);
                assert(cleaned(lines@[k as int]@) == clean@);
                assert(pushed_from(texts0, times0, lines@, shown, c2, k + 1) == (
                    before.insert(p as int, shown_text(clean@, shown)),
                    tb.insert(p as int, t),
                ));
                clock = c2;
                assert(texts(self.lines@).len() == before.len() + 1);
            }
            k = k + 1;
        }
        let ghost all = texts(self.lines@);
        proof {
            let pt = padded_times(self.meta@, self.lines@.len() as int);
            let st = sort_times(self.meta@);
            if times_sorted(pt) {
                assert forall|i: int, j: int| 0 <= i < j < st.len() implies time_le(#[trigger] st[i], #[trigger] st[j]) by {
                    assert(st[i] == pt[i] && st[j] == pt[j]);
                }
            }
        }
        self.trim_to(cap);
        assert(texts(self.lines@).len() == self.lines@.len());
        assert(texts(self.lines@) == last_n(all, cap as int));
    }
}

proof fn lemma_pushed_prefix(
    texts0: Seq<Seq<char>>,
    times0: Seq<Option<i128>>,
    batch: Seq<String>,
    shown: bool,
    c1: Seq<i128>,
    c2: Seq<i128>,
    j: int,
)
    requires
        j <= c1.len(),
        forall|i: int| 0 <= i < c1.len() ==> c1[i] == #[trigger] c2[i],
        c1.len() <= c2.len(),
    ensures
        pushed_from(texts0, times0, batch, shown, c1, j) == pushed_from(texts0, times0, batch, shown, c2, j),
    decreases j,
{
    if j > 0 {
        lemma_pushed_prefix(texts0, times0, batch, shown, c1, c2, j - 1);
    }
}

/// The initial tail and lookback of a log stream: the configured tail (at
/// least one line); the view's own time anchor when set (zero meaning a
/// plain tail), else the configured lookback when it parses.
pub fn log_tail_and_since(tail: i64, since_anchor: Option<i64>, since: &Option<String>) -> (r: (i64, Option<i64>))
    ensures
        r.0 == if tail < 1 { 1 } else { tail },
        r.1 == match since_anchor {
            Some(a) => if a == 0 { None } else { Some(a) },
            None => match since {
                Some(s) => match crate::config::lookback_of(s@) {
                    Ok(v) => Some(v),
                    Err(_) => None,
                },
                None => None,
            },
        },
{
    let t = if tail < 1 { 1 } else { tail };
    let s = match since_anchor {
        Some(0) => None,
        Some(a) => Some(a),
        None => match since {
            Some(text) => match crate::config::parse_lookback(text.as_str()) {
                Ok(v) => Some(v),
                Err(_) => None,
            },
            None => None,
        },
    };
    (t, s)
}

/// The lookback a `0`–`5` time-anchor key asks for, in seconds, with its
/// label: `0` re-tails, `1`–`5` go back 1m, 5m, 15m, 30m, 1h.
pub fn log_anchor(key: char) -> (r: Option<(i64, &'static str)>)
    ensures
        match r {
            Some((secs, label)) => (key == '0' && secs == 0 && label@ == "tail"@) || (key == '1' && secs == 60
                && label@ == "1m"@) || (key == '2' && secs == 300 && label@ == "5m"@) || (key == '3' && secs == 900
                && label@ == "15m"@) || (key == '4' && secs == 1800 && label@ == "30m"@) || (key == '5' && secs == 3600
                && label@ == "1h"@),
            None => !('0' <= key && key <= '5'),
        },
{
    match key {
        '0' => Some((0, "tail")),
        '1' => Some((60, "1m")),
        '2' => Some((300, "5m")),
        '3' => Some((900, "15m")),
        '4' => Some((1800, "30m")),
        '5' => Some((3600, "1h")),
        _ => None,
    }
}

/// The status message for a new lookback: the tail size for `0`, else the
/// window's label.
pub fn lookback_message(secs: i64, label: &str, tail: i64) -> (r: String)
    ensures
        r@ == if secs == 0 {
            "showing tail ("@ + crate::text::decimal((if tail < 1 { 1 } else { tail }) as nat) + " lines)"@
        } else {
            "showing last "@ + label@
        },
{
    if secs == 0 {
        let t = if tail < 1 { 1 } else { tail };
        let mut m = String::from_str("showing tail (");
        let d = crate::text::decimal_string(t as u64);
        m.append(d.as_str());
        m.append(" lines)");
        m
    } else {
        let mut m = String::from_str("showing last ");
        m.append(label);
        m
    }
}

/// What a lookback typed for kubelet logs asks for: `tail` re-tails (zero
/// seconds); a duration goes back that far; anything else is refused with
/// a hint. The label is the trimmed input.
pub open spec fn lookback_choice(input: Seq<char>) -> Result<(i64, Seq<char>), Seq<char>> {
    let t = crate::text::trimmed(input);
    if t == "tail"@ {
        Ok((0, t))
    } else {
        match crate::config::lookback_of(t) {
            Ok(secs) => Ok((secs, t)),
            Err(e) => Err("lookback: "@ + e + "; use s/m/h/d or tail"@),
        }
    }
}

/// The lookback a typed `input` sets on kubelet logs, with its label, or
/// the warning when it is no lookback (see `lookback_choice`).
pub fn log_lookback_choice(input: &str) -> (r: Result<(i64, String), String>)
    ensures
        match (r, lookback_choice(input@)) {
            (Ok((secs, label)), Ok((s, l))) => secs == s && label@ == l,
            (Err(m), Err(e)) => m@ == e,
            _ => false,
        },
{
    let t = crate::text::trim_chars(input);
    let ts = string_from(&t);
    if crate::config::same_text(&ts, "tail") {
        return Ok((0, ts));
    }
    match crate::config::parse_lookback(ts.as_str()) {
        Ok(secs) => Ok((secs, ts)),
        Err(e) => {
            let mut m = String::from_str("lookback: ");
            m.append(e.as_str());
            m.append("; use s/m/h/d or tail");
            Err(m)
        },
    }
}

/// The last place below `n` where `needle` occurs in `hay`, or -1.
pub open spec fn last_occurrence(hay: Seq<char>, needle: Seq<char>, n: int) -> int
    decreases n,
{
    if n <= 0 {
        -1
    } else if crate::text::occurs_at(hay, needle, n - 1) {
        n - 1
    } else {
        last_occurrence(hay, needle, n - 1)
    }
}

/// A provider view's title with its lookback suffix rewritten: from the
/// last `victorialogs (` on, it reads `victorialogs (<label>)`; a title
/// without one stays as it is.
pub open spec fn provider_retitled(title: Seq<char>, label: Seq<char>) -> Seq<char> {
    let i = last_occurrence(title, "victorialogs ("@, (title.len() + 1) as int);
    if i >= 0 {
        title.take(i) + "victorialogs ("@ + label + ")"@
    } else {
        title
    }
}

proof fn lemma_last_occurrence(hay: Seq<char>, needle: Seq<char>, n: int)
    ensures
        -1 <= last_occurrence(hay, needle, n) < if n > 0 { n } else { 0 },
        last_occurrence(hay, needle, n) >= 0 ==> crate::text::occurs_at(hay, needle, last_occurrence(hay, needle, n)),
    decreases n,
{
    if n > 0 {
        lemma_last_occurrence(hay, needle, n - 1);
    }
}

/// No place from `m` up to `n` holding `needle` leaves the last place
/// below `n` the last below `m`.
proof fn lemma_last_occurrence_skip(hay: Seq<char>, needle: Seq<char>, m: int, n: int)
    requires
        0 <= m <= n,
        forall|i: int| m <= i < n ==> !crate::text::occurs_at(hay, needle, i),
    ensures
        last_occurrence(hay, needle, n) == last_occurrence(hay, needle, m),
    decreases n - m,
{
    if m < n {
        lemma_last_occurrence_skip(hay, needle, m, n - 1);
    }
}

/// Rewrite the lookback suffix of a provider view's title (see
/// `provider_retitled`).
pub fn provider_title(title: &str, label: &str) -> (r: String)
    ensures
        r@ == provider_retitled(title@, label@),
{
    let cs = chars_of(title);
    let needle = chars_of("victorialogs (");
    let ghost hay = title@;
    let ghost nd = "victorialogs ("@;
    proof {
        reveal_strlit("victorialogs (");
    }
    if cs.len() < needle.len() {
        proof {
            assert forall|i: int| 0 <= i < hay.len() + 1 implies !crate::text::occurs_at(hay, nd, i) by {}
            lemma_last_occurrence_skip(hay, nd, 0, (hay.len() + 1) as int);
        }
        return String::from_str(title);
    }
    let mut n: usize = cs.len() - needle.len() + 1;
    proof {
        assert forall|i: int| n <= i < hay.len() + 1 implies !crate::text::occurs_at(hay, nd, i) by {}
        lemma_last_occurrence_skip(hay, nd, n as int, (hay.len() + 1) as int);
    }
    while n > 0
        invariant
            cs@ == hay,
            hay == title@,
            nd == "victorialogs ("@,
            needle@ == nd,
            nd.len() == 14,
            n <= cs@.len() - needle@.len() + 1,
            last_occurrence(hay, nd, (hay.len() + 1) as int) == last_occurrence(hay, nd, n as int),
        decreases n,
    {
        let i = n - 1;
        if at_chars(&cs, &needle, i) {
            proof {
                assert(crate::text::occurs_at(hay, nd, i as int));
                assert(last_occurrence(hay, nd, n as int) == i);
            }
            let mut out = String::new();
            let mut k: usize = 0;
            while k < i
                invariant
                    k <= i,
                    i + needle@.len() <= cs@.len(),
                    out@ == cs@.take(k as int),
                decreases i - k,
            {
                crate::text::push_char(&mut out, cs[k]);
                assert(cs@.take(k + 1) =~= cs@.take(k as int).push(cs@[k as int]));
                k = k + 1;
            }
            assert(out@ == hay.take(i as int));
            out.append("victorialogs (");
            out.append(label);
            out.append(")");
            assert(last_occurrence(hay, nd, (hay.len() + 1) as int) == i);
            assert(out@ =~= provider_retitled(title@, label@));
            return out;
        }
        assert(!crate::text::occurs_at(hay, nd, i as int));
        n = i;
    }
    String::from_str(title)
}

fn at_chars(cs: &Vec<char>, needle: &Vec<char>, i: usize) -> (r: bool)
    requires
        i + needle@.len() <= cs@.len(),
    ensures
        r == (cs@.subrange(i as int, i + needle@.len()) == needle@),
{
    let total = cs.len();
    let mut k: usize = 0;
    while k < needle.len()
        invariant
            total == cs@.len(),
            i + needle@.len() <= cs@.len(),
            k <= needle@.len(),
            forall|m: int| 0 <= m < k ==> cs@[i + m] == needle@[m],
        decreases needle@.len() - k,
    {
        if cs[i + k] != needle[k] {
            assert(cs@.subrange(i as int, i + needle@.len())[k as int] != needle@[k as int]);
            return false;
        }
        k = k + 1;
    }
    assert(cs@.subrange(i as int, i + needle@.len()) =~= needle@);
    true
}

/// A pod whose logs a view streams, with its containers (none known: its
/// default container streams).
#[derive(Clone, Debug, Default)]
pub struct PodLogTarget {
    pub ns: String,
    pub name: String,
    pub containers: Vec<String>,
}

/// What a log provider is asked for.
#[derive(Clone, Debug)]
pub enum ProviderRequest {
    Pod { ns: String, pod: String, container: Option<String>, multi_container: bool },
    Namespace { ns: String },
    Selector { ns: String, labels: String },
}

/// Where a logs view's lines come from.
#[derive(Clone, Debug)]
pub enum LogSource {
    /// Marked pods, each with its containers.
    Pods(Vec<PodLogTarget>),
    /// One pod, every container.
    Pod { ns: String, name: String, containers: Vec<String> },
    /// Every pod a label selector matches.
    Selector { ns: String, labels: String },
    /// One container, or its previous instance.
    Single { ns: String, pod: String, container: Option<String>, previous: bool },
    /// A log provider instead of the kubelet.
    Provider { request: ProviderRequest },
}

/// One kubelet log stream: a container (the default one when none) and the
/// prefix its lines get; `previous` asks for the previous instance.
#[derive(Clone, Debug, PartialEq, Eq)]
pub struct KubeletStream {
    pub ns: String,
    pub pod: String,
    pub container: Option<String>,
    pub prefix: String,
    pub previous: bool,
}

/// How a source streams.
#[derive(Clone, Debug)]
pub enum StreamPlan {
    /// Kubelet streams, one per container.
    Kubelet(Vec<KubeletStream>),
    /// One task that lists the matching pods and streams them all.
    Selector { ns: String, labels: String },
    /// A provider session.
    Provider(ProviderRequest),
    /// No source: nothing streams.
    Nothing,
}

/// A kubelet stream as texts.
pub type StreamView = (Seq<char>, Seq<char>, Option<Seq<char>>, Seq<char>, bool);

/// The view of a kubelet stream.
pub open spec fn stream_view(k: KubeletStream) -> StreamView {
    (k.ns@, k.pod@, match k.container {
        Some(c) => Some(c@),
        None => None,
    }, k.prefix@, k.previous)
}

/// The views of kubelet streams.
pub open spec fn streams_view(v: Seq<KubeletStream>) -> Seq<StreamView> {
    v.map_values(|k: KubeletStream| stream_view(k))
}

/// The streams of one of several marked pods: each container, prefixed
/// `[ns/pod:container] `, or the default container prefixed `[ns/pod] `.
pub open spec fn marked_pod_streams(p: PodLogTarget) -> Seq<StreamView> {
    if p.containers@.len() == 0 {
        seq![(p.ns@, p.name@, None, "["@ + p.ns@ + "/"@ + p.name@ + "] "@, false)]
    } else {
        p.containers@.map_values(
            |c: String| (p.ns@, p.name@, Some(c@), "["@ + p.ns@ + "/"@ + p.name@ + ":"@ + c@ + "] "@, false),
        )
    }
}

/// The streams of the marked pods, pod by pod.
pub open spec fn marked_streams(pods: Seq<PodLogTarget>) -> Seq<StreamView>
    decreases pods.len(),
{
    if pods.len() == 0 {
        Seq::empty()
    } else {
        marked_streams(pods.drop_last()) + marked_pod_streams(pods.last())
    }
}

/// The streams of one pod: each container, prefixed `[container] ` when
/// there are several; the default container when none is known.
pub open spec fn pod_streams(ns: Seq<char>, name: Seq<char>, containers: Seq<String>) -> Seq<StreamView> {
    if containers.len() == 0 {
        seq![(ns, name, None, Seq::empty(), false)]
    } else {
        containers.map_values(
            |c: String| (ns, name, Some(c@), if containers.len() > 1 { "["@ + c@ + "] "@ } else { Seq::empty() }, false),
        )
    }
}

/// The view of a provider request.
pub open spec fn request_view(q: ProviderRequest) -> (u8, Seq<char>, Seq<char>, Option<Seq<char>>, bool) {
    match q {
        ProviderRequest::Pod { ns, pod, container, multi_container } => (0, ns@, pod@, match container {
            Some(c) => Some(c@),
            None => None,
        }, multi_container),
        ProviderRequest::Namespace { ns } => (1, ns@, Seq::empty(), None, false),
        ProviderRequest::Selector { ns, labels } => (2, ns@, labels@, None, false),
    }
}

/// How a source streams: the kubelet streams of marked pods, a pod or a
/// single container; a selector task; a provider session; or nothing.
pub open spec fn plan_matches(source: Option<LogSource>, r: StreamPlan) -> bool {
    match source {
        None => r is Nothing,
        Some(LogSource::Pods(pods)) => r matches StreamPlan::Kubelet(v) && streams_view(v@) == marked_streams(pods@),
        Some(LogSource::Pod { ns, name, containers }) => r matches StreamPlan::Kubelet(v) && streams_view(v@)
            == pod_streams(ns@, name@, containers@),
        Some(LogSource::Single { ns, pod, container, previous }) => r matches StreamPlan::Kubelet(v) && streams_view(v@)
            == seq![(ns@, pod@, match container {
            Some(c) => Some(c@),
            None => None,
        }, Seq::<char>::empty(), previous)],
        Some(LogSource::Selector { ns, labels }) => r matches StreamPlan::Selector { ns: n, labels: l } && n@ == ns@
            && l@ == labels@,
        Some(LogSource::Provider { request }) => r matches StreamPlan::Provider(q) && request_view(q) == request_view(
            request,
        ),
    }
}

fn copy_opt(o: &Option<String>) -> (r: Option<String>)
    ensures
        match (r, *o) {
            (Some(a), Some(b)) => a@ == b@,
            (None, None) => true,
            _ => false,
        },
{
    match o {
        Some(s) => Some(String::from_str(s.as_str())),
        None => None,
    }
}

fn copy_request(q: &ProviderRequest) -> (r: ProviderRequest)
    ensures
        request_view(r) == request_view(*q),
{
    match q {
        ProviderRequest::Pod { ns, pod, container, multi_container } => ProviderRequest::Pod {
            ns: String::from_str(ns.as_str()),
            pod: String::from_str(pod.as_str()),
            container: copy_opt(container),
            multi_container: *multi_container,
        },
        ProviderRequest::Namespace { ns } => ProviderRequest::Namespace { ns: String::from_str(ns.as_str()) },
        ProviderRequest::Selector { ns, labels } => ProviderRequest::Selector {
            ns: String::from_str(ns.as_str()),
            labels: String::from_str(labels.as_str()),
        },
    }
}

fn push_stream(out: &mut Vec<KubeletStream>, k: KubeletStream)
    ensures
        streams_view(final(out)@) == streams_view(old(out)@).push(stream_view(k)),
{
    out.push(k);
    assert(streams_view(out@) =~= streams_view(old(out)@).push(stream_view(k)));
}

fn push_marked_pod(out: &mut Vec<KubeletStream>, p: &PodLogTarget)
    ensures
        streams_view(final(out)@) == streams_view(old(out)@) + marked_pod_streams(*p),
{
    let ghost start = streams_view(out@);
    let mut head = String::from_str("[");
    head.append(p.ns.as_str());
    head.append("/");
    head.append(p.name.as_str());
    if p.containers.len() == 0 {
        head.append("] ");
        push_stream(
            out,
            KubeletStream {
                ns: String::from_str(p.ns.as_str()),
                pod: String::from_str(p.name.as_str()),
                container: None,
                prefix: head,
                previous: false,
            },
        );
        assert(streams_view(out@) =~= start + marked_pod_streams(*p));
        return;
    }
    let mut k: usize = 0;
    while k < p.containers.len()
        invariant
            k <= p.containers@.len(),
            head@ == "["@ + p.ns@ + "/"@ + p.name@,
            p.containers@.len() > 0,
            streams_view(out@) == start + marked_pod_streams(*p).take(k as int),
        decreases p.containers@.len() - k,
    {
        let c = &p.containers[k];
        let mut prefix = String::from_str(head.as_str());
        prefix.append(":");
        prefix.append(c.as_str());
        prefix.append("] ");
        push_stream(
            out,
            KubeletStream {
                ns: String::from_str(p.ns.as_str()),
                pod: String::from_str(p.name.as_str()),
                container: Some(String::from_str(c.as_str())),
                prefix,
                previous: false,
            },
        );
        assert(marked_pod_streams(*p).take(k + 1) =~= marked_pod_streams(*p).take(k as int).push(
            marked_pod_streams(*p)[k as int],
        ));
        k = k + 1;
    }
    assert(marked_pod_streams(*p).take(p.containers@.len() as int) =~= marked_pod_streams(*p));
}

fn push_pod(out: &mut Vec<KubeletStream>, ns: &String, name: &String, containers: &Vec<String>)
    ensures
        streams_view(final(out)@) == streams_view(old(out)@) + pod_streams(ns@, name@, containers@),
{
    let ghost start = streams_view(out@);
    if containers.len() == 0 {
        push_stream(
            out,
            KubeletStream {
                ns: String::from_str(ns.as_str()),
                pod: String::from_str(name.as_str()),
                container: None,
                prefix: String::new(),
                previous: false,
            },
        );
        assert(streams_view(out@) =~= start + pod_streams(ns@, name@, containers@));
        return;
    }
    let multi = containers.len() > 1;
    let mut k: usize = 0;
    while k < containers.len()
        invariant
            k <= containers@.len(),
            containers@.len() > 0,
            multi == (containers@.len() > 1),
            streams_view(out@) == start + pod_streams(ns@, name@, containers@).take(k as int),
        decreases containers@.len() - k,
    {
        let c = &containers[k];
        let prefix = if multi {
            let mut p = String::from_str("[");
            p.append(c.as_str());
            p.append("] ");
            p
        } else {
            String::new()
        };
        push_stream(
            out,
            KubeletStream {
                ns: String::from_str(ns.as_str()),
                pod: String::from_str(name.as_str()),
                container: Some(String::from_str(c.as_str())),
                prefix,
                previous: false,
            },
        );
        assert(pod_streams(ns@, name@, containers@).take(k + 1) =~= pod_streams(ns@, name@, containers@).take(
            k as int,
        ).push(pod_streams(ns@, name@, containers@)[k as int]));
        k = k + 1;
    }
    assert(pod_streams(ns@, name@, containers@).take(containers@.len() as int) =~= pod_streams(ns@, name@, containers@));
}

/// The streams to start for a logs view's source (see `plan_matches`).
pub fn stream_plan(source: &Option<LogSource>) -> (r: StreamPlan)
    ensures
        plan_matches(*source, r),
{
    match source {
        None => StreamPlan::Nothing,
        Some(LogSource::Pods(pods)) => {
            let mut out: Vec<KubeletStream> = Vec::new();
            let mut k: usize = 0;
            assert(streams_view(out@) =~= marked_streams(pods@.take(0)));
            while k < pods.len()
                invariant
                    k <= pods@.len(),
                    streams_view(out@) == marked_streams(pods@.take(k as int)),
                decreases pods@.len() - k,
            {
                assert(pods@.take(k + 1).drop_last() =~= pods@.take(k as int));
                push_marked_pod(&mut out, &pods[k]);
                k = k + 1;
            }
            assert(pods@.take(pods@.len() as int) =~= pods@);
            StreamPlan::Kubelet(out)
        },
        Some(LogSource::Pod { ns, name, containers }) => {
            let mut out: Vec<KubeletStream> = Vec::new();
            push_pod(&mut out, ns, name, containers);
            assert(streams_view(out@) =~= pod_streams(ns@, name@, containers@));
            StreamPlan::Kubelet(out)
        },
        Some(LogSource::Single { ns, pod, container, previous }) => {
            let mut out: Vec<KubeletStream> = Vec::new();
            push_stream(
                &mut out,
                KubeletStream {
                    ns: String::from_str(ns.as_str()),
                    pod: String::from_str(pod.as_str()),
                    container: copy_opt(container),
                    prefix: String::new(),
                    previous: *previous,
                },
            );
            assert(streams_view(out@) =~= seq![(ns@, pod@, match container {
                Some(c) => Some(c@),
                None => None,
            }, Seq::<char>::empty(), *previous)]);
            StreamPlan::Kubelet(out)
        },
        Some(LogSource::Selector { ns, labels }) => StreamPlan::Selector {
            ns: String::from_str(ns.as_str()),
            labels: String::from_str(labels.as_str()),
        },
        Some(LogSource::Provider { request }) => StreamPlan::Provider(copy_request(request)),
    }
}

} // verus!
