//! Pretty-printed JSON records in the log view: a line whose payload (after
//! an optional `[source] ` prefix and its leading timestamp) is a JSON
//! object or array is shown pretty-printed, by `serde_json` or by an
//! external formatter, within a byte budget shared by all lines.

use crate::logs::{
    clone_stamp, close_bracket, padded_meta, pretty_fits, prettys_fit, stamp_fits, stamp_view, subrange_string, LogLineMeta,
    LogsView,
};
use crate::text::{chars_of, trim_chars, trimmed};
use vstd::prelude::*;
use vstd::utf8::encode_utf8;

verus! {

/// Bytes a log view starts with for its pretty-printed records.
pub const JSON_CACHE_LIMIT: usize = 8388608;

/// The largest line (in bytes) the built-in pretty-printer takes.
pub const JSON_RECORD_LIMIT: usize = 4096;

/// The largest line (in bytes) handed to an external formatter.
pub const EXTERNAL_RECORD_LIMIT: usize = 262144;

/// Whether `serde_json` reads `s` as one JSON document.
pub uninterp spec fn json_valid(s: Seq<char>) -> bool;

/// The text `serde_json` pretty-prints for the JSON document `s`.
pub uninterp spec fn pretty_json(s: Seq<char>) -> Seq<char>;

/// `serde_json::to_string_pretty(&serde_json::from_str::<Value>(s)?)`: the
/// document read and printed back with two-space indentation. A text is
/// given exactly when `s` is one JSON document (printing a parsed value
/// cannot fail: its map keys are strings); which text is named, not spelled
/// out.
#[verifier::external_body]
fn pretty_json_of(s: &str) -> (r: Option<String>)
    ensures
        r is Some <==> json_valid(s@),
        r matches Some(t) ==> t@ == pretty_json(s@),
{
    serde_json::from_str::<serde_json::Value>(s).ok().and_then(|v| serde_json::to_string_pretty(&v).ok())
}

/// Bytes in the UTF-8 encoding of `s`.
pub open spec fn byte_len(s: Seq<char>) -> nat {
    encode_utf8(s).len()
}

/// A character of a source label: an ASCII letter or digit, or one of
/// `/._-:`.
pub open spec fn is_label_char(c: char) -> bool {
    ('a' <= c && c <= 'z') || ('A' <= c && c <= 'Z') || ('0' <= c && c <= '9') || c == '/' || c == '.' || c == '_'
        || c == '-' || c == ':'
}

/// Where the text after a `[source] ` prefix starts: the prefix counts when
/// its label is non-empty and made of label characters and text follows it;
/// otherwise at 0.
pub open spec fn json_source_end(cs: Seq<char>) -> int {
    if cs.len() > 0 && cs[0] == '[' {
        let e = close_bracket(cs, 1);
        if e < cs.len() && e > 1 && trimmed(cs.skip(e + 2)).len() > 0 && (forall|i: int|
            1 <= i < e ==> is_label_char(#[trigger] cs[i])) {
            e + 2
        } else {
            0
        }
    } else {
        0
    }
}

/// Where a line's payload starts: after its leading timestamp when the line
/// still holds it at its place, else after its source prefix.
pub open spec fn json_time_end(cs: Seq<char>, stamp: Option<(int, Seq<char>)>) -> int {
    match stamp {
        Some((s, ts)) => if 0 <= s && s + ts.len() <= cs.len() && cs.subrange(s, s + ts.len()) == ts {
            s + ts.len()
        } else {
            json_source_end(cs)
        },
        None => json_source_end(cs),
    }
}

/// Whether a payload looks like a JSON object or array.
pub open spec fn opens_json(p: Seq<char>) -> bool {
    p.len() > 0 && (p[0] == '{' || p[0] == '[')
}

/// Bytes a formatted record takes from the budget: its text, the line's
/// head kept before it, and room for the timestamp.
pub open spec fn pretty_charge(cs: Seq<char>, time_end: int, text: Seq<char>, stamp: Option<(int, Seq<char>)>) -> int {
    byte_len(text) + byte_len(cs.take(time_end)) + match stamp {
        Some((_, ts)) => byte_len(ts) as int,
        None => 0,
    }
}

/// What an external formatter made of a record: formatted text, nothing
/// usable, or the formatter could not be started.
#[derive(Debug)]
pub enum ExternalFormat {
    Formatted(String),
    Invalid,
    Missing,
}

/// Whether `cs[from..]` is all label characters up to `to`.
fn label_chars(cs: &Vec<char>, from: usize, to: usize) -> (r: bool)
    requires
        from <= to <= cs@.len(),
    ensures
        r == forall|i: int| from <= i < to ==> is_label_char(#[trigger] cs@[i]),
{
    let mut i = from;
    while i < to
        invariant
            from <= i <= to,
            to <= cs@.len(),
            forall|j: int| from <= j < i ==> is_label_char(#[trigger] cs@[j]),
        decreases to - i,
    {
        let c = cs[i];
        if !(('a' <= c && c <= 'z') || ('A' <= c && c <= 'Z') || ('0' <= c && c <= '9') || c == '/' || c == '.'
            || c == '_' || c == '-' || c == ':') {
            assert(!is_label_char(cs@[i as int]));
            return false;
        }
        i = i + 1;
    }
    true
}

/// Where the text after a `[source] ` prefix starts (see `json_source_end`).
fn source_end(cs: &Vec<char>) -> (r: usize)
    ensures
        r == json_source_end(cs@),
{
    let n = cs.len();
    if n < 3 || cs[0] != '[' {
        return 0;
    }
    proof {
        crate::logs::lemma_close_bracket(cs@, 1);
    }
    let mut e: usize = 1;
    while e + 1 < n && !(cs[e] == ']' && cs[e + 1] == ' ')
        invariant
            n == cs@.len(),
            1 <= e < n,
            close_bracket(cs@, e as int) == close_bracket(cs@, 1),
        decreases n - e,
    {
        e = e + 1;
    }
    if e + 1 >= n {
        assert(close_bracket(cs@, e as int) == n);
        return 0;
    }
    if e <= 1 {
        return 0;
    }
    let rest = subrange_string(cs, e + 2, n);
    let t = trim_chars(rest.as_str());
    assert(rest@ =~= cs@.skip(e + 2));
    if t.len() == 0 {
        return 0;
    }
    if !label_chars(cs, 1, e) {
        return 0;
    }
    e + 2
}

pub proof fn lemma_json_time_end(cs: Seq<char>, stamp: Option<(int, Seq<char>)>)
    ensures
        0 <= json_time_end(cs, stamp) <= cs.len(),
{
    crate::logs::lemma_close_bracket(cs, 1);
}

/// Where a line's payload starts (see `json_time_end`).
fn time_end(cs: &Vec<char>, stamp: &Option<(usize, String)>) -> (r: usize)
    ensures
        r == json_time_end(cs@, stamp_view(*stamp)),
{
    match stamp {
        Some((s, ts)) => {
            let tcs = chars_of(ts.as_str());
            let n = cs.len();
            let s = *s;
            if s <= n && tcs.len() <= n - s {
                let mut k: usize = 0;
                while k < tcs.len()
                    invariant
                        s + tcs@.len() <= n,
                        n == cs@.len(),
                        tcs@ == ts@,
                        stamp_view(*stamp) == Some((s as int, ts@)),
                        k <= tcs@.len(),
                        forall|j: int| 0 <= j < k ==> cs@[s + j] == tcs@[j],
                    decreases tcs.len() - k,
                {
                    if cs[s + k] != tcs[k] {
                        assert(cs@.subrange(s as int, s + tcs@.len())[k as int] == cs@[s + k]);
                        assert(tcs@ == ts@);
                        assert(cs@.subrange(s as int, s + tcs@.len()) != ts@);
                        return source_end(cs);
                    }
                    k = k + 1;
                }
                assert(cs@.subrange(s as int, s + tcs@.len()) =~= ts@);
                s + tcs.len()
            } else {
                source_end(cs)
            }
        },
        None => source_end(cs),
    }
}

/// The budget left after a line is looked at for JSON: the line's own
/// bytes are taken the first time it is looked at, when they fit.
pub open spec fn looked_budget(checked: bool, line: Seq<char>, budget: int) -> int {
    if !checked && byte_len(line) <= budget {
        budget - byte_len(line)
    } else {
        budget
    }
}

/// What a line holds of the budget after it is looked at for JSON.
pub open spec fn looked_charge(checked: bool, line: Seq<char>, budget: int, charge: int) -> int {
    if !checked && byte_len(line) <= budget {
        byte_len(line) as int
    } else {
        charge
    }
}

/// The record to format when a line is looked at for JSON: its payload and
/// where the payload starts, when the line had not been looked at, its
/// bytes fit the budget and the record limit, its payload opens a JSON
/// object or array, and the formatter is not known to be missing.
pub open spec fn json_request_of(
    checked: bool,
    line: Seq<char>,
    stamp: Option<(int, Seq<char>)>,
    budget: int,
    limit: int,
    broken: bool,
) -> Option<(int, Seq<char>)> {
    let te = json_time_end(line, stamp);
    let p = trimmed(line.skip(te));
    if !checked && byte_len(line) <= budget && opens_json(p) && !broken && byte_len(line) <= limit {
        Some((te, p))
    } else {
        None
    }
}

/// What looking at a line for JSON does to its record (its pretty form, the
/// budget left, the record's charge) and which record, if any, goes to the
/// external formatter: the line is charged once (see `looked_budget`);
/// with the built-in formatter a record that `serde_json` reads is kept
/// pretty-printed after the line's head when its charge (see
/// `pretty_charge`) fits what is left; with an external one the record is
/// handed out instead.
pub open spec fn json_step(
    checked: bool,
    pretty: Option<Seq<char>>,
    charge: int,
    stamp: Option<(int, Seq<char>)>,
    line: Seq<char>,
    budget: int,
    external: bool,
    broken: bool,
) -> (Option<Seq<char>>, int, int, Option<(int, Seq<char>)>) {
    let limit = if external { EXTERNAL_RECORD_LIMIT } else { JSON_RECORD_LIMIT };
    let req = json_request_of(checked, line, stamp, budget, limit as int, broken);
    let mid_budget = looked_budget(checked, line, budget);
    let mid_charge = looked_charge(checked, line, budget, charge);
    if external {
        (pretty, mid_budget, mid_charge, req)
    } else {
        match req {
            Some((te, p)) => {
                let c = pretty_charge(line, te, pretty_json(p), stamp);
                if json_valid(p) && c <= mid_budget {
                    (Some(line.take(te) + pretty_json(p)), mid_budget - c, mid_charge + c, None)
                } else {
                    (pretty, mid_budget, mid_charge, None)
                }
            },
            None => (pretty, mid_budget, mid_charge, None),
        }
    }
}

/// `json_step` on a record.
pub open spec fn step_of(m: LogLineMeta, line: Seq<char>, budget: int, external: bool, broken: bool) -> (
    Option<Seq<char>>,
    int,
    int,
    Option<(int, Seq<char>)>,
) {
    json_step(
        m.checked_json,
        crate::config::opt_text(m.pretty),
        m.json_charge as int,
        stamp_view(m.timestamp),
        line,
        budget,
        external,
        broken,
    )
}

impl LogLineMeta {
    /// Look at a line for JSON, once: charge its bytes to `budget` and find
    /// the record to format (see `json_request_of`).
    pub fn json_request(&mut self, line: &str, budget: &mut usize, record_limit: usize, format_broken: bool) -> (r: Option<(usize, String)>)
        ensures
            final(self).sort_time == old(self).sort_time,
            final(self).timestamp == old(self).timestamp,
            final(self).pretty == old(self).pretty,
            final(self).checked_json,
            *final(budget) == looked_budget(old(self).checked_json, line@, *old(budget) as int),
            final(self).json_charge == looked_charge(old(self).checked_json, line@, *old(budget) as int, old(self).json_charge as int),
            match json_request_of(old(self).checked_json, line@, stamp_view(old(self).timestamp), *old(budget) as int, record_limit as int, format_broken) {
                Some((te, p)) => r matches Some((t, q)) && t == te && q@ == p,
                None => r is None,
            },
            r matches Some((t, _)) ==> t <= line@.len(),
    {
        if self.checked_json {
            return None;
        }
        self.checked_json = true;
        let bl = line.as_bytes().len();
        if bl > *budget {
            return None;
        }
        *budget = *budget - bl;
        self.json_charge = bl;
        let cs = chars_of(line);
        let te = time_end(&cs, &self.timestamp);
        proof {
            lemma_json_time_end(line@, stamp_view(self.timestamp));
        }
        let rest = subrange_string(&cs, te, cs.len());
        assert(rest@ =~= line@.skip(te as int));
        let p = trim_chars(rest.as_str());
        if p.len() == 0 || !(p[0] == '{' || p[0] == '[') {
            return None;
        }
        if format_broken || bl > record_limit {
            return None;
        }
        Some((te, crate::text::string_from(&p)))
    }

    /// Keep `text` as the line's formatted record, after the line's head up
    /// to `time_end`, when its charge (see `pretty_charge`) fits `budget`.
    pub fn keep_pretty(&mut self, line: &str, time_end: usize, text: String, budget: &mut usize)
        requires
            time_end <= line@.len(),
            old(self).json_charge + *old(budget) <= usize::MAX,
        ensures
            final(self).sort_time == old(self).sort_time,
            final(self).timestamp == old(self).timestamp,
            final(self).checked_json == old(self).checked_json,
            ({
                let c = pretty_charge(line@, time_end as int, text@, stamp_view(old(self).timestamp));
                if c > *old(budget) {
                    final(self).pretty == old(self).pretty && final(self).json_charge == old(self).json_charge
                        && *final(budget) == *old(budget)
                } else {
                    *final(budget) == *old(budget) - c && final(self).json_charge == old(self).json_charge + c
                        && crate::config::opt_text(final(self).pretty) == Some(line@.take(time_end as int) + text@)
                }
            }),
    {
        let cs = chars_of(line);
        let mut head = subrange_string(&cs, 0, time_end);
        assert(head@ =~= line@.take(time_end as int));
        let hb = head.as_str().as_bytes().len();
        let tb = text.as_str().as_bytes().len();
        let reserve = match &self.timestamp {
            Some((_, ts)) => ts.as_str().as_bytes().len(),
            None => 0,
        };
        let charge = match tb.checked_add(hb) {
            Some(x) => match x.checked_add(reserve) {
                Some(c) => c,
                None => {
                    return;
                },
            },
            None => {
                return;
            },
        };
        if charge > *budget {
            return;
        }
        *budget = *budget - charge;
        self.json_charge = self.json_charge + charge;
        head.append(text.as_str());
        self.pretty = Some(head);
    }

    /// Take what an external formatter made of the record whose payload
    /// starts at `time_end`: formatted text is kept (see `keep_pretty`), an
    /// unusable result is dropped, and a formatter that could not be
    /// started is marked broken.
    pub fn json_outcome(&mut self, line: &str, time_end: usize, outcome: ExternalFormat, budget: &mut usize, format_broken: &mut bool)
        requires
            time_end <= line@.len(),
            old(self).json_charge + *old(budget) <= usize::MAX,
        ensures
            final(self).sort_time == old(self).sort_time,
            final(self).timestamp == old(self).timestamp,
            final(self).checked_json == old(self).checked_json,
            match outcome {
                ExternalFormat::Formatted(t) => *final(format_broken) == *old(format_broken) && ({
                    let c = pretty_charge(line@, time_end as int, t@, stamp_view(old(self).timestamp));
                    if c > *old(budget) {
                        final(self).pretty == old(self).pretty && final(self).json_charge == old(self).json_charge
                            && *final(budget) == *old(budget)
                    } else {
                        *final(budget) == *old(budget) - c && final(self).json_charge == old(self).json_charge + c
                            && crate::config::opt_text(final(self).pretty) == Some(line@.take(time_end as int) + t@)
                    }
                }),
                ExternalFormat::Invalid => *final(format_broken) == *old(format_broken) && final(self).pretty == old(self).pretty
                    && final(self).json_charge == old(self).json_charge && *final(budget) == *old(budget),
                ExternalFormat::Missing => *final(format_broken) && final(self).pretty == old(self).pretty
                    && final(self).json_charge == old(self).json_charge && *final(budget) == *old(budget),
            },
    {
        match outcome {
            ExternalFormat::Formatted(t) => self.keep_pretty(line, time_end, t, budget),
            ExternalFormat::Invalid => {},
            ExternalFormat::Missing => {
                *format_broken = true;
            },
        }
    }

    /// Pretty-print a line's JSON record, once, within `budget`. With no
    /// formatter command this is done here by `serde_json` (for lines of
    /// at most `JSON_RECORD_LIMIT` bytes); with one, the record to format
    /// is returned, for the caller to run the formatter on it and hand the
    /// outcome to `json_outcome`.
    pub fn format_json(&mut self, line: &str, budget: &mut usize, format_command: &Vec<String>, format_broken: &mut bool) -> (r: Option<(usize, String)>)
        ensures
            final(self).sort_time == old(self).sort_time,
            final(self).timestamp == old(self).timestamp,
            final(self).checked_json,
            *final(format_broken) == *old(format_broken),
            ({
                let s = step_of(*old(self), line@, *old(budget) as int, format_command@.len() > 0, *old(format_broken));
                &&& crate::config::opt_text(final(self).pretty) == s.0
                &&& *final(budget) == s.1
                &&& final(self).json_charge == s.2
                &&& match s.3 {
                    Some((te, p)) => r matches Some((t, q)) && t == te && q@ == p,
                    None => r is None,
                }
            }),
    {
        let external = format_command.len() > 0;
        let limit = if external { EXTERNAL_RECORD_LIMIT } else { JSON_RECORD_LIMIT };
        let req = self.json_request(line, budget, limit, *format_broken);
        if external {
            return req;
        }
        if let Some((te, payload)) = req {
            if let Some(t) = pretty_json_of(payload.as_str()) {
                self.keep_pretty(line, te, t, budget);
            }
        }
        None
    }
}


/// With timestamps shown, the pretty form that looking at a line leaves
/// holds the line's timestamp at its place.
pub proof fn lemma_step_keeps_fit(m: LogLineMeta, line: Seq<char>, budget: int, external: bool, broken: bool)
    requires
        stamp_fits(line, stamp_view(m.timestamp), true),
        pretty_fits(seq![m], true, 0),
    ensures
        match step_of(m, line, budget, external, broken).0 {
            Some(q) => stamp_fits(q, stamp_view(m.timestamp), true),
            None => true,
        },
{
    let stamp = stamp_view(m.timestamp);
    let te = json_time_end(line, stamp);
    lemma_json_time_end(line, stamp);
    match stamp {
        Some((s, ts)) => {
            let q = line.take(te) + pretty_json(trimmed(line.skip(te)));
            assert(te == s + ts.len());
            assert(q.subrange(s, s + ts.len()) =~= line.subrange(s, s + ts.len()));
        },
        None => {},
    }
    assert(seq![m][0] == m);
}

/// The budget left before line `i` is looked at, in a pass that looks at
/// every line in order (see `step_of`).
pub open spec fn budget_before(lines: Seq<String>, meta: Seq<LogLineMeta>, budget: int, external: bool, broken: bool, i: int) -> int
    decreases i,
{
    if i <= 0 {
        budget
    } else {
        step_of(meta[i - 1], lines[i - 1]@, budget_before(lines, meta, budget, external, broken, i - 1), external, broken).1
    }
}

/// What the pass does at line `i`.
pub open spec fn pass_step(lines: Seq<String>, meta: Seq<LogLineMeta>, budget: int, external: bool, broken: bool, i: int) -> (
    Option<Seq<char>>,
    int,
    int,
    Option<(int, Seq<char>)>,
) {
    step_of(meta[i], lines[i]@, budget_before(lines, meta, budget, external, broken, i), external, broken)
}

/// `after` is `before` made ready for the JSON view being `on`: when off,
/// nothing changes; when on, every line (given a record if it had none) is
/// looked at in order with the view's budget and formatter (see
/// `pass_step`), and `r` lists, in line order, the records to hand the
/// external formatter as (line, payload start, payload).
pub open spec fn json_prepared(before: LogsView, after: LogsView, on: bool, r: Seq<(usize, usize, String)>) -> bool {
    let n = before.lines@.len() as int;
    let pm = padded_meta(before.meta@, n);
    let ext = before.format_command@.len() > 0;
    let b = before.json_budget as int;
    let br = before.format_broken;
    &&& after.lines@ == before.lines@
    &&& after.timestamps == before.timestamps
    &&& after.follow == before.follow
    &&& after.format_command@ == before.format_command@
    &&& after.format_broken == before.format_broken
    &&& if !on {
        after.meta@ == before.meta@ && after.json_budget == before.json_budget && r.len() == 0
    } else {
        &&& after.meta@.len() == n
        &&& after.json_budget == budget_before(before.lines@, pm, b, ext, br, n)
        &&& forall|i: int|
            0 <= i < n ==> {
                &&& (#[trigger] after.meta@[i]).sort_time == pm[i].sort_time
                &&& stamp_view(after.meta@[i].timestamp) == stamp_view(pm[i].timestamp)
                &&& after.meta@[i].checked_json
                &&& crate::config::opt_text(after.meta@[i].pretty) == pass_step(before.lines@, pm, b, ext, br, i).0
                &&& after.meta@[i].json_charge == pass_step(before.lines@, pm, b, ext, br, i).2
            }
        &&& forall|k: int|
            0 <= k < r.len() ==> (#[trigger] r[k]).0 < n && pass_step(before.lines@, pm, b, ext, br, r[k].0 as int).3 == Some(
                (r[k].1 as int, r[k].2@),
            )
        &&& forall|k: int, l: int| 0 <= k < l < r.len() ==> (#[trigger] r[k]).0 < (#[trigger] r[l]).0
        &&& forall|i: int|
            0 <= i < n && (#[trigger] pass_step(before.lines@, pm, b, ext, br, i)).3 is Some ==> exists|k: int|
                0 <= k < r.len() && (#[trigger] r[k]).0 == i
    }
}

impl LogsView {
    /// Make the lines ready for the JSON view while it is on: look at each
    /// line for a JSON record (see `json_prepared`). The records for an
    /// external formatter are returned, for the caller to run it on each
    /// and hand the outcome to the line's `json_outcome`.
    pub fn prepare_json(&mut self) -> (r: Vec<(usize, usize, String)>)
        requires
            old(self).wf(),
        ensures
            final(self).wf(),
            final(self).json == old(self).json,
            json_prepared(*old(self), *final(self), old(self).json, r@),
            old(self).timestamps && old(self).prettys_fit() ==> final(self).prettys_fit(),
    {
        if !self.json {
            return Vec::new();
        }
        let ghost n = self.lines@.len() as int;
        let ghost pm = padded_meta(self.meta@, n);
        let ghost ol = self.lines@;
        let ghost b0 = self.json_budget as int;
        self.pad_meta();
        let external = self.format_command.len() > 0;
        let mut budget = self.json_budget;
        let mut broken = self.format_broken;
        let ghost br = broken;
        let mut new_meta: Vec<LogLineMeta> = Vec::new();
        let mut reqs: Vec<(usize, usize, String)> = Vec::new();
        let m = self.lines.len();
        let mut i: usize = 0;
        while i < m
            invariant
                m == n,
                n == ol.len(),
                self.meta@ == pm,
                pm.len() == n,
                self.lines@ == ol,
                self.wf(),
                external == (self.format_command@.len() > 0),
                broken == br,
                i <= m,
                new_meta@.len() == i,
                budget == budget_before(ol, pm, b0, external, br, i as int),
                forall|j: int|
                    0 <= j < i ==> {
                        &&& (#[trigger] new_meta@[j]).sort_time == pm[j].sort_time
                        &&& stamp_view(new_meta@[j].timestamp) == stamp_view(pm[j].timestamp)
                        &&& new_meta@[j].checked_json
                        &&& crate::config::opt_text(new_meta@[j].pretty) == pass_step(ol, pm, b0, external, br, j).0
                        &&& new_meta@[j].json_charge == pass_step(ol, pm, b0, external, br, j).2
                    },
                forall|k: int|
                    0 <= k < reqs@.len() ==> (#[trigger] reqs@[k]).0 < i && pass_step(ol, pm, b0, external, br, reqs@[k].0 as int).3
                        == Some((reqs@[k].1 as int, reqs@[k].2@)),
                forall|k: int, l: int| 0 <= k < l < reqs@.len() ==> (#[trigger] reqs@[k]).0 < (#[trigger] reqs@[l]).0,
                forall|j: int|
                    0 <= j < i && (#[trigger] pass_step(ol, pm, b0, external, br, j)).3 is Some ==> exists|k: int|
                        0 <= k < reqs@.len() && (#[trigger] reqs@[k]).0 == j,
            decreases m - i,
        {
            let mut rec = LogLineMeta {
                sort_time: self.meta[i].sort_time,
                pretty: crate::config::clone_opt(&self.meta[i].pretty),
                timestamp: clone_stamp(&self.meta[i].timestamp),
                checked_json: self.meta[i].checked_json,
                json_charge: self.meta[i].json_charge,
            };
            assert(step_of(rec, ol[i as int]@, budget as int, external, br) == pass_step(ol, pm, b0, external, br, i as int));
            let ghost before_reqs = reqs@;
            let req = rec.format_json(self.lines[i].as_str(), &mut budget, &self.format_command, &mut broken);
            match req {
                Some((te, p)) => {
                    reqs.push((i, te, p));
                    proof {
                        assert forall|j: int|
                            0 <= j < i + 1 && (#[trigger] pass_step(ol, pm, b0, external, br, j)).3 is Some implies exists|k: int|
                                0 <= k < reqs@.len() && (#[trigger] reqs@[k]).0 == j by {
                            if j == i {
                                assert(reqs@[before_reqs.len() as int].0 == j);
                            } else {
                                let k = choose|k: int| 0 <= k < before_reqs.len() && (#[trigger] before_reqs[k]).0 == j;
                                assert(reqs@[k] == before_reqs[k]);
                            }
                        }
                    }
                },
                None => {},
            }
            new_meta.push(rec);
            i = i + 1;
        }
        self.meta = new_meta;
        self.json_budget = budget;
        proof {
            assert forall|j: int| 0 <= j < self.meta@.len() implies #[trigger] crate::logs::entry_fits(self.lines@, self.meta@, self.timestamps, j) by {
                assert(crate::logs::entry_fits(ol, pm, self.timestamps, j));
            }
            if old(self).timestamps && old(self).prettys_fit() {
                assert forall|j: int| 0 <= j < self.meta@.len() implies #[trigger] pretty_fits(self.meta@, true, j) by {
                    let pj = pm[j];
                    assert(crate::logs::entry_fits(ol, pm, true, j));
                    if j < old(self).meta@.len() {
                        assert(pretty_fits(old(self).meta@, true, j));
                        assert(pj == old(self).meta@[j]);
                    }
                    assert(pretty_fits(seq![pj], true, 0));
                    lemma_step_keeps_fit(pj, ol[j]@, budget_before(ol, pm, b0, external, br, j), external, br);
                }
            }
        }
        reqs
    }

    /// Turn the JSON view on or off, making the lines ready for it (see
    /// `prepare_json`).
    pub fn toggle_json(&mut self) -> (r: Vec<(usize, usize, String)>)
        requires
            old(self).wf(),
        ensures
            final(self).wf(),
            final(self).json == !old(self).json,
            json_prepared(*old(self), *final(self), !old(self).json, r@),
            old(self).timestamps && old(self).prettys_fit() ==> final(self).prettys_fit(),
    {
        self.json = !self.json;
        self.revision = self.revision.wrapping_add(1);
        self.prepare_json()
    }
}

} // verus!
