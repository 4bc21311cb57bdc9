//! Embedded ANSI colour in log lines: a line is split into runs of text that
//! share one foreground colour and boldness, as set by SGR sequences
//! (`ESC [ … m`); every escape sequence is dropped from the text.

use crate::config::{digits_value, is_digit};
use crate::text::{
    after_escape, chars_of, csi_stop, is_esc, lemma_after_escape, lemma_csi_stop, push_char,
    split_chars, split_on, stripped_from,
};
use vstd::prelude::*;

verus! {

/// A foreground colour named by an SGR sequence: one of the sixteen standard
/// colours by its code (30–37 or 90–97), a 256-colour palette index
/// (`38;5;n`), or a truecolour triple (`38;2;r;g;b`).
#[derive(Clone, Copy, Debug, PartialEq, Eq, Structural)]
pub enum AnsiColor {
    Standard(u8),
    Indexed(u8),
    Rgb(u8, u8, u8),
}

/// A run of text sharing one style, taken from an ANSI-coded string.
#[derive(Clone, Debug)]
pub struct AnsiRun {
    pub text: String,
    pub color: Option<AnsiColor>,
    pub bold: bool,
}

/// A run as (text, colour, bold).
pub type RunView = (Seq<char>, Option<AnsiColor>, bool);

/// The running style: foreground colour and boldness.
pub type Style = (Option<AnsiColor>, bool);

impl View for AnsiRun {
    type V = RunView;

    open spec fn view(&self) -> RunView {
        (self.text@, self.color, self.bold)
    }
}

/// The value of `d` when it is one or more ASCII digits worth at most 255.
pub open spec fn digits_u8(d: Seq<char>) -> Option<u8> {
    if d.len() > 0 && (forall|i: int| 0 <= i < d.len() ==> is_digit(#[trigger] d[i])) && digits_value(d) <= 255 {
        Some(digits_value(d) as u8)
    } else {
        None
    }
}

/// What `str::parse::<u8>` gives for `t`: an optional `+`, then one or more
/// ASCII digits whose value is at most 255.
pub open spec fn u8_of(t: Seq<char>) -> Option<u8> {
    if t.len() > 0 && t[0] == '+' {
        digits_u8(t.skip(1))
    } else {
        digits_u8(t)
    }
}

/// Parse `t` as a `u8` (see `u8_of`).
pub fn parse_u8(t: &Vec<char>) -> (r: Option<u8>)
    ensures
        r == u8_of(t@),
{
    let n = t.len();
    let start: usize = if n > 0 && t[0] == '+' {
        1
    } else {
        0
    };
    let ghost d = t@.skip(start as int);
    assert(t@.skip(0) =~= t@);
    assert(u8_of(t@) == digits_u8(d));
    if start >= n {
        return None;
    }
    let mut value: u32 = 0;
    let mut big = false;
    let mut k: usize = start;
    while k < n
        invariant
            n == t@.len(),
            start <= k <= n,
            start < n,
            d == t@.skip(start as int),
            u8_of(t@) == digits_u8(d),
            forall|i: int| 0 <= i < k - start ==> is_digit(#[trigger] d[i]),
            !big ==> value == digits_value(d.take(k - start)) && value <= 255,
            big ==> digits_value(d.take(k - start)) > 255,
        decreases n - k,
    {
        let c = t[k];
        if !('0' <= c && c <= '9') {
            assert(d[k - start] == c);
            assert(!is_digit(d[k - start]));
            return None;
        }
        proof {
            assert(d.take(k - start + 1).drop_last() =~= d.take(k - start));
            assert(d.take(k - start + 1).last() == c);
        }
        if !big {
            let next = value * 10 + ((c as u32) - 48);
            if next > 255 {
                big = true;
            } else {
                value = next;
            }
        }
        k = k + 1;
    }
    assert(d.take(n - start) =~= d);
    if big {
        None
    } else {
        Some(value as u8)
    }
}

/// Whether `code` is one of the sixteen standard foreground colours.
pub open spec fn is_standard(code: u8) -> bool {
    (30 <= code <= 37) || (90 <= code <= 97)
}

/// The style after the SGR parameters `toks[k..]` are applied to `style`, as
/// a terminal reads them: `0` (or nothing) resets, `1` sets bold, `22`
/// clears it, `39` clears the colour, `38;5;n` and `38;2;r;g;b` pick a
/// palette or truecolour colour (the values are consumed even where one does
/// not parse), a standard code picks that colour, and anything else is
/// ignored.
pub open spec fn sgr_from(toks: Seq<Seq<char>>, k: int, style: Style) -> Style
    decreases toks.len() - k,
{
    if k < 0 || k >= toks.len() {
        style
    } else {
        let t = toks[k];
        if t.len() == 0 || t == seq!['0'] {
            sgr_from(toks, k + 1, (None, false))
        } else if t == seq!['1'] {
            sgr_from(toks, k + 1, (style.0, true))
        } else if t == seq!['2', '2'] {
            sgr_from(toks, k + 1, (style.0, false))
        } else if t == seq!['3', '9'] {
            sgr_from(toks, k + 1, (None, style.1))
        } else if t == seq!['3', '8'] {
            if k + 1 >= toks.len() {
                style
            } else if toks[k + 1] == seq!['5'] {
                if k + 2 >= toks.len() {
                    style
                } else {
                    match u8_of(toks[k + 2]) {
                        Some(n) => sgr_from(toks, k + 3, (Some(AnsiColor::Indexed(n)), style.1)),
                        None => sgr_from(toks, k + 3, style),
                    }
                }
            } else if toks[k + 1] == seq!['2'] {
                if k + 5 > toks.len() {
                    style
                } else {
                    match (u8_of(toks[k + 2]), u8_of(toks[k + 3]), u8_of(toks[k + 4])) {
                        (Some(r), Some(g), Some(b)) => sgr_from(toks, k + 5, (Some(AnsiColor::Rgb(r, g, b)), style.1)),
                        _ => sgr_from(toks, k + 5, style),
                    }
                }
            } else {
                sgr_from(toks, k + 2, style)
            }
        } else {
            match u8_of(t) {
                Some(c) => if is_standard(c) {
                    sgr_from(toks, k + 1, (Some(AnsiColor::Standard(c)), style.1))
                } else {
                    sgr_from(toks, k + 1, style)
                },
                None => sgr_from(toks, k + 1, style),
            }
        }
    }
}

/// The style after the parameter list `params` (what stands between `ESC [`
/// and `m`) is applied to `style`.
pub open spec fn sgr(params: Seq<char>, style: Style) -> Style {
    sgr_from(split_on(params, ';'), 0, style)
}

fn is_one(t: &Vec<char>, a: char) -> (r: bool)
    ensures
        r == (t@ == seq![a]),
{
    if t.len() == 1 && t[0] == a {
        assert(t@ =~= seq![a]);
        true
    } else {
        false
    }
}

fn is_two(t: &Vec<char>, a: char, b: char) -> (r: bool)
    ensures
        r == (t@ == seq![a, b]),
{
    if t.len() == 2 && t[0] == a && t[1] == b {
        assert(t@ =~= seq![a, b]);
        true
    } else {
        false
    }
}

/// Apply one SGR parameter list (the digits and semicolons between `ESC [`
/// and `m`) to the running foreground colour and bold flag.
pub fn apply_sgr(params: &str, color: &mut Option<AnsiColor>, bold: &mut bool)
    ensures
        (*final(color), *final(bold)) == sgr(params@, (*old(color), *old(bold))),
{
    let toks = split_chars(&chars_of(params), ';');
    let ghost ts = split_on(params@, ';');
    assert(toks@.map_values(|p: Vec<char>| p@) == ts);
    let n = toks.len();
    let mut k: usize = 0;
    while k < n
        invariant
            n == toks@.len(),
            ts == toks@.map_values(|p: Vec<char>| p@),
            k <= n,
            sgr_from(ts, 0, (*old(color), *old(bold))) == sgr_from(ts, k as int, (*color, *bold)),
        decreases n - k,
    {
        let t = &toks[k];
        assert(ts[k as int] == t@);
        if t.len() == 0 || is_one(t, '0') {
            *color = None;
            *bold = false;
            k = k + 1;
        } else if is_one(t, '1') {
            *bold = true;
            k = k + 1;
        } else if is_two(t, '2', '2') {
            *bold = false;
            k = k + 1;
        } else if is_two(t, '3', '9') {
            *color = None;
            k = k + 1;
        } else if is_two(t, '3', '8') {
            if k + 1 >= n {
                k = n;
            } else if is_one(&toks[k + 1], '5') {
                assert(ts[k + 1] == toks@[k + 1]@);
                if k + 2 >= n {
                    k = n;
                } else {
                    assert(ts[k + 2] == toks@[k + 2]@);
                    match parse_u8(&toks[k + 2]) {
                        Some(v) => {
                            *color = Some(AnsiColor::Indexed(v));
                        },
                        None => {},
                    }
                    k = k + 3;
                }
            } else if is_one(&toks[k + 1], '2') {
                assert(ts[k + 1] == toks@[k + 1]@);
                if n - k < 5 {
                    k = n;
                } else {
                    assert(ts[k + 2] == toks@[k + 2]@);
                    assert(ts[k + 3] == toks@[k + 3]@);
                    assert(ts[k + 4] == toks@[k + 4]@);
                    let r = parse_u8(&toks[k + 2]);
                    let g = parse_u8(&toks[k + 3]);
                    let b = parse_u8(&toks[k + 4]);
                    match (r, g, b) {
                        (Some(r), Some(g), Some(b)) => {
                            *color = Some(AnsiColor::Rgb(r, g, b));
                        },
                        _ => {},
                    }
                    k = k + 5;
                }
            } else {
                assert(ts[k + 1] == toks@[k + 1]@);
                k = k + 2;
            }
        } else {
            match parse_u8(t) {
                Some(c) => {
                    if (30 <= c && c <= 37) || (90 <= c && c <= 97) {
                        *color = Some(AnsiColor::Standard(c));
                    }
                },
                None => {},
            }
            k = k + 1;
        }
    }
}

/// Whether the escape character at `i` opens an SGR sequence: `ESC [`,
/// parameters, then `m`.
pub open spec fn is_sgr(cs: Seq<char>, i: int) -> bool {
    &&& i + 1 < cs.len()
    &&& cs[i + 1] == '['
    &&& csi_stop(cs, i + 2) < cs.len()
    &&& cs[csi_stop(cs, i + 2)] == 'm'
}

/// The parameters of the CSI sequence whose escape character is at `i`.
pub open spec fn csi_params(cs: Seq<char>, i: int) -> Seq<char> {
    cs.subrange(i + 2, csi_stop(cs, i + 2))
}

/// `runs` with the pending text `cur` closed as a run in `style`, when there
/// is any.
pub open spec fn flushed(runs: Seq<RunView>, cur: Seq<char>, style: Style) -> Seq<RunView> {
    if cur.len() > 0 {
        runs.push((cur, style.0, style.1))
    } else {
        runs
    }
}

/// The runs of `cs` read from index `i` on, after `runs` were closed, with
/// text `cur` pending in `style`: an SGR sequence closes the pending text
/// and changes the style, other escape sequences are dropped, and every
/// other character joins the pending text. At the end the pending text is
/// closed too, and so is an empty one when no run was closed at all.
pub open spec fn runs_from(cs: Seq<char>, i: int, runs: Seq<RunView>, cur: Seq<char>, style: Style) -> Seq<RunView>
    decreases cs.len() - i,
{
    if i < 0 || i >= cs.len() {
        if cur.len() > 0 || runs.len() == 0 {
            runs.push((cur, style.0, style.1))
        } else {
            runs
        }
    } else if is_esc(cs[i]) {
        proof {
            lemma_after_escape(cs, i);
        }
        if is_sgr(cs, i) {
            runs_from(cs, after_escape(cs, i), flushed(runs, cur, style), Seq::empty(), sgr(csi_params(cs, i), style))
        } else {
            runs_from(cs, after_escape(cs, i), runs, cur, style)
        }
    } else {
        runs_from(cs, i + 1, runs, cur.push(cs[i]), style)
    }
}

/// The runs of `s`, starting with no colour and not bold.
pub open spec fn runs_of(s: Seq<char>) -> Seq<RunView> {
    runs_from(s, 0, Seq::empty(), Seq::empty(), (None, false))
}

/// Split a string into styled runs by its ANSI SGR sequences (`ESC [ … m`),
/// dropping the escape characters. Other CSI sequences (cursor moves and
/// the like) and lone escapes are dropped too. A string with no escapes
/// gives one run.
pub fn ansi_runs(s: &str) -> (r: Vec<AnsiRun>)
    ensures
        r@.map_values(|x: AnsiRun| x@) == runs_of(s@),
{
    let cs = chars_of(s);
    let n = cs.len();
    let mut runs: Vec<AnsiRun> = Vec::new();
    let mut cur = String::new();
    let mut pending_text = false;
    let mut color: Option<AnsiColor> = None;
    let mut bold = false;
    let mut i: usize = 0;
    assert(runs@.map_values(|x: AnsiRun| x@) =~= Seq::<RunView>::empty());
    while i < n
        invariant
            cs@ == s@,
            n == cs@.len(),
            i <= n,
            pending_text == (cur@.len() > 0),
            runs_of(s@) == runs_from(cs@, i as int, runs@.map_values(|x: AnsiRun| x@), cur@, (color, bold)),
        decreases n - i,
    {
        let c = cs[i];
        if c == '\x1b' {
            proof {
                lemma_after_escape(cs@, i as int);
            }
            if i + 1 < n && cs[i + 1] == '[' {
                let mut params = String::new();
                let mut j = i + 2;
                proof {
                    lemma_csi_stop(cs@, i + 2);
                }
                while j < n && (('0' <= cs[j] && cs[j] <= '9') || cs[j] == ';')
                    invariant
                        n == cs@.len(),
                        i + 2 <= j <= n,
                        csi_stop(cs@, j as int) == csi_stop(cs@, i + 2),
                        params@ == cs@.subrange(i + 2, j as int),
                    decreases n - j,
                {
                    proof {
                        assert(cs@.subrange(i + 2, j + 1) =~= cs@.subrange(i + 2, j as int).push(cs@[j as int]));
                    }
                    push_char(&mut params, cs[j]);
                    j = j + 1;
                }
                assert(j == csi_stop(cs@, i + 2));
                if j < n && cs[j] == 'm' {
                    let ghost before = runs@.map_values(|x: AnsiRun| x@);
                    let ghost pending = cur@;
                    if pending_text {
                        let text = cur;
                        cur = String::new();
                        pending_text = false;
                        runs.push(AnsiRun { text, color, bold });
                        assert(runs@.map_values(|x: AnsiRun| x@) =~= before.push((text@, color, bold)));
                    }
                    assert(runs@.map_values(|x: AnsiRun| x@) == flushed(before, pending, (color, bold)));
                    assert(cur@ =~= Seq::<char>::empty());
                    assert(is_sgr(cs@, i as int));
                    assert(csi_params(cs@, i as int) == params@);
                    apply_sgr(params.as_str(), &mut color, &mut bold);
                } else {
                    assert(!is_sgr(cs@, i as int));
                }
                i = if j < n { j + 1 } else { n };
            } else {
                i = i + 1;
            }
        } else {
            push_char(&mut cur, c);
            pending_text = true;
            i = i + 1;
        }
    }
    if pending_text || runs.len() == 0 {
        let ghost before = runs@.map_values(|x: AnsiRun| x@);
        let ghost pending = cur@;
        runs.push(AnsiRun { text: cur, color, bold });
        assert(runs@.map_values(|x: AnsiRun| x@) =~= before.push((pending, color, bold)));
    }
    runs
}

/// The texts of `runs`, put together in order.
pub open spec fn run_texts(runs: Seq<RunView>) -> Seq<char>
    decreases runs.len(),
{
    if runs.len() == 0 {
        Seq::empty()
    } else {
        run_texts(runs.drop_last()) + runs.last().0
    }
}

proof fn lemma_run_texts_push(runs: Seq<RunView>, x: RunView)
    ensures
        run_texts(runs.push(x)) == run_texts(runs) + x.0,
{
    assert(runs.push(x).drop_last() =~= runs);
}

proof fn lemma_runs_texts(cs: Seq<char>, i: int, runs: Seq<RunView>, cur: Seq<char>, style: Style)
    requires
        0 <= i <= cs.len(),
    ensures
        run_texts(runs_from(cs, i, runs, cur, style)) == run_texts(runs) + cur + stripped_from(cs, i),
    decreases cs.len() - i,
{
    if i >= cs.len() {
        if cur.len() > 0 || runs.len() == 0 {
            lemma_run_texts_push(runs, (cur, style.0, style.1));
        }
        assert(cur.len() == 0 ==> cur =~= Seq::<char>::empty());
        assert(run_texts(runs) + cur + Seq::<char>::empty() =~= run_texts(runs) + cur);
    } else if is_esc(cs[i]) {
        lemma_after_escape(cs, i);
        let j = after_escape(cs, i);
        if is_sgr(cs, i) {
            let f = flushed(runs, cur, style);
            lemma_runs_texts(cs, j, f, Seq::empty(), sgr(csi_params(cs, i), style));
            if cur.len() > 0 {
                lemma_run_texts_push(runs, (cur, style.0, style.1));
            } else {
                assert(cur =~= Seq::<char>::empty());
            }
            assert(run_texts(f) + Seq::<char>::empty() =~= run_texts(f));
        } else {
            lemma_runs_texts(cs, j, runs, cur, style);
        }
    } else {
        lemma_runs_texts(cs, i + 1, runs, cur.push(cs[i]), style);
        assert(run_texts(runs) + cur.push(cs[i]) + stripped_from(cs, i + 1) =~= run_texts(runs) + cur + (seq![cs[i]] + stripped_from(cs, i + 1)));
    }
}

/// The texts of the runs of `s`, put together, are `s` with every ANSI
/// escape sequence removed: exactly what `strip_ansi` returns.
pub proof fn law_runs_spell_stripped_text(s: Seq<char>)
    ensures
        run_texts(runs_of(s)) == stripped_from(s, 0),
{
    lemma_runs_texts(s, 0, Seq::empty(), Seq::empty(), (None, false));
    assert(run_texts(Seq::<RunView>::empty()) + Seq::<char>::empty() + stripped_from(s, 0) =~= stripped_from(s, 0));
}

proof fn lemma_plain_runs(cs: Seq<char>, i: int, cur: Seq<char>)
    requires
        0 <= i <= cs.len(),
        forall|k: int| 0 <= k < cs.len() ==> !is_esc(#[trigger] cs[k]),
    ensures
        runs_from(cs, i, Seq::empty(), cur, (None, false)) == seq![(cur + cs.skip(i), None::<AnsiColor>, false)],
    decreases cs.len() - i,
{
    if i >= cs.len() {
        assert(cur + cs.skip(i) =~= cur);
        assert(Seq::<RunView>::empty().push((cur, None, false)) =~= seq![(cur, None::<AnsiColor>, false)]);
    } else {
        assert(!is_esc(cs[i]));
        lemma_plain_runs(cs, i + 1, cur.push(cs[i]));
        assert(cur.push(cs[i]) + cs.skip(i + 1) =~= cur + cs.skip(i));
    }
}

/// A string with no escape character is a single run: all of its text, with
/// no colour and not bold.
pub proof fn law_plain_text_is_one_run(s: Seq<char>)
    requires
        forall|k: int| 0 <= k < s.len() ==> !is_esc(#[trigger] s[k]),
    ensures
        runs_of(s) == seq![(s, None::<AnsiColor>, false)],
{
    lemma_plain_runs(s, 0, Seq::empty());
    assert(Seq::<char>::empty() + s.skip(0) =~= s);
}

proof fn lemma_runs_nonempty(cs: Seq<char>, i: int, runs: Seq<RunView>, cur: Seq<char>, style: Style)
    requires
        0 <= i <= cs.len(),
        forall|k: int| 0 <= k < runs.len() ==> (#[trigger] runs[k]).0.len() > 0,
    ensures
        ({
            let r = runs_from(cs, i, runs, cur, style);
            r.len() >= 1 && (r.len() == 1 || forall|k: int| 0 <= k < r.len() ==> (#[trigger] r[k]).0.len() > 0)
        }),
    decreases cs.len() - i,
{
    if i >= cs.len() {
        let r = runs_from(cs, i, runs, cur, style);
        if cur.len() > 0 {
            assert forall|k: int| 0 <= k < r.len() implies (#[trigger] r[k]).0.len() > 0 by {
                if k < runs.len() {
                    assert(r[k] == runs[k]);
                }
            }
        }
    } else if is_esc(cs[i]) {
        lemma_after_escape(cs, i);
        if is_sgr(cs, i) {
            let f = flushed(runs, cur, style);
            assert forall|k: int| 0 <= k < f.len() implies (#[trigger] f[k]).0.len() > 0 by {
                if k < runs.len() {
                    assert(f[k] == runs[k]);
                }
            }
            lemma_runs_nonempty(cs, after_escape(cs, i), f, Seq::empty(), sgr(csi_params(cs, i), style));
        } else {
            lemma_runs_nonempty(cs, after_escape(cs, i), runs, cur, style);
        }
    } else {
        lemma_runs_nonempty(cs, i + 1, runs, cur.push(cs[i]), style);
    }
}

/// Every string gives at least one run, and only a lone run can be empty:
/// an SGR sequence with no text before it closes no run.
pub proof fn law_only_a_lone_run_is_empty(s: Seq<char>)
    ensures
        runs_of(s).len() >= 1,
        runs_of(s).len() == 1 || forall|k: int| 0 <= k < runs_of(s).len() ==> (#[trigger] runs_of(s)[k]).0.len() > 0,
{
    lemma_runs_nonempty(s, 0, Seq::empty(), Seq::empty(), (None, false));
}

/// Whether an SGR parameter is one that sets or clears bold: empty or `0`
/// (reset), `1` (bold), `22` (normal intensity).
pub open spec fn touches_bold(t: Seq<char>) -> bool {
    t.len() == 0 || t == seq!['0'] || t == seq!['1'] || t == seq!['2', '2']
}

proof fn lemma_colours_keep_bold(toks: Seq<Seq<char>>, k: int, style: Style)
    requires
        0 <= k,
        forall|j: int| k <= j < toks.len() ==> !touches_bold(#[trigger] toks[j]),
    ensures
        sgr_from(toks, k, style).1 == style.1,
    decreases toks.len() - k,
{
    if k < toks.len() {
        let t = toks[k];
        assert(!touches_bold(t));
        if t == seq!['3', '9'] {
            lemma_colours_keep_bold(toks, k + 1, (None, style.1));
        } else if t == seq!['3', '8'] {
            if k + 1 < toks.len() {
                if toks[k + 1] == seq!['5'] {
                    if k + 2 < toks.len() {
                        match u8_of(toks[k + 2]) {
                            Some(n) => lemma_colours_keep_bold(toks, k + 3, (Some(AnsiColor::Indexed(n)), style.1)),
                            None => lemma_colours_keep_bold(toks, k + 3, style),
                        }
                    }
                } else if toks[k + 1] == seq!['2'] {
                    if k + 5 <= toks.len() {
                        match (u8_of(toks[k + 2]), u8_of(toks[k + 3]), u8_of(toks[k + 4])) {
                            (Some(r), Some(g), Some(b)) => lemma_colours_keep_bold(
                                toks,
                                k + 5,
                                (Some(AnsiColor::Rgb(r, g, b)), style.1),
                            ),
                            _ => lemma_colours_keep_bold(toks, k + 5, style),
                        }
                    }
                } else {
                    lemma_colours_keep_bold(toks, k + 2, style);
                }
            }
        } else {
            match u8_of(t) {
                Some(c) => if is_standard(c) {
                    lemma_colours_keep_bold(toks, k + 1, (Some(AnsiColor::Standard(c)), style.1));
                } else {
                    lemma_colours_keep_bold(toks, k + 1, style);
                },
                None => lemma_colours_keep_bold(toks, k + 1, style),
            }
        }
    }
}

/// Colour parameters change only the colour: when no parameter of an SGR
/// list resets, sets or clears bold (none is empty, `0`, `1` or `22`), the
/// bold flag after the list is the one before it, whatever standard,
/// palette (`38;5;n`) or truecolour (`38;2;r;g;b`) colours it picks.
pub proof fn law_colours_keep_bold(params: Seq<char>, style: Style)
    requires
        forall|j: int| 0 <= j < split_on(params, ';').len() ==> !touches_bold(#[trigger] split_on(params, ';')[j]),
    ensures
        sgr(params, style).1 == style.1,
{
    lemma_colours_keep_bold(split_on(params, ';'), 0, style);
}

/// Whether an SGR parameter can change the colour: empty or `0` (reset),
/// `39` (default colour), `38` (palette or truecolour), or a standard
/// colour code.
pub open spec fn touches_colour(t: Seq<char>) -> bool {
    t.len() == 0 || t == seq!['0'] || t == seq!['3', '9'] || t == seq!['3', '8'] || (u8_of(t) is Some && is_standard(
        u8_of(t)->0,
    ))
}

proof fn lemma_bold_keeps_colour(toks: Seq<Seq<char>>, k: int, style: Style)
    requires
        0 <= k,
        forall|j: int| k <= j < toks.len() ==> !touches_colour(#[trigger] toks[j]),
    ensures
        sgr_from(toks, k, style).0 == style.0,
    decreases toks.len() - k,
{
    if k < toks.len() {
        let t = toks[k];
        assert(!touches_colour(t));
        if t == seq!['1'] {
            lemma_bold_keeps_colour(toks, k + 1, (style.0, true));
        } else if t == seq!['2', '2'] {
            lemma_bold_keeps_colour(toks, k + 1, (style.0, false));
        } else {
            lemma_bold_keeps_colour(toks, k + 1, style);
        }
    }
}

/// Parameters that cannot pick a colour leave it: when no parameter of an
/// SGR list resets, picks or clears the colour, the colour after the list
/// is the one before it, whatever it does to bold.
pub proof fn law_bold_keeps_colour(params: Seq<char>, style: Style)
    requires
        forall|j: int| 0 <= j < split_on(params, ';').len() ==> !touches_colour(#[trigger] split_on(params, ';')[j]),
    ensures
        sgr(params, style).0 == style.0,
{
    lemma_bold_keeps_colour(split_on(params, ';'), 0, style);
}

/// The bold parameters do what they say, whatever came before: after a
/// list whose last parameter is `1` bold is on, after `22` or a reset it
/// is off, provided that parameter is not taken as the value of a
/// preceding `38` colour.
pub proof fn law_last_bold_parameter_decides(params: Seq<char>, style: Style)
    requires
        split_on(params, ';').len() > 0,
        forall|j: int| 0 <= j < split_on(params, ';').len() ==> #[trigger] split_on(params, ';')[j] != seq!['3', '8'],
    ensures
        ({
            let toks = split_on(params, ';');
            let t = toks.last();
            &&& t == seq!['1'] ==> sgr(params, style).1
            &&& (t == seq!['2', '2'] || t == seq!['0'] || t.len() == 0) ==> !sgr(params, style).1
        }),
{
    let toks = split_on(params, ';');
    lemma_last_decides(toks, 0, style);
}

proof fn lemma_last_decides(toks: Seq<Seq<char>>, k: int, style: Style)
    requires
        0 <= k < toks.len(),
        forall|j: int| 0 <= j < toks.len() ==> #[trigger] toks[j] != seq!['3', '8'],
    ensures
        toks.last() == seq!['1'] ==> sgr_from(toks, k, style).1,
        (toks.last() == seq!['2', '2'] || toks.last() == seq!['0'] || toks.last().len() == 0) ==> !sgr_from(toks, k, style).1,
    decreases toks.len() - k,
{
    let t = toks[k];
    assert(t != seq!['3', '8']);
    if k + 1 < toks.len() {
        if t.len() == 0 || t == seq!['0'] {
            lemma_last_decides(toks, k + 1, (None, false));
        } else if t == seq!['1'] {
            lemma_last_decides(toks, k + 1, (style.0, true));
        } else if t == seq!['2', '2'] {
            lemma_last_decides(toks, k + 1, (style.0, false));
        } else if t == seq!['3', '9'] {
            lemma_last_decides(toks, k + 1, (None, style.1));
        } else {
            match u8_of(t) {
                Some(c) => if is_standard(c) {
                    lemma_last_decides(toks, k + 1, (Some(AnsiColor::Standard(c)), style.1));
                } else {
                    lemma_last_decides(toks, k + 1, style);
                },
                None => lemma_last_decides(toks, k + 1, style),
            }
        }
    } else {
        assert(toks.last() == t);
        if t.len() == 0 || t == seq!['0'] {
            assert(sgr_from(toks, k, style) == sgr_from(toks, k + 1, (None, false)));
        } else if t == seq!['1'] {
            assert(sgr_from(toks, k, style) == sgr_from(toks, k + 1, (style.0, true)));
        } else if t == seq!['2', '2'] {
            assert(sgr_from(toks, k, style) == sgr_from(toks, k + 1, (style.0, false)));
        }
    }
}

} // verus!
