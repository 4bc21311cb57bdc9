//! Strings as the terminal shows them: display widths, clipping, wrapping.

use unicode_width::{UnicodeWidthChar, UnicodeWidthStr};
use vstd::prelude::*;
use vstd::string::StringSliceAdditionalSpecFns;

verus! {

/// Display width of one character as `unicode-width` computes it (`None` for
/// control characters).
pub uninterp spec fn char_width(c: char) -> Option<usize>;

/// Display width of a whole string as `unicode-width` computes it.
pub uninterp spec fn str_width(s: Seq<char>) -> usize;

/// `UnicodeWidthChar::width`. The crate's source answers without its tables
/// below U+00A0: printable ASCII (U+0020..U+007E) is one column wide, other
/// characters below U+00A0 are control characters and have no width. Above
/// that the result is only named.
#[verifier::external_body]
pub fn char_width_of(c: char) -> (r: Option<usize>)
    ensures
        r == char_width(c),
        (c as u32) < 0x7F && (c as u32) >= 0x20 ==> r == Some(1usize),
        (c as u32) < 0x20 || (0x7F <= (c as u32) && (c as u32) < 0xA0) ==> r == None::<usize>,
{
    UnicodeWidthChar::width(c)
}

/// `UnicodeWidthStr::width`. Not stated: how it relates to the widths of the
/// single characters (the crate combines some sequences, such as emoji with
/// joiners, into one glyph).
#[verifier::external_body]
pub fn str_width_of(s: &str) -> (r: usize)
    ensures
        r == str_width(s@),
{
    UnicodeWidthStr::width(s)
}

/// `String::push`: appends one character.
#[verifier::external_body]
pub fn push_char(s: &mut String, c: char)
    ensures
        final(s)@ == old(s)@.push(c),
{
    s.push(c)
}

/// The characters of `s`, in order.
pub fn chars_of(s: &str) -> (v: Vec<char>)
    ensures
        v@ == s@,
{
    let mut v: Vec<char> = Vec::new();
    for c in it: s.chars()
        invariant
            v@ == it.seq().take(it.index() as int),
    {
        v.push(c);
    }
    v
}


/// Whether `c` has the Unicode White_Space property, as `char::is_whitespace`
/// reads it: tab through carriage return, space, next line, no-break space,
/// ogham space mark, the en quad through hair space, the line and paragraph
/// separators, narrow no-break space, medium mathematical space and
/// ideographic space.
pub open spec fn is_ws(c: char) -> bool {
    ('\u{9}' <= c && c <= '\u{d}') || c == ' ' || c == '\u{85}' || c == '\u{a0}' || c == '\u{1680}' || ('\u{2000}'
        <= c && c <= '\u{200a}') || c == '\u{2028}' || c == '\u{2029}' || c == '\u{202f}' || c == '\u{205f}' || c
        == '\u{3000}'
}

/// Whether `c` is white space (see `is_ws`).
pub fn is_whitespace(c: char) -> (r: bool)
    ensures
        r == is_ws(c),
{
    ('\u{9}' <= c && c <= '\u{d}') || c == ' ' || c == '\u{85}' || c == '\u{a0}' || c == '\u{1680}' || ('\u{2000}'
        <= c && c <= '\u{200a}') || c == '\u{2028}' || c == '\u{2029}' || c == '\u{202f}' || c == '\u{205f}' || c
        == '\u{3000}'
}

/// `char::is_alphanumeric`: the Unicode Alphabetic or Numeric property.
pub uninterp spec fn is_alnum(c: char) -> bool;

/// `char::is_alphanumeric`. The result is named, not spelled out.
#[verifier::external_body]
pub fn is_alphanumeric(c: char) -> (r: bool)
    ensures
        r == is_alnum(c),
{
    c.is_alphanumeric()
}

/// A `String` holding exactly `cs`.
pub fn string_from(cs: &Vec<char>) -> (s: String)
    ensures
        s@ == cs@,
{
    let mut s = String::new();
    let mut k: usize = 0;
    while k < cs.len()
        invariant
            k <= cs@.len(),
            s@ == cs@.take(k as int),
        decreases cs@.len() - k,
    {
        push_char(&mut s, cs[k]);
        assert(cs@.take(k + 1) =~= cs@.take(k as int).push(cs@[k as int]));
        k = k + 1;
    }
    assert(cs@.take(cs@.len() as int) =~= cs@);
    s
}

/// Number of leading characters of `s` that are whitespace.
pub open spec fn lead_ws(s: Seq<char>) -> int
    decreases s.len(),
{
    if s.len() > 0 && is_ws(s[0]) {
        1 + lead_ws(s.drop_first())
    } else {
        0
    }
}

/// Number of trailing characters of `s` that are whitespace.
pub open spec fn trail_ws(s: Seq<char>) -> int
    decreases s.len(),
{
    if s.len() > 0 && is_ws(s.last()) {
        1 + trail_ws(s.drop_last())
    } else {
        0
    }
}

/// `s` without leading and trailing whitespace (`str::trim`).
pub open spec fn trimmed(s: Seq<char>) -> Seq<char> {
    if lead_ws(s) == s.len() {
        Seq::empty()
    } else {
        s.subrange(lead_ws(s), s.len() - trail_ws(s))
    }
}

/// Whether every character of `s` is whitespace (`s.trim().is_empty()`).
pub open spec fn blank(s: Seq<char>) -> bool {
    forall|i: int| 0 <= i < s.len() ==> is_ws(#[trigger] s[i])
}

proof fn lemma_lead_ws(s: Seq<char>)
    ensures
        0 <= lead_ws(s) <= s.len(),
        forall|i: int| 0 <= i < lead_ws(s) ==> is_ws(#[trigger] s[i]),
        lead_ws(s) < s.len() ==> !is_ws(s[lead_ws(s)]),
    decreases s.len(),
{
    if s.len() > 0 && is_ws(s[0]) {
        lemma_lead_ws(s.drop_first());
        assert forall|i: int| 0 <= i < lead_ws(s) implies is_ws(#[trigger] s[i]) by {
            if i > 0 {
                assert(s[i] == s.drop_first()[i - 1]);
            }
        }
    }
}

proof fn lemma_trail_ws(s: Seq<char>)
    ensures
        0 <= trail_ws(s) <= s.len(),
        forall|i: int| s.len() - trail_ws(s) <= i < s.len() ==> is_ws(#[trigger] s[i]),
        trail_ws(s) < s.len() ==> !is_ws(s[s.len() - 1 - trail_ws(s)]),
    decreases s.len(),
{
    if s.len() > 0 && is_ws(s.last()) {
        lemma_trail_ws(s.drop_last());
        assert forall|i: int| s.len() - trail_ws(s) <= i < s.len() implies is_ws(#[trigger] s[i]) by {
            if i < s.len() - 1 {
                assert(s[i] == s.drop_last()[i]);
            }
        }
        if trail_ws(s) < s.len() {
            assert(s[s.len() - 1 - trail_ws(s)] == s.drop_last()[s.len() - 1 - trail_ws(s)]);
        }
    }
}

/// Whether every character of `s` is whitespace, i.e. `s.trim().is_empty()`.
pub fn is_blank(s: &str) -> (r: bool)
    ensures
        r == blank(s@),
        r == (trimmed(s@).len() == 0),
{
    let cs = chars_of(s);
    let mut k: usize = 0;
    while k < cs.len()
        invariant
            cs@ == s@,
            k <= cs@.len(),
            forall|i: int| 0 <= i < k ==> is_ws(#[trigger] cs@[i]),
        decreases cs@.len() - k,
    {
        if !is_whitespace(cs[k]) {
            proof {
                lemma_blank_trimmed(s@);
            }
            return false;
        }
        k = k + 1;
    }
    proof {
        lemma_blank_trimmed(s@);
    }
    true
}

/// A string is blank exactly when trimming leaves nothing.
pub proof fn lemma_blank_trimmed(s: Seq<char>)
    ensures
        blank(s) <==> trimmed(s).len() == 0,
{
    lemma_lead_ws(s);
    lemma_trail_ws(s);
    if lead_ws(s) < s.len() {
        assert(!is_ws(s[lead_ws(s)]));
        assert(s.len() - trail_ws(s) > lead_ws(s)) by {
            if s.len() - trail_ws(s) <= lead_ws(s) {
                assert(is_ws(s[lead_ws(s)]));
            }
        }
    } else {
        assert forall|i: int| 0 <= i < s.len() implies is_ws(#[trigger] s[i]) by {}
    }
}

/// `str::trim`: the characters of `s` without leading and trailing whitespace.
pub fn trim_chars(s: &str) -> (r: Vec<char>)
    ensures
        r@ == trimmed(s@),
{
    let cs = chars_of(s);
    proof {
        lemma_lead_ws(s@);
        lemma_trail_ws(s@);
    }
    let n = cs.len();
    let mut a: usize = 0;
    while a < n && is_whitespace(cs[a])
        invariant
            cs@ == s@,
            n == cs@.len(),
            a <= n,
            a <= lead_ws(s@),
        decreases n - a,
    {
        proof {
            lemma_lead_ws_step(s@, a as int);
        }
        a = a + 1;
    }
    assert(a == lead_ws(s@)) by {
        if a < n {
            lemma_lead_ws_stop(s@, a as int);
        }
    }
    let mut out: Vec<char> = Vec::new();
    if a == n {
        return out;
    }
    let mut b: usize = n;
    while b > a && is_whitespace(cs[b - 1])
        invariant
            cs@ == s@,
            n == cs@.len(),
            a < n,
            a == lead_ws(s@),
            a <= b <= n,
            n - b <= trail_ws(s@),
        decreases b,
    {
        proof {
            lemma_trail_ws_step(s@, (n - b) as int);
        }
        b = b - 1;
    }
    assert(b == n - trail_ws(s@)) by {
        if b > a {
            lemma_trail_ws_stop(s@, (n - b) as int);
        } else {
            assert(!is_ws(s@[lead_ws(s@)]));
            if n - b < trail_ws(s@) {
                assert(is_ws(s@[b as int]));
            }
        }
    }
    let mut k = a;
    while k < b
        invariant
            cs@ == s@,
            a <= k <= b,
            b <= cs@.len(),
            out@ == cs@.subrange(a as int, k as int),
        decreases b - k,
    {
        out.push(cs[k]);
        assert(cs@.subrange(a as int, k + 1) =~= cs@.subrange(a as int, k as int).push(cs@[k as int]));
        k = k + 1;
    }
    out
}

proof fn lemma_lead_ws_step(s: Seq<char>, a: int)
    requires
        0 <= a < s.len(),
        a <= lead_ws(s),
        is_ws(s[a]),
    ensures
        a + 1 <= lead_ws(s),
    decreases a,
{
    if a > 0 {
        assert(is_ws(s[0])) by {
            lemma_lead_ws(s);
        }
        assert(s.drop_first()[a - 1] == s[a]);
        lemma_lead_ws_step(s.drop_first(), a - 1);
    } else {
        lemma_lead_ws(s.drop_first());
        assert(lead_ws(s) == 1 + lead_ws(s.drop_first()));
    }
}

proof fn lemma_lead_ws_stop(s: Seq<char>, a: int)
    requires
        0 <= a < s.len(),
        a <= lead_ws(s),
        !is_ws(s[a]),
    ensures
        a == lead_ws(s),
{
    lemma_lead_ws(s);
}

proof fn lemma_trail_ws_step(s: Seq<char>, t: int)
    requires
        0 <= t < s.len(),
        t <= trail_ws(s),
        is_ws(s[s.len() - 1 - t]),
    ensures
        t + 1 <= trail_ws(s),
    decreases t,
{
    if t > 0 {
        assert(is_ws(s.last())) by {
            lemma_trail_ws(s);
        }
        let p = s.drop_last();
        assert(p[p.len() - 1 - (t - 1)] == s[s.len() - 1 - t]);
        lemma_trail_ws_step(p, t - 1);
    } else {
        lemma_trail_ws(s.drop_last());
        assert(trail_ws(s) == 1 + trail_ws(s.drop_last()));
    }
}

proof fn lemma_trail_ws_stop(s: Seq<char>, t: int)
    requires
        0 <= t < s.len(),
        t <= trail_ws(s),
        !is_ws(s[s.len() - 1 - t]),
    ensures
        t == trail_ws(s),
{
    lemma_trail_ws(s);
}


/// Whether `c` is printable ASCII (U+0020 through U+007E).
pub open spec fn printable_ascii(c: char) -> bool {
    ' ' <= c && c <= '~'
}

/// Columns one character takes, control characters counting as none.
/// Printable ASCII is one column wide, as `char_width_of` states.
pub open spec fn cols(c: char) -> nat {
    if printable_ascii(c) {
        1
    } else {
        match char_width(c) {
            Some(w) => w as nat,
            None => 0,
        }
    }
}

/// `cols(c)`, computed.
pub fn cols_of(c: char) -> (w: usize)
    ensures
        w == cols(c),
{
    match char_width_of(c) {
        Some(w) => w,
        None => 0,
    }
}

/// How many leading characters of `cs` fit, greedily, into `room` columns.
pub open spec fn fit_count(cs: Seq<char>, room: int) -> nat
    decreases cs.len(),
{
    if cs.len() == 0 || cols(cs[0]) > room {
        0
    } else {
        1 + fit_count(cs.drop_first(), room - cols(cs[0]))
    }
}

/// What `clip_to_width` makes of `s`: the string itself when it fits in
/// `max` columns, nothing when `max` is zero, and otherwise the longest
/// prefix that leaves one column for a trailing `…`.
pub open spec fn clipped(s: Seq<char>, max: nat) -> Seq<char> {
    if str_width(s) <= max {
        s
    } else if max == 0 {
        Seq::empty()
    } else {
        s.take(fit_count(s, max - 1) as int).push('…')
    }
}

proof fn lemma_fit_count_step(cs: Seq<char>, k: int, room: int, used: int)
    requires
        0 <= k < cs.len(),
        fit_count(cs, room) == k + fit_count(cs.skip(k), room - used),
        cols(cs[k]) <= room - used,
    ensures
        fit_count(cs, room) == (k + 1) + fit_count(cs.skip(k + 1), room - used - cols(cs[k])),
{
    let t = cs.skip(k);
    assert(t[0] == cs[k]);
    assert(t.drop_first() =~= cs.skip(k + 1));
}

proof fn lemma_fit_count_bound(cs: Seq<char>, room: int)
    ensures
        fit_count(cs, room) <= cs.len(),
    decreases cs.len(),
{
    if cs.len() > 0 && cols(cs[0]) <= room {
        lemma_fit_count_bound(cs.drop_first(), room - cols(cs[0]));
    }
}

/// Columns the characters of `s` take, one after another.
pub open spec fn cols_sum(s: Seq<char>) -> int
    decreases s.len(),
{
    if s.len() == 0 {
        0
    } else {
        cols(s[0]) + cols_sum(s.drop_first())
    }
}

/// What greedy fitting keeps of `cs` fits in `room` columns.
pub proof fn lemma_fit_count_fits(cs: Seq<char>, room: int)
    requires
        room >= 0,
    ensures
        cols_sum(cs.take(fit_count(cs, room) as int)) <= room,
    decreases cs.len(),
{
    let k = fit_count(cs, room) as int;
    lemma_fit_count_bound(cs, room);
    if k > 0 {
        lemma_fit_count_bound(cs.drop_first(), room - cols(cs[0]));
        lemma_fit_count_fits(cs.drop_first(), room - cols(cs[0]));
        let t = cs.take(k);
        assert(t[0] == cs[0]);
        assert(t.drop_first() =~= cs.drop_first().take(k - 1));
    } else {
        assert(cs.take(0).len() == 0);
    }
}

/// Clip `s` to at most `max` terminal columns, ending a clipped string in
/// `…`. Widths are display columns, so wide glyphs count double.
pub fn clip_to_width(s: &str, max: usize) -> (r: String)
    ensures
        r@ == clipped(s@, max as nat),
        str_width(s@) > max && max > 0 ==> r@.last() == '…' && cols_sum(r@.drop_last()) < max,
{
    proof {
        if str_width(s@) > max && max > 0 {
            lemma_fit_count_fits(s@, max - 1);
            let k = fit_count(s@, max - 1) as int;
            assert(s@.take(k).push('…').drop_last() =~= s@.take(k));
        }
    }
    if str_width_of(s) <= max {
        return s.to_owned();
    }
    if max == 0 {
        return String::new();
    }
    let cs = chars_of(s);
    let room = max - 1;
    let mut out = String::new();
    let mut used: usize = 0;
    let mut k: usize = 0;
    assert(cs@.skip(0) =~= cs@);
    while k < cs.len()
        invariant
            cs@ == s@,
            room == max - 1,
            k <= cs@.len(),
            used <= room,
            out@ == cs@.take(k as int),
            fit_count(cs@, room as int) == k + fit_count(cs@.skip(k as int), room - used),
        ensures
            out@ == cs@.take(k as int),
            fit_count(cs@, room as int) == k,
        decreases cs@.len() - k,
    {
        let c = cs[k];
        let w = cols_of(c);
        if w > room - used {
            proof {
                let t = cs@.skip(k as int);
                assert(t[0] == cs@[k as int]);
            }
            break;
        }
        proof {
            lemma_fit_count_step(cs@, k as int, room as int, used as int);
        }
        push_char(&mut out, c);
        assert(cs@.take(k + 1) =~= cs@.take(k as int).push(cs@[k as int]));
        used = used + w;
        k = k + 1;
    }
    push_char(&mut out, '…');
    out
}


/// The escape character that starts an ANSI sequence.
pub open spec fn is_esc(c: char) -> bool {
    c == '\x1b'
}

/// A parameter character of a CSI sequence: an ASCII digit or `;`.
pub open spec fn csi_param(c: char) -> bool {
    ('0' <= c && c <= '9') || c == ';'
}

/// The first index at or after `j` whose character is not a CSI parameter.
pub open spec fn csi_stop(cs: Seq<char>, j: int) -> int
    decreases cs.len() - j,
{
    if 0 <= j < cs.len() && csi_param(cs[j]) {
        csi_stop(cs, j + 1)
    } else {
        j
    }
}

pub proof fn lemma_csi_stop(cs: Seq<char>, j: int)
    requires
        0 <= j <= cs.len(),
    ensures
        j <= csi_stop(cs, j) <= cs.len(),
    decreases cs.len() - j,
{
    if j < cs.len() && csi_param(cs[j]) {
        lemma_csi_stop(cs, j + 1);
    }
}

/// Where reading resumes after the escape character at `i`: a CSI sequence
/// (`ESC [`, parameters, one final character) is skipped whole, a lone
/// escape on its own.
pub open spec fn after_escape(cs: Seq<char>, i: int) -> int {
    if i + 1 < cs.len() && cs[i + 1] == '[' {
        let stop = csi_stop(cs, i + 2);
        if stop < cs.len() {
            stop + 1
        } else {
            cs.len() as int
        }
    } else {
        i + 1
    }
}

pub proof fn lemma_after_escape(cs: Seq<char>, i: int)
    requires
        0 <= i < cs.len(),
    ensures
        i < after_escape(cs, i) <= cs.len(),
{
    if i + 1 < cs.len() && cs[i + 1] == '[' {
        lemma_csi_stop(cs, i + 2);
    }
}

/// Rows used when the characters of `cs` from index `i` on are laid out in
/// rows of `w` columns, starting on row number `rows` with `col` columns
/// already filled. A glyph that does not fit moves whole to the next row;
/// escape sequences take no room.
pub open spec fn rows_from(cs: Seq<char>, i: int, w: int, rows: int, col: int) -> int
    decreases cs.len() - i,
{
    if i < 0 || i >= cs.len() {
        rows
    } else if is_esc(cs[i]) {
        proof {
            lemma_after_escape(cs, i);
        }
        rows_from(cs, after_escape(cs, i), w, rows, col)
    } else if col + cols(cs[i]) > w && col > 0 {
        rows_from(cs, i + 1, w, rows + 1, cols(cs[i]) as int)
    } else {
        rows_from(cs, i + 1, w, rows, col + cols(cs[i]))
    }
}

/// Terminal rows a log line takes at `width` columns (a width of zero
/// counts as one): at least one, even for an empty line.
pub open spec fn wrapped_rows(cs: Seq<char>, width: nat) -> int {
    rows_from(cs, 0, if width == 0 { 1 } else { width as int }, 1, 0)
}

/// `n / w`, rounded up.
pub open spec fn ceil_div(n: int, w: int) -> int {
    n / w + if n % w == 0 { 0int } else { 1int }
}

proof fn lemma_rows_printable(cs: Seq<char>, i: int, w: int, rows: int, col: int)
    requires
        w >= 1,
        0 <= i <= cs.len(),
        forall|k: int| 0 <= k < cs.len() ==> printable_ascii(#[trigger] cs[k]),
        (i == 0 && rows == 1 && col == 0) || (i > 0 && 1 <= col <= w && (rows - 1) * w + col == i),
    ensures
        rows_from(cs, i, w, rows, col) == if cs.len() == 0 { 1 } else { ceil_div(cs.len() as int, w) },
    decreases cs.len() - i,
{
    if i < cs.len() {
        assert(printable_ascii(cs[i]));
        assert(cols(cs[i]) == 1);
        if col + 1 > w && col > 0 {
            assert((rows + 1 - 1) * w + 1 == i + 1) by (nonlinear_arith)
                requires
                    (rows - 1) * w + col == i,
                    col == w,
            ;
            lemma_rows_printable(cs, i + 1, w, rows + 1, 1);
        } else {
            lemma_rows_printable(cs, i + 1, w, rows, col + 1);
        }
    } else if cs.len() > 0 {
        let n = cs.len() as int;
        if col == w {
            assert(n == rows * w) by (nonlinear_arith)
                requires
                    (rows - 1) * w + col == n,
                    col == w,
            ;
            vstd::arithmetic::div_mod::lemma_fundamental_div_mod_converse(n, w, rows, 0);
        } else {
            vstd::arithmetic::div_mod::lemma_fundamental_div_mod_converse(n, w, rows - 1, col);
        }
    }
}

/// Rows the characters `cs` take at `width` columns; see `wrapped_rows`.
pub fn wrapped_rows_of(cs: &Vec<char>, width: usize) -> (r: usize)
    ensures
        r == wrapped_rows(cs@, width as nat),
        1 <= r <= cs@.len() + 1,
{
    let w: usize = if width == 0 { 1 } else { width };
    let n = cs.len();
    let mut plain = true;
    let mut k: usize = 0;
    while k < n
        invariant
            n == cs@.len(),
            k <= n,
            plain == forall|j: int| 0 <= j < k ==> printable_ascii(#[trigger] cs@[j]),
        decreases n - k,
    {
        let c = cs[k];
        plain = plain && ' ' <= c && c <= '~';
        k = k + 1;
    }
    if plain {
        proof {
            lemma_rows_printable(cs@, 0, w as int, 1, 0);
        }
        if n == 0 {
            return 1;
        }
        let q = n / w;
        if n % w == 0 {
            assert(1 <= q <= n) by (nonlinear_arith)
                requires
                    w >= 1,
                    n >= 1,
                    q == n / w,
                    n % w == 0,
            ;
            return q;
        }
        assert(q < n) by (nonlinear_arith)
            requires
                w >= 1,
                n >= 1,
                q == n / w,
                n % w != 0,
        ;
        return q + 1;
    }
    proof {
        if n == 0 {
            assert(wrapped_rows(cs@, width as nat) == 1);
        }
    }
    let mut rows: usize = 1;
    let mut col: usize = 0;
    let mut i: usize = 0;
    while i < n
        invariant
            n == cs@.len(),
            w >= 1,
            w == (if width == 0 { 1 } else { width }),
            i <= n,
            1 <= rows <= i + 1,
            col > 0 ==> rows <= i,
            wrapped_rows(cs@, width as nat) == rows_from(cs@, i as int, w as int, rows as int, col as int),
        decreases n - i,
    {
        let c = cs[i];
        if c == '\x1b' {
            proof {
                lemma_after_escape(cs@, i as int);
            }
            if i + 1 < n && cs[i + 1] == '[' {
                let mut j = i + 2;
                while j < n && (('0' <= cs[j] && cs[j] <= '9') || cs[j] == ';')
                    invariant
                        n == cs@.len(),
                        i + 2 <= j <= n,
                        csi_stop(cs@, j as int) == csi_stop(cs@, i + 2),
                    decreases n - j,
                {
                    j = j + 1;
                }
                i = if j < n { j + 1 } else { n };
            } else {
                i = i + 1;
            }
        } else {
            let cw = cols_of(c);
            if col > 0 && (col > w || cw > w - col) {
                rows = rows + 1;
                col = cw;
            } else {
                col = col + cw;
            }
            i = i + 1;
        }
    }
    rows
}

/// Terminal rows `raw` takes at `width` columns (zero counts as one): each
/// row holds at most `width` columns, a wide glyph that does not fit moves
/// whole to the next row, and ANSI escapes take no room.
pub fn wrapped_height(raw: &str, width: usize) -> (r: usize)
    ensures
        r == wrapped_rows(raw@, width as nat),
{
    let cs = chars_of(raw);
    wrapped_rows_of(&cs, width)
}


/// Index of the first `\n` at or after `i`, or the length when none follows.
pub open spec fn newline_from(cs: Seq<char>, i: int) -> int
    decreases cs.len() - i,
{
    if 0 <= i < cs.len() && cs[i] != '\n' {
        newline_from(cs, i + 1)
    } else {
        i
    }
}

pub proof fn lemma_newline_from(cs: Seq<char>, i: int)
    requires
        0 <= i <= cs.len(),
    ensures
        i <= newline_from(cs, i) <= cs.len(),
        newline_from(cs, i) < cs.len() ==> cs[newline_from(cs, i)] == '\n',
        forall|k: int| i <= k < newline_from(cs, i) ==> cs[k] != '\n',
    decreases cs.len() - i,
{
    if i < cs.len() && cs[i] != '\n' {
        lemma_newline_from(cs, i + 1);
    }
}

/// Rows the text from index `i` takes, each `\n`-separated part wrapped on
/// its own (a part takes one row when `width` is zero).
pub open spec fn display_rows_from(cs: Seq<char>, i: int, width: nat) -> int
    decreases cs.len() - i,
{
    if i < 0 || i > cs.len() {
        0
    } else {
        let e = newline_from(cs, i);
        proof {
            lemma_newline_from(cs, i);
        }
        let h = if width == 0 { 1 } else { wrapped_rows(cs.subrange(i, e), width) };
        if e >= cs.len() {
            h
        } else {
            h + display_rows_from(cs, e + 1, width)
        }
    }
}

/// Rows a (possibly multi-line) log entry takes at `width` columns: the sum
/// over its `\n`-separated parts, each at least one row.
pub fn display_height(line: &str, width: usize) -> (r: usize)
    requires
        line@.len() < usize::MAX,
    ensures
        r == display_rows_from(line@, 0, width as nat),
{
    let cs = chars_of(line);
    let n = cs.len();
    let mut total: usize = 0;
    let mut i: usize = 0;
    loop
        invariant
            cs@ == line@,
            n == cs@.len(),
            n < usize::MAX,
            i <= n,
            total <= i,
            display_rows_from(cs@, 0, width as nat) == total + display_rows_from(cs@, i as int, width as nat),
        decreases n - i,
    {
        let mut piece: Vec<char> = Vec::new();
        let mut e = i;
        proof {
            lemma_newline_from(cs@, i as int);
        }
        while e < n && cs[e] != '\n'
            invariant
                n == cs@.len(),
                i <= e <= n,
                e <= newline_from(cs@, i as int),
                newline_from(cs@, e as int) == newline_from(cs@, i as int),
                piece@ == cs@.subrange(i as int, e as int),
            decreases n - e,
        {
            piece.push(cs[e]);
            assert(cs@.subrange(i as int, e + 1) =~= cs@.subrange(i as int, e as int).push(cs@[e as int]));
            proof {
                lemma_newline_from(cs@, e + 1);
            }
            e = e + 1;
        }
        let h = if width == 0 { 1 } else { wrapped_rows_of(&piece, width) };
        if e >= n {
            return total + h;
        }
        total = total + h;
        i = e + 1;
    }
}

/// `s` with its ANSI escape sequences removed, from index `i` on: a CSI
/// sequence goes whole, a lone escape character on its own.
pub open spec fn stripped_from(cs: Seq<char>, i: int) -> Seq<char>
    decreases cs.len() - i,
{
    if i < 0 || i >= cs.len() {
        Seq::empty()
    } else if is_esc(cs[i]) {
        proof {
            lemma_after_escape(cs, i);
        }
        stripped_from(cs, after_escape(cs, i))
    } else {
        seq![cs[i]] + stripped_from(cs, i + 1)
    }
}

/// The visible text of `s`: every ANSI escape sequence removed.
pub fn strip_ansi(s: &str) -> (r: String)
    ensures
        r@ == stripped_from(s@, 0),
{
    let cs = chars_of(s);
    let n = cs.len();
    let mut out = String::new();
    let mut i: usize = 0;
    while i < n
        invariant
            cs@ == s@,
            n == cs@.len(),
            i <= n,
            stripped_from(cs@, 0) == out@ + stripped_from(cs@, i as int),
        decreases n - i,
    {
        let c = cs[i];
        if c == '\x1b' {
            proof {
                lemma_after_escape(cs@, i as int);
            }
            if i + 1 < n && cs[i + 1] == '[' {
                let mut j = i + 2;
                while j < n && (('0' <= cs[j] && cs[j] <= '9') || cs[j] == ';')
                    invariant
                        n == cs@.len(),
                        i + 2 <= j <= n,
                        csi_stop(cs@, j as int) == csi_stop(cs@, i + 2),
                    decreases n - j,
                {
                    j = j + 1;
                }
                i = if j < n { j + 1 } else { n };
            } else {
                i = i + 1;
            }
        } else {
            proof {
                assert(out@.push(c) + stripped_from(cs@, i + 1) =~= out@ + (seq![c] + stripped_from(cs@, i + 1)));
            }
            push_char(&mut out, c);
            i = i + 1;
        }
    }
    assert(out@ + stripped_from(cs@, n as int) =~= out@);
    out
}

/// A YAML-ish key: after trimming, non-empty and made only of alphanumeric
/// characters, `_`, `-` and spaces.
pub open spec fn keyish(s: Seq<char>) -> bool {
    let t = trimmed(s);
    t.len() > 0 && forall|i: int| 0 <= i < t.len() ==> is_alnum(#[trigger] t[i]) || t[i] == '_' || t[i] == '-' || t[i] == ' '
}

/// Whether `s` looks like a key (see `keyish`).
pub fn is_keyish(s: &str) -> (r: bool)
    ensures
        r == keyish(s@),
{
    let t = trim_chars(s);
    if t.len() == 0 {
        return false;
    }
    let mut k: usize = 0;
    while k < t.len()
        invariant
            t@ == trimmed(s@),
            k <= t@.len(),
            forall|i: int| 0 <= i < k ==> is_alnum(#[trigger] t@[i]) || t@[i] == '_' || t@[i] == '-' || t@[i] == ' ',
        decreases t@.len() - k,
    {
        let c = t[k];
        if !(is_alphanumeric(c) || c == '_' || c == '-' || c == ' ') {
            return false;
        }
        k = k + 1;
    }
    true
}


/// The decimal digit for `d` (`d < 10`).
pub open spec fn digit_char(d: nat) -> char {
    (d + 48) as char
}

/// Decimal notation of `n`, without sign or leading zeros.
pub open spec fn decimal(n: nat) -> Seq<char>
    decreases n,
{
    if n < 10 {
        seq![digit_char(n)]
    } else {
        decimal(n / 10).push(digit_char(n % 10))
    }
}

/// `n` written in decimal (as `format!("{n}")` writes it).
pub fn decimal_string(n: u64) -> (r: String)
    ensures
        r@ == decimal(n as nat),
{
    let mut digits: Vec<char> = Vec::new();
    let mut m = n;
    let ghost mut rest: Seq<char> = Seq::empty();
    loop
        invariant_except_break
            decimal(n as nat) == decimal(m as nat) + rest,
            digits@ == rest.reverse(),
        ensures
            decimal(n as nat) == rest,
            digits@ == rest.reverse(),
        decreases m,
    {
        let d = m % 10;
        let c: char = match d {
            0 => '0',
            1 => '1',
            2 => '2',
            3 => '3',
            4 => '4',
            5 => '5',
            6 => '6',
            7 => '7',
            8 => '8',
            _ => '9',
        };
        assert(c == digit_char(d as nat));
        if m < 10 {
            proof {
                assert(decimal(m as nat) == seq![c]);
                assert(digits@.push(c) =~= (seq![c] + rest).reverse());
            }
            digits.push(c);
            proof {
                rest = seq![c] + rest;
            }
            break;
        }
        proof {
            assert(decimal(m as nat) == decimal((m / 10) as nat).push(c));
            assert(decimal((m / 10) as nat).push(c) + rest =~= decimal((m / 10) as nat) + (seq![c] + rest));
            assert(digits@.push(c) =~= (seq![c] + rest).reverse());
        }
        digits.push(c);
        proof {
            rest = seq![c] + rest;
        }
        m = m / 10;
    }
    let mut out = String::new();
    let mut k = digits.len();
    assert(rest.take(0) =~= Seq::<char>::empty());
    while k > 0
        invariant
            k <= digits@.len(),
            digits@ == rest.reverse(),
            decimal(n as nat) == rest,
            out@ == rest.take(rest.len() - k),
        decreases k,
    {
        k = k - 1;
        proof {
            assert(rest.take(rest.len() - k) =~= rest.take(rest.len() - (k + 1)).push(digits@[k as int]));
        }
        push_char(&mut out, digits[k]);
    }
    assert(rest.take(rest.len() as int) =~= rest);
    out
}

/// The `Debug` rendering of a string: quoted, with quotes, backslashes and
/// control or invisible characters escaped.
pub uninterp spec fn debug_quoted(s: Seq<char>) -> Seq<char>;

/// `format!("{s:?}")` for a `str`. Its result is only named.
#[verifier::external_body]
pub fn debug_string(s: &str) -> (r: String)
    ensures
        r@ == debug_quoted(s@),
{
    format!("{s:?}")
}

/// Whether the characters `a` spell `b`.
pub fn chars_eq(a: &Vec<char>, b: &str) -> (r: bool)
    ensures
        r == (a@ == b@),
{
    let bs = chars_of(b);
    if a.len() != bs.len() {
        return false;
    }
    let mut k: usize = 0;
    while k < a.len()
        invariant
            a@.len() == bs@.len(),
            bs@ == b@,
            k <= a@.len(),
            forall|i: int| 0 <= i < k ==> a@[i] == bs@[i],
        decreases a@.len() - k,
    {
        if a[k] != bs[k] {
            return false;
        }
        k = k + 1;
    }
    assert(a@ =~= bs@);
    true
}

/// ASCII lowercase of one character.
pub open spec fn lower(c: char) -> char {
    if 'A' <= c && c <= 'Z' {
        ((c as u8) + 32) as char
    } else {
        c
    }
}

/// ASCII lowercase of a character sequence.
pub open spec fn lower_seq(s: Seq<char>) -> Seq<char> {
    s.map_values(|c: char| lower(c))
}

/// `c.to_ascii_lowercase()`.
pub fn lower_char(c: char) -> (r: char)
    ensures
        r == lower(c),
{
    if 'A' <= c && c <= 'Z' {
        ((c as u8) + 32u8) as char
    } else {
        c
    }
}

/// ASCII lowercase of `a`.
pub fn lower_chars(a: &Vec<char>) -> (r: Vec<char>)
    ensures
        r@ == lower_seq(a@),
{
    let mut out: Vec<char> = Vec::new();
    let mut k: usize = 0;
    while k < a.len()
        invariant
            k <= a@.len(),
            out@ == lower_seq(a@.take(k as int)),
        decreases a@.len() - k,
    {
        out.push(lower_char(a[k]));
        assert(lower_seq(a@.take(k + 1)) =~= lower_seq(a@.take(k as int)).push(lower(a@[k as int])));
        k = k + 1;
    }
    assert(a@.take(a@.len() as int) =~= a@);
    out
}

/// `s` cut at every `sep`, as `str::split` cuts it: always at least one
/// part, empty parts kept.
pub open spec fn split_on(s: Seq<char>, sep: char) -> Seq<Seq<char>>
    decreases s.len(),
{
    let k = crate::logline::first_index_of(s, sep);
    if k >= s.len() {
        seq![s]
    } else {
        proof {
            crate::logline::lemma_first_index_of(s, sep);
        }
        seq![s.take(k)] + split_on(s.skip(k + 1), sep)
    }
}

/// The parts of `s` between occurrences of `sep`.
pub fn split_chars(s: &Vec<char>, sep: char) -> (r: Vec<Vec<char>>)
    ensures
        r@.map_values(|p: Vec<char>| p@) == split_on(s@, sep),
{
    let n = s.len();
    let mut parts: Vec<Vec<char>> = Vec::new();
    let mut cur: Vec<char> = Vec::new();
    let mut start: usize = 0;
    let mut k: usize = 0;
    assert(s@.skip(0) =~= s@);
    assert(parts@.map_values(|p: Vec<char>| p@) + split_on(s@, sep) =~= split_on(s@, sep));
    assert(cur@ =~= s@.subrange(0, 0));
    while k < n
        invariant
            n == s@.len(),
            start <= k <= n,
            cur@ == s@.subrange(start as int, k as int),
            forall|j: int| start <= j < k ==> s@[j] != sep,
            parts@.map_values(|p: Vec<char>| p@) + split_on(s@.skip(start as int), sep) == split_on(s@, sep),
        decreases n - k,
    {
        if s[k] == sep {
            proof {
                let t = s@.skip(start as int);
                crate::logline::lemma_first_index_of(t, sep);
                assert forall|j: int| 0 <= j < k - start implies t[j] != sep by {
                    assert(t[j] == s@[start + j]);
                }
                assert(t[k - start] == sep);
                assert(crate::logline::first_index_of(t, sep) == k - start);
                assert(t.take(k - start) =~= cur@);
                assert(t.skip(k - start + 1) =~= s@.skip(k + 1));
                assert(parts@.push(cur).map_values(|p: Vec<char>| p@) =~= parts@.map_values(|p: Vec<char>| p@).push(cur@));
                assert(split_on(t, sep) == seq![cur@] + split_on(s@.skip(k + 1), sep));
                assert(parts@.map_values(|p: Vec<char>| p@).push(cur@) + split_on(s@.skip(k + 1), sep)
                    =~= parts@.map_values(|p: Vec<char>| p@) + (seq![cur@] + split_on(s@.skip(k + 1), sep)));
            }
            parts.push(cur);
            cur = Vec::new();
            start = k + 1;
            assert(cur@ =~= s@.subrange(start as int, start as int));
        } else {
            cur.push(s[k]);
            assert(s@.subrange(start as int, k + 1) =~= s@.subrange(start as int, k as int).push(s@[k as int]));
        }
        k = k + 1;
    }
    proof {
        let t = s@.skip(start as int);
        crate::logline::lemma_first_index_of(t, sep);
        assert forall|j: int| 0 <= j < t.len() implies t[j] != sep by {
            assert(t[j] == s@[start + j]);
        }
        if crate::logline::first_index_of(t, sep) < t.len() {
            assert(t[crate::logline::first_index_of(t, sep)] != sep);
        }
        assert(t =~= cur@);
        assert(parts@.push(cur).map_values(|p: Vec<char>| p@) =~= parts@.map_values(|p: Vec<char>| p@) + seq![cur@]);
    }
    parts.push(cur);
    parts
}


/// `memchr::memchr`: the index of the first `needle` byte in `haystack`,
/// or `None` when there is none (as the crate documents).
#[verifier::external_body]
fn find_byte(needle: u8, haystack: &[u8]) -> (r: Option<usize>)
    ensures
        match r {
            Some(i) => i < haystack@.len() && haystack@[i as int] == needle && forall|j: int|
                0 <= j < i ==> haystack@[j] != needle,
            None => forall|j: int| 0 <= j < haystack@.len() ==> haystack@[j] != needle,
        },
{
    memchr::memchr(needle, haystack)
}

proof fn lemma_no_escape_byte(cs: Seq<char>)
    requires
        forall|j: int| 0 <= j < vstd::utf8::encode_utf8(cs).len() ==> #[trigger] vstd::utf8::encode_utf8(cs)[j] != 0x1bu8,
    ensures
        forall|i: int| 0 <= i < cs.len() ==> cs[i] != '\x1b',
    decreases cs.len(),
{
    if cs.len() > 0 {
        let head = vstd::utf8::encode_scalar(cs[0] as u32);
        let rest = vstd::utf8::encode_utf8(cs.drop_first());
        assert(vstd::utf8::encode_utf8(cs) == head + rest);
        if cs[0] == '\x1b' {
            assert(head[0] == 0x1bu8) by {
                let v = cs[0] as u32;
                assert(v == 0x1b);
                assert((v & 0x7F) as u8 == 0x1bu8) by (bit_vector)
                    requires
                        v == 0x1b,
                ;
            }
            assert((head + rest)[0] == 0x1bu8);
        }
        assert forall|j: int| 0 <= j < rest.len() implies rest[j] != 0x1bu8 by {
            assert((head + rest)[head.len() + j] == rest[j]);
        }
        lemma_no_escape_byte(cs.drop_first());
        assert forall|i: int| 0 <= i < cs.len() implies cs[i] != '\x1b' by {
            if i > 0 {
                assert(cs[i] == cs.drop_first()[i - 1]);
            }
        }
    }
}

proof fn lemma_stripped_plain(cs: Seq<char>, i: int)
    requires
        0 <= i <= cs.len(),
        forall|k: int| 0 <= k < cs.len() ==> cs[k] != '\x1b',
    ensures
        stripped_from(cs, i) == cs.skip(i),
    decreases cs.len() - i,
{
    if i < cs.len() {
        lemma_stripped_plain(cs, i + 1);
        assert(cs.skip(i) =~= seq![cs[i]] + cs.skip(i + 1));
    } else {
        assert(cs.skip(i) =~= Seq::<char>::empty());
    }
}

/// `s` without ANSI escapes, copied as it is when it holds no escape byte
/// (found with `memchr`).
pub fn strip_ansi_if_present(s: &str) -> (r: String)
    ensures
        r@ == stripped_from(s@, 0),
{
    let bytes = s.as_bytes();
    match find_byte(0x1b, bytes) {
        Some(_) => strip_ansi(s),
        None => {
            proof {
                lemma_no_escape_byte(s@);
                lemma_stripped_plain(s@, 0);
                assert(s@.skip(0) =~= s@);
            }
            s.to_owned()
        },
    }
}


/// Whether `needle` occurs in `hay` starting at `i`.
pub open spec fn occurs_at(hay: Seq<char>, needle: Seq<char>, i: int) -> bool {
    0 <= i && i + needle.len() <= hay.len() && hay.subrange(i, i + needle.len()) == needle
}

/// Whether `needle` occurs somewhere in `hay`.
pub open spec fn occurs_in(hay: Seq<char>, needle: Seq<char>) -> bool {
    exists|i: int| occurs_at(hay, needle, i)
}

fn matches_at(h: &Vec<char>, n: &Vec<char>, i: usize) -> (r: bool)
    requires
        i + n@.len() <= h@.len(),
    ensures
        r == (h@.subrange(i as int, i + n@.len()) == n@),
{
    let hl = h.len();
    let mut k: usize = 0;
    while k < n.len()
        invariant
            hl == h@.len(),
            i + n@.len() <= h@.len(),
            k <= n@.len(),
            forall|m: int| 0 <= m < k ==> h@[i + m] == n@[m],
        decreases n@.len() - k,
    {
        if h[i + k] != n[k] {
            assert(h@.subrange(i as int, i + n@.len())[k as int] != n@[k as int]);
            return false;
        }
        k = k + 1;
    }
    assert(h@.subrange(i as int, i + n@.len()) =~= n@);
    true
}

/// `hay.contains(needle)` for string slices.
pub fn contains_str(hay: &str, needle: &str) -> (r: bool)
    ensures
        r == occurs_in(hay@, needle@),
{
    let h = chars_of(hay);
    let n = chars_of(needle);
    let hl = h.len();
    let nl = n.len();
    if nl == 0 {
        assert(hay@.subrange(0, 0) =~= needle@);
        assert(occurs_at(hay@, needle@, 0));
        return true;
    }
    if nl > hl {
        return false;
    }
    let last = hl - nl;
    let mut i: usize = 0;
    while i <= last
        invariant
            h@ == hay@,
            n@ == needle@,
            hl == h@.len(),
            nl == n@.len(),
            1 <= nl <= hl,
            last == hl - nl,
            i <= last + 1,
            forall|j: int| 0 <= j < i ==> !occurs_at(hay@, needle@, j),
        decreases last + 1 - i,
    {
        if matches_at(&h, &n, i) {
            assert(occurs_at(hay@, needle@, i as int));
            return true;
        }
        i = i + 1;
    }
    assert forall|j: int| !occurs_at(hay@, needle@, j) by {
        if 0 <= j && j + needle@.len() <= hay@.len() {
            assert(j < i);
        }
    }
    false
}
/// How many leading characters of `cs` are whitespace.
pub fn lead_ws_len(cs: &Vec<char>) -> (r: usize)
    ensures
        r == lead_ws(cs@),
        r <= cs@.len(),
{
    proof {
        lemma_lead_ws(cs@);
    }
    let n = cs.len();
    let mut a: usize = 0;
    while a < n && is_whitespace(cs[a])
        invariant
            n == cs@.len(),
            a <= n,
            a <= lead_ws(cs@),
        decreases n - a,
    {
        proof {
            lemma_lead_ws_step(cs@, a as int);
        }
        a = a + 1;
    }
    if a < n {
        proof {
            lemma_lead_ws_stop(cs@, a as int);
        }
    }
    a
}

} // verus!
