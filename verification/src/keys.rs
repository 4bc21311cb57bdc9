//! Key chords as configuration spells them: a single character (`g`, `G`,
//! `/`), a named key (`enter`, `pagedown`, `f5`), or modifiers and a key
//! joined by `-` (`ctrl-g`, `alt-x`, `shift-tab`, `ctrl-f2`). Modifier and
//! key names are case-insensitive; a single character keeps its case.

use crate::text::{
    chars_eq, chars_of, decimal, decimal_string, lower, lower_char, lower_chars, lower_seq,
    push_char, split_chars, split_on,
};
use vstd::prelude::*;
use vstd::string::StringExecFns;

verus! {

/// A key, without modifiers.
#[derive(Clone, Copy, Debug, PartialEq, Eq, Structural)]
pub enum KeyCode {
    Char(char),
    F(u8),
    Enter,
    Esc,
    Tab,
    BackTab,
    Backspace,
    Delete,
    Insert,
    Home,
    End,
    PageUp,
    PageDown,
    Up,
    Down,
    Left,
    Right,
}

/// A key with its modifiers.
#[derive(Clone, Copy, Debug, PartialEq, Eq, Structural)]
pub struct KeyChord {
    pub code: KeyCode,
    pub ctrl: bool,
    pub alt: bool,
    pub shift: bool,
}

/// The key a (lowercased) name stands for, when it names one.
pub open spec fn named_key(l: Seq<char>) -> Option<KeyCode> {
    if l == "enter"@ || l == "return"@ {
        Some(KeyCode::Enter)
    } else if l == "esc"@ || l == "escape"@ {
        Some(KeyCode::Esc)
    } else if l == "tab"@ {
        Some(KeyCode::Tab)
    } else if l == "backtab"@ {
        Some(KeyCode::BackTab)
    } else if l == "backspace"@ {
        Some(KeyCode::Backspace)
    } else if l == "delete"@ || l == "del"@ {
        Some(KeyCode::Delete)
    } else if l == "insert"@ || l == "ins"@ {
        Some(KeyCode::Insert)
    } else if l == "home"@ {
        Some(KeyCode::Home)
    } else if l == "end"@ {
        Some(KeyCode::End)
    } else if l == "pageup"@ || l == "pgup"@ {
        Some(KeyCode::PageUp)
    } else if l == "pagedown"@ || l == "pgdn"@ {
        Some(KeyCode::PageDown)
    } else if l == "up"@ {
        Some(KeyCode::Up)
    } else if l == "down"@ {
        Some(KeyCode::Down)
    } else if l == "left"@ {
        Some(KeyCode::Left)
    } else if l == "right"@ {
        Some(KeyCode::Right)
    } else if l == "space"@ {
        Some(KeyCode::Char(' '))
    } else {
        function_key(l)
    }
}

/// Value of an ASCII digit.
pub open spec fn digit_value(c: char) -> int {
    c as int - 48
}

/// `f1` through `f24`.
pub open spec fn function_key(l: Seq<char>) -> Option<KeyCode> {
    if l.len() == 2 && l[0] == 'f' && '1' <= l[1] && l[1] <= '9' {
        Some(KeyCode::F(digit_value(l[1]) as u8))
    } else if l.len() == 3 && l[0] == 'f' && '1' <= l[1] && l[1] <= '2' && '0' <= l[2] && l[2] <= '9'
        && 10 * digit_value(l[1]) + digit_value(l[2]) <= 24 {
        Some(KeyCode::F((10 * digit_value(l[1]) + digit_value(l[2])) as u8))
    } else {
        None
    }
}

/// The key a chord's last part names: one character as written, or a key
/// name in any case.
pub open spec fn key_part(t: Seq<char>) -> Option<KeyCode> {
    if t.len() == 1 {
        Some(KeyCode::Char(t[0]))
    } else {
        named_key(lower_seq(t))
    }
}

/// Modifiers `(ctrl, alt, shift)` that the parts of `ms` name, when each
/// part names one (`ctrl` or `control`, `alt`, `shift`, in any case).
pub open spec fn modifiers(ms: Seq<Seq<char>>) -> Option<(bool, bool, bool)>
    decreases ms.len(),
{
    if ms.len() == 0 {
        Some((false, false, false))
    } else {
        match modifiers(ms.drop_last()) {
            None => None,
            Some((c, a, s)) => {
                let l = lower_seq(ms.last());
                if l == "ctrl"@ || l == "control"@ {
                    Some((true, a, s))
                } else if l == "alt"@ {
                    Some((c, true, s))
                } else if l == "shift"@ {
                    Some((c, a, true))
                } else {
                    None
                }
            },
        }
    }
}

/// The chord `s` spells, or `None` when it spells none.
pub open spec fn chord_of(s: Seq<char>) -> Option<KeyChord> {
    if s.len() == 1 {
        Some(KeyChord { code: KeyCode::Char(s[0]), ctrl: false, alt: false, shift: false })
    } else {
        let parts = split_on(s, '-');
        if exists|i: int| 0 <= i < parts.len() && #[trigger] parts[i].len() == 0 {
            None
        } else {
            match (modifiers(parts.drop_last()), key_part(parts.last())) {
                (Some((c, a, sh)), Some(code)) => Some(KeyChord { code, ctrl: c, alt: a, shift: sh }),
                _ => None,
            }
        }
    }
}

/// The message for a string that spells no chord.
pub open spec fn chord_error(s: Seq<char>) -> Seq<char> {
    "unrecognized key chord '"@ + s + "'"@
}

fn named_key_of(l: &Vec<char>) -> (r: Option<KeyCode>)
    ensures
        r == named_key(l@),
{
    if chars_eq(l, "enter") || chars_eq(l, "return") {
        Some(KeyCode::Enter)
    } else if chars_eq(l, "esc") || chars_eq(l, "escape") {
        Some(KeyCode::Esc)
    } else if chars_eq(l, "tab") {
        Some(KeyCode::Tab)
    } else if chars_eq(l, "backtab") {
        Some(KeyCode::BackTab)
    } else if chars_eq(l, "backspace") {
        Some(KeyCode::Backspace)
    } else if chars_eq(l, "delete") || chars_eq(l, "del") {
        Some(KeyCode::Delete)
    } else if chars_eq(l, "insert") || chars_eq(l, "ins") {
        Some(KeyCode::Insert)
    } else if chars_eq(l, "home") {
        Some(KeyCode::Home)
    } else if chars_eq(l, "end") {
        Some(KeyCode::End)
    } else if chars_eq(l, "pageup") || chars_eq(l, "pgup") {
        Some(KeyCode::PageUp)
    } else if chars_eq(l, "pagedown") || chars_eq(l, "pgdn") {
        Some(KeyCode::PageDown)
    } else if chars_eq(l, "up") {
        Some(KeyCode::Up)
    } else if chars_eq(l, "down") {
        Some(KeyCode::Down)
    } else if chars_eq(l, "left") {
        Some(KeyCode::Left)
    } else if chars_eq(l, "right") {
        Some(KeyCode::Right)
    } else if chars_eq(l, "space") {
        Some(KeyCode::Char(' '))
    } else if l.len() == 2 && l[0] == 'f' && '1' <= l[1] && l[1] <= '9' {
        Some(KeyCode::F(((l[1] as u32) - 48) as u8))
    } else if l.len() == 3 && l[0] == 'f' && '1' <= l[1] && l[1] <= '2' && '0' <= l[2] && l[2] <= '9'
        && 10 * ((l[1] as u32) - 48) + ((l[2] as u32) - 48) <= 24 {
        Some(KeyCode::F((10 * ((l[1] as u32) - 48) + ((l[2] as u32) - 48)) as u8))
    } else {
        None
    }
}

impl KeyChord {
    /// Parse a chord as configuration writes it (see the module
    /// documentation); the error names the offending text.
    pub fn parse(s: &str) -> (r: Result<KeyChord, String>)
        ensures
            match chord_of(s@) {
                Some(k) => r == Ok::<KeyChord, String>(k),
                None => r matches Err(e) && e@ == chord_error(s@),
            },
    {
        let cs = chars_of(s);
        if cs.len() == 1 {
            return Ok(KeyChord { code: KeyCode::Char(cs[0]), ctrl: false, alt: false, shift: false });
        }
        let parts = split_chars(&cs, '-');
        let ghost sp = split_on(s@, '-');
        assert(parts@.len() == sp.len());
        assert(forall|i: int| 0 <= i < parts@.len() ==> #[trigger] parts@[i]@ == sp[i]) by {
            assert forall|i: int| 0 <= i < parts@.len() implies #[trigger] parts@[i]@ == sp[i] by {
                assert(parts@.map_values(|p: Vec<char>| p@)[i] == parts@[i]@);
            }
        }
        let np = parts.len();
        let mut k: usize = 0;
        while k < np
            invariant
                s@.len() != 1,
                sp == split_on(s@, '-'),
                np == parts@.len(),
                np == sp.len(),
                forall|i: int| 0 <= i < np ==> #[trigger] parts@[i]@ == sp[i],
                k <= np,
                forall|i: int| 0 <= i < k ==> #[trigger] sp[i].len() != 0,
            decreases np - k,
        {
            if parts[k].len() == 0 {
                assert(sp[k as int].len() == 0);
                assert(s@.len() != 1);
                assert(exists|i: int| 0 <= i < sp.len() && #[trigger] sp[i].len() == 0);
                assert(chord_of(s@) is None);
                return Err(chord_error_string(s));
            }
            k = k + 1;
        }
        assert(np >= 1) by {
            lemma_split_nonempty(s@, '-');
        }
        assert(sp.take(0) =~= Seq::<Seq<char>>::empty());
        let mut ctrl = false;
        let mut alt = false;
        let mut shift = false;
        let mut m: usize = 0;
        while m + 1 < np
            invariant
                s@.len() != 1,
                sp == split_on(s@, '-'),
                forall|i: int| 0 <= i < np ==> #[trigger] sp[i].len() != 0,
                np == parts@.len(),
                np == sp.len(),
                np >= 1,
                forall|i: int| 0 <= i < np ==> #[trigger] parts@[i]@ == sp[i],
                m + 1 <= np,
                modifiers(sp.take(m as int)) == Some((ctrl, alt, shift)),
            decreases np - m,
        {
            let l = lower_chars(&parts[m]);
            assert(sp.take(m + 1).drop_last() =~= sp.take(m as int));
            assert(sp.take(m + 1).last() == sp[m as int]);
            if chars_eq(&l, "ctrl") || chars_eq(&l, "control") {
                ctrl = true;
            } else if chars_eq(&l, "alt") {
                alt = true;
            } else if chars_eq(&l, "shift") {
                shift = true;
            } else {
                proof {
                    lemma_modifiers_none(sp.drop_last(), m as int);
                    assert(sp.drop_last().take(m + 1) =~= sp.take(m + 1));
                }
                return Err(chord_error_string(s));
            }
            m = m + 1;
        }
        assert(sp.take(m as int) =~= sp.drop_last());
        let last = &parts[np - 1];
        assert(last@ == sp.last());
        assert(s@.len() != 1);
        assert(!exists|i: int| 0 <= i < sp.len() && #[trigger] sp[i].len() == 0);
        let code = if last.len() == 1 {
            KeyCode::Char(last[0])
        } else {
            let l = lower_chars(last);
            match named_key_of(&l) {
                Some(c) => c,
                None => {
                    return Err(chord_error_string(s));
                },
            }
        };
        Ok(KeyChord { code, ctrl, alt, shift })
    }
}

proof fn lemma_split_nonempty(s: Seq<char>, sep: char)
    ensures
        split_on(s, sep).len() >= 1,
    decreases s.len(),
{
    let k = crate::logline::first_index_of(s, sep);
    crate::logline::lemma_first_index_of(s, sep);
    if k < s.len() {
        lemma_split_nonempty(s.skip(k + 1), sep);
    }
}

proof fn lemma_modifiers_none(ms: Seq<Seq<char>>, m: int)
    requires
        0 <= m < ms.len(),
        modifiers(ms.take(m + 1)) is None,
    ensures
        modifiers(ms) is None,
    decreases ms.len(),
{
    if ms.len() > m + 1 {
        assert(ms.drop_last().take(m + 1) =~= ms.take(m + 1));
        lemma_modifiers_none(ms.drop_last(), m);
    } else {
        assert(ms.take(m + 1) =~= ms);
    }
}

fn chord_error_string(s: &str) -> (r: String)
    ensures
        r@ == chord_error(s@),
{
    let mut e = String::from_str("unrecognized key chord '");
    e.append(s);
    e.append("'");
    e
}

/// A key as the terminal reports it: the key and the modifiers held.
#[derive(Clone, Copy, Debug, PartialEq, Eq, Structural)]
pub struct KeyPress {
    pub code: KeyCode,
    pub ctrl: bool,
    pub alt: bool,
    pub shift: bool,
}

/// An ASCII letter.
pub open spec fn is_letter(c: char) -> bool {
    ('a' <= c && c <= 'z') || ('A' <= c && c <= 'Z')
}

/// What a key with modifiers amounts to once spellings are folded together:
/// an upper-case letter is its lower-case letter with Shift (Shift is not
/// told apart under Ctrl), Shift means nothing to other characters, and
/// BackTab is Shift with Tab.
pub open spec fn identity(code: KeyCode, ctrl: bool, alt: bool, shift: bool) -> (KeyCode, bool, bool, bool) {
    match code {
        KeyCode::Char(c) => if is_letter(c) {
            (KeyCode::Char(lower(c)), ctrl, alt, !ctrl && (shift || ('A' <= c && c <= 'Z')))
        } else {
            (KeyCode::Char(c), ctrl, alt, false)
        },
        KeyCode::BackTab => (KeyCode::Tab, ctrl, alt, true),
        _ => (code, ctrl, alt, shift),
    }
}

/// The identity of a chord.
pub open spec fn chord_identity(k: KeyChord) -> (KeyCode, bool, bool, bool) {
    identity(k.code, k.ctrl, k.alt, k.shift)
}

/// The identity of a key press.
pub open spec fn press_identity(k: KeyPress) -> (KeyCode, bool, bool, bool) {
    identity(k.code, k.ctrl, k.alt, k.shift)
}

/// Whether two chords stand for the same key press.
pub open spec fn chords_overlap(a: KeyChord, b: KeyChord) -> bool {
    chord_identity(a) == chord_identity(b)
}

/// The name a label gives a key.
pub open spec fn key_name(code: KeyCode) -> Seq<char> {
    match code {
        KeyCode::Char(c) => if c == ' ' { "space"@ } else { seq![c] },
        KeyCode::F(n) => "f"@ + decimal(n as nat),
        KeyCode::Enter => "enter"@,
        KeyCode::Esc => "esc"@,
        KeyCode::Tab => "tab"@,
        KeyCode::BackTab => "backtab"@,
        KeyCode::Backspace => "backspace"@,
        KeyCode::Delete => "delete"@,
        KeyCode::Insert => "insert"@,
        KeyCode::Home => "home"@,
        KeyCode::End => "end"@,
        KeyCode::PageUp => "pageup"@,
        KeyCode::PageDown => "pagedown"@,
        KeyCode::Up => "up"@,
        KeyCode::Down => "down"@,
        KeyCode::Left => "left"@,
        KeyCode::Right => "right"@,
    }
}

/// A chord as help and hints show it: `ctrl-`, `alt-`, `shift-` as held,
/// then the key's name.
pub open spec fn chord_label(k: KeyChord) -> Seq<char> {
    (if k.ctrl { "ctrl-"@ } else { Seq::empty() }) + (if k.alt { "alt-"@ } else { Seq::empty() })
        + (if k.shift { "shift-"@ } else { Seq::empty() }) + key_name(k.code)
}

fn identity_of(code: KeyCode, ctrl: bool, alt: bool, shift: bool) -> (r: (KeyCode, bool, bool, bool))
    ensures
        r == identity(code, ctrl, alt, shift),
{
    match code {
        KeyCode::Char(c) => {
            if ('a' <= c && c <= 'z') || ('A' <= c && c <= 'Z') {
                (KeyCode::Char(lower_char(c)), ctrl, alt, !ctrl && (shift || ('A' <= c && c <= 'Z')))
            } else {
                (KeyCode::Char(c), ctrl, alt, false)
            }
        },
        KeyCode::BackTab => (KeyCode::Tab, ctrl, alt, true),
        _ => (code, ctrl, alt, shift),
    }
}

fn same_identity(a: (KeyCode, bool, bool, bool), b: (KeyCode, bool, bool, bool)) -> (r: bool)
    ensures
        r == (a == b),
{
    a.0 == b.0 && a.1 == b.1 && a.2 == b.2 && a.3 == b.3
}

/// Whether chords `a` and `b` stand for the same key press, however they
/// are spelled.
pub fn overlaps(a: &KeyChord, b: &KeyChord) -> (r: bool)
    ensures
        r == chords_overlap(*a, *b),
{
    same_identity(identity_of(a.code, a.ctrl, a.alt, a.shift), identity_of(b.code, b.ctrl, b.alt, b.shift))
}

fn key_name_string(code: KeyCode) -> (r: String)
    ensures
        r@ == key_name(code),
{
    match code {
        KeyCode::Char(c) => {
            if c == ' ' {
                String::from_str("space")
            } else {
                let mut s = String::new();
                push_char(&mut s, c);
                assert(s@ =~= seq![c]);
                s
            }
        },
        KeyCode::F(n) => {
            let mut s = String::from_str("f");
            let d = decimal_string(n as u64);
            s.append(d.as_str());
            s
        },
        KeyCode::Enter => String::from_str("enter"),
        KeyCode::Esc => String::from_str("esc"),
        KeyCode::Tab => String::from_str("tab"),
        KeyCode::BackTab => String::from_str("backtab"),
        KeyCode::Backspace => String::from_str("backspace"),
        KeyCode::Delete => String::from_str("delete"),
        KeyCode::Insert => String::from_str("insert"),
        KeyCode::Home => String::from_str("home"),
        KeyCode::End => String::from_str("end"),
        KeyCode::PageUp => String::from_str("pageup"),
        KeyCode::PageDown => String::from_str("pagedown"),
        KeyCode::Up => String::from_str("up"),
        KeyCode::Down => String::from_str("down"),
        KeyCode::Left => String::from_str("left"),
        KeyCode::Right => String::from_str("right"),
    }
}

impl KeyChord {
    /// Whether `key` is this chord, however either is spelled.
    pub fn matches(&self, key: &KeyPress) -> (r: bool)
        ensures
            r == (chord_identity(*self) == press_identity(*key)),
    {
        same_identity(
            identity_of(self.code, self.ctrl, self.alt, self.shift),
            identity_of(key.code, key.ctrl, key.alt, key.shift),
        )
    }

    /// The chord as help and hints show it.
    pub fn label(&self) -> (r: String)
        ensures
            r@ == chord_label(*self),
    {
        let mut s = String::new();
        if self.ctrl {
            s.append("ctrl-");
        }
        if self.alt {
            s.append("alt-");
        }
        if self.shift {
            s.append("shift-");
        }
        let name = key_name_string(self.code);
        s.append(name.as_str());
        assert(s@ =~= chord_label(*self));
        s
    }
}

} // verus!
