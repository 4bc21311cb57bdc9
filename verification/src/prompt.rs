//! The one-line prompt: what accepting the typed text does, for each kind
//! of prompt. The decision is made here; carrying it out (scaling, starting
//! a port-forward, copying files) is left to the caller.

use crate::config::{digits_value, is_digit};
use crate::session::Mode;
use crate::text::{chars_of, string_from, trim_chars, trimmed};
use vstd::prelude::*;
use vstd::string::StringExecFns;

verus! {

/// What a prompt asks for.
#[derive(Clone, Debug, PartialEq, Eq)]
pub enum PromptKind {
    /// A replica count for the selected workloads.
    Scale,
    /// Ports to forward.
    PortForward,
    /// The local port for a forward of `remote`.
    PortForwardLocal { remote: String },
    /// A container image.
    SetImage,
    /// A debug container image.
    Debug,
    /// A path for a copy to or from `pod`; `src` is the path already given
    /// for the other end, if any.
    Transfer { pod: String, upload: bool, src: Option<String> },
    /// A log lookback.
    LogLookback,
    /// The text a guardrail asks to be typed back.
    GuardConfirm { expected: String },
    /// A new name for the context `old`.
    RenameContext { old: String },
}

/// What accepting a prompt does.
#[derive(Clone, Debug, PartialEq, Eq)]
pub enum PromptOutcome {
    /// The prompt stays open, with a warning when there is one.
    Stay(Option<String>),
    /// The prompt closes with a warning and does nothing else.
    Warn(String),
    /// Scale to this many replicas.
    Scale(i32),
    /// Forward these ports.
    Forward(String),
    /// Forward with this `local:remote` mapping.
    ForwardLocal(String),
    /// Set this image.
    SetImage(String),
    /// Debug with this image.
    Debug(String),
    /// Ask for the other end of a copy: a new prompt with this label and
    /// text, remembering the first path.
    NextTransfer { label: String, input: String, src: String },
    /// Copy from `src` to `dest`.
    Transfer { src: String, dest: String },
    /// Apply this lookback.
    Lookback(String),
    /// The guardrail was answered: run the guarded action.
    Confirmed,
    /// Rename the context `old` to `new`.
    Rename { old: String, new: String },
    /// Close the prompt and do nothing.
    Nothing,
}

/// The value of `d` when it is one or more ASCII digits worth at most `max`.
pub open spec fn digits_upto(d: Seq<char>, max: int) -> Option<int> {
    if d.len() > 0 && (forall|i: int| 0 <= i < d.len() ==> is_digit(#[trigger] d[i])) && digits_value(d) <= max {
        Some(digits_value(d))
    } else {
        None
    }
}

/// What `str::parse::<u16>` gives for `t`.
pub open spec fn u16_of(t: Seq<char>) -> Option<int> {
    if t.len() > 0 && t[0] == '+' {
        digits_upto(t.skip(1), 65535)
    } else {
        digits_upto(t, 65535)
    }
}

/// What `str::parse::<i32>` gives for `t`.
pub open spec fn i32_of(t: Seq<char>) -> Option<int> {
    if t.len() > 0 && t[0] == '-' {
        match digits_upto(t.skip(1), 2147483648) {
            Some(v) => Some(-v),
            None => None,
        }
    } else if t.len() > 0 && t[0] == '+' {
        digits_upto(t.skip(1), 2147483647)
    } else {
        digits_upto(t, 2147483647)
    }
}

/// The value of `t[start..]` when it is one or more ASCII digits worth at
/// most `max` (see `digits_upto`).
fn parse_digits(t: &Vec<char>, start: usize, max: u64) -> (r: Option<u64>)
    requires
        max < 0x1_0000_0000,
        start <= t@.len(),
    ensures
        match digits_upto(t@.skip(start as int), max as int) {
            Some(v) => r matches Some(x) && x as int == v,
            None => r is None,
        },
{
    let n = t.len();
    let ghost d = t@.skip(start as int);
    if start >= n {
        assert(d.len() == 0);
        return None;
    }
    let mut value: u64 = 0;
    let mut big = false;
    let mut k: usize = start;
    while k < n
        invariant
            n == t@.len(),
            start <= k <= n,
            start < n,
            max < 0x1_0000_0000,
            d == t@.skip(start as int),
            forall|i: int| 0 <= i < k - start ==> is_digit(#[trigger] d[i]),
            !big ==> value == digits_value(d.take(k - start)) && value <= max,
            big ==> digits_value(d.take(k - start)) > max,
        decreases n - k,
    {
        let c = t[k];
        if !('0' <= c && c <= '9') {
            assert(d[k - start] == c);
            assert(!is_digit(d[k - start]));
            return None;
        }
        proof {
            assert(d.take(k - start + 1).drop_last() =~= d.take(k - start));
            assert(d.take(k - start + 1).last() == c);
        }
        if !big {
            let next = value * 10 + ((c as u32) - 48) as u64;
            if next > max {
                big = true;
            } else {
                value = next;
            }
        }
        k = k + 1;
    }
    assert(d.take(n - start) =~= d);
    if big {
        None
    } else {
        Some(value)
    }
}

/// `str::parse::<u16>` (see `u16_of`).
pub fn parse_port(t: &Vec<char>) -> (r: Option<u16>)
    ensures
        match u16_of(t@) {
            Some(v) => r matches Some(x) && x as int == v,
            None => r is None,
        },
{
    let start: usize = if t.len() > 0 && t[0] == '+' { 1 } else { 0 };
    assert(t@.skip(0) =~= t@);
    match parse_digits(t, start, 65535) {
        Some(v) => Some(v as u16),
        None => None,
    }
}

/// `str::parse::<i32>` (see `i32_of`).
pub fn parse_count(t: &Vec<char>) -> (r: Option<i32>)
    ensures
        match i32_of(t@) {
            Some(v) => r matches Some(x) && x as int == v,
            None => r is None,
        },
{
    assert(t@.skip(0) =~= t@);
    if t.len() > 0 && t[0] == '-' {
        match parse_digits(t, 1, 2147483648) {
            Some(v) => {
                if v == 2147483648 {
                    Some(-2147483647i32 - 1)
                } else {
                    Some(-(v as i32))
                }
            },
            None => None,
        }
    } else {
        let start: usize = if t.len() > 0 && t[0] == '+' { 1 } else { 0 };
        match parse_digits(t, start, 2147483647) {
            Some(v) => Some(v as i32),
            None => None,
        }
    }
}

/// The last `/`-separated piece of `s` (all of `s` when it has no `/`).
pub open spec fn last_piece(s: Seq<char>) -> Seq<char>
    decreases s.len(),
{
    if s.len() == 0 {
        s
    } else if s.last() == '/' {
        Seq::empty()
    } else {
        last_piece(s.drop_last()).push(s.last())
    }
}

fn last_piece_of(cs: &Vec<char>) -> (r: String)
    ensures
        r@ == last_piece(cs@),
{
    let n = cs.len();
    let mut k: usize = n;
    assert(cs@.take(n as int) =~= cs@);
    assert(last_piece(cs@) + cs@.subrange(n as int, n as int) =~= last_piece(cs@));
    while k > 0 && cs[k - 1] != '/'
        invariant
            k <= n,
            n == cs@.len(),
            last_piece(cs@) == last_piece(cs@.take(k as int)) + cs@.subrange(k as int, n as int),
        decreases k,
    {
        proof {
            let p = cs@.take(k as int);
            assert(p.drop_last() =~= cs@.take(k - 1));
            assert(p.last() == cs@[k - 1]);
            assert(last_piece(cs@.take(k - 1)) + cs@.subrange(k - 1, n as int) =~= last_piece(cs@.take(k - 1)).push(
                cs@[k - 1],
            ) + cs@.subrange(k as int, n as int));
        }
        k = k - 1;
    }
    proof {
        if k > 0 {
            assert(cs@.take(k as int).last() == '/');
        }
        assert(last_piece(cs@.take(k as int)) =~= Seq::<char>::empty());
    }
    let r = crate::logs::subrange_string(cs, k, n);
    assert(r@ =~= Seq::<char>::empty() + cs@.subrange(k as int, n as int));
    r
}

/// The label of the prompt for the other end of a copy whose first path is
/// `input`.
pub open spec fn transfer_label(pod: Seq<char>, upload: bool, input: Seq<char>) -> Seq<char> {
    if upload {
        "Upload "@ + input + " to "@ + pod + " — remote path:"@
    } else {
        "Download "@ + pod + ":"@ + input + " — local path:"@
    }
}

/// What accepting the prompt `kind` with the typed text `input` does, the
/// text taken without surrounding whitespace. `port_available` says whether
/// the local port a forward asks for is free; a local-port prompt needs a
/// port from 1 to 65535. Empty text cancels a lookback or a rename and is
/// refused, with a warning, where a value is needed.
pub fn prompt_accept(kind: &Option<PromptKind>, input: &str, port_available: bool) -> (r: PromptOutcome)
    ensures
        ({
            let t = trimmed(input@);
            match *kind {
                Some(PromptKind::PortForwardLocal { remote }) => if !(u16_of(t) matches Some(p) && p > 0) {
                    r matches PromptOutcome::Stay(Some(m)) && m@ == "local port must be a number from 1 to 65535"@
                } else if !port_available {
                    r == PromptOutcome::Stay(None)
                } else {
                    r matches PromptOutcome::ForwardLocal(s) && s@ == t + ":"@ + remote@
                },
                Some(PromptKind::PortForward) => if !port_available {
                    r == PromptOutcome::Stay(None)
                } else if t.len() == 0 {
                    r matches PromptOutcome::Warn(m) && m@ == "no ports given"@
                } else {
                    r matches PromptOutcome::Forward(s) && s@ == t
                },
                Some(PromptKind::Scale) => match i32_of(t) {
                    Some(n) => if n >= 0 {
                        r matches PromptOutcome::Scale(x) && x as int == n
                    } else {
                        r matches PromptOutcome::Warn(m) && m@ == "invalid replica count"@
                    },
                    None => r matches PromptOutcome::Warn(m) && m@ == "invalid replica count"@,
                },
                Some(PromptKind::SetImage) => if t.len() == 0 {
                    r matches PromptOutcome::Warn(m) && m@ == "no image given"@
                } else {
                    r matches PromptOutcome::SetImage(s) && s@ == t
                },
                Some(PromptKind::Debug) => if t.len() == 0 {
                    r matches PromptOutcome::Warn(m) && m@ == "no debug image given"@
                } else {
                    r matches PromptOutcome::Debug(s) && s@ == t
                },
                Some(PromptKind::Transfer { pod, upload, src }) => if t.len() == 0 {
                    r matches PromptOutcome::Warn(m) && m@ == "no path given — transfer cancelled"@
                } else {
                    match src {
                        None => r matches PromptOutcome::NextTransfer { label, input: next, src: first }
                            && label@ == transfer_label(pod@, upload, t)
                            && next@ == (if upload { Seq::<char>::empty() } else { last_piece(t) })
                            && first@ == t,
                        Some(s) => r matches PromptOutcome::Transfer { src: from, dest } && from@ == s@ && dest@ == t,
                    }
                },
                Some(PromptKind::LogLookback) => if t.len() == 0 {
                    r == PromptOutcome::Nothing
                } else {
                    r matches PromptOutcome::Lookback(s) && s@ == t
                },
                Some(PromptKind::GuardConfirm { expected }) => if t == expected@ {
                    r == PromptOutcome::Confirmed
                } else {
                    r matches PromptOutcome::Warn(m) && m@ == "guardrail: input did not match — cancelled"@
                },
                Some(PromptKind::RenameContext { old }) => if t.len() == 0 {
                    r == PromptOutcome::Nothing
                } else {
                    r matches PromptOutcome::Rename { old: o, new } && o@ == old@ && new@ == t
                },
                None => r == PromptOutcome::Nothing,
            }
        }),
{
    let tc = trim_chars(input);
    let t = string_from(&tc);
    let empty = tc.len() == 0;
    match kind {
        Some(PromptKind::PortForwardLocal { remote }) => {
            let ok = match parse_port(&tc) {
                Some(p) => p > 0,
                None => false,
            };
            if !ok {
                return PromptOutcome::Stay(Some(String::from_str("local port must be a number from 1 to 65535")));
            }
            if !port_available {
                return PromptOutcome::Stay(None);
            }
            let mut s = t;
            s.append(":");
            s.append(remote.as_str());
            PromptOutcome::ForwardLocal(s)
        },
        Some(PromptKind::PortForward) => {
            if !port_available {
                PromptOutcome::Stay(None)
            } else if empty {
                PromptOutcome::Warn(String::from_str("no ports given"))
            } else {
                PromptOutcome::Forward(t)
            }
        },
        Some(PromptKind::Scale) => match parse_count(&tc) {
            Some(n) => if n >= 0 {
                PromptOutcome::Scale(n)
            } else {
                PromptOutcome::Warn(String::from_str("invalid replica count"))
            },
            None => PromptOutcome::Warn(String::from_str("invalid replica count")),
        },
        Some(PromptKind::SetImage) => if empty {
            PromptOutcome::Warn(String::from_str("no image given"))
        } else {
            PromptOutcome::SetImage(t)
        },
        Some(PromptKind::Debug) => if empty {
            PromptOutcome::Warn(String::from_str("no debug image given"))
        } else {
            PromptOutcome::Debug(t)
        },
        Some(PromptKind::Transfer { pod, upload, src }) => {
            if empty {
                return PromptOutcome::Warn(String::from_str("no path given — transfer cancelled"));
            }
            match src {
                None => {
                    let mut label = String::new();
                    if *upload {
                        label.append("Upload ");
                        label.append(t.as_str());
                        label.append(" to ");
                        label.append(pod.as_str());
                        label.append(" — remote path:");
                    } else {
                        label.append("Download ");
                        label.append(pod.as_str());
                        label.append(":");
                        label.append(t.as_str());
                        label.append(" — local path:");
                    }
                    let next = if *upload {
                        String::new()
                    } else {
                        last_piece_of(&tc)
                    };
                    PromptOutcome::NextTransfer { label, input: next, src: t }
                },
                Some(s) => PromptOutcome::Transfer { src: s.clone(), dest: t },
            }
        },
        Some(PromptKind::LogLookback) => if empty {
            PromptOutcome::Nothing
        } else {
            PromptOutcome::Lookback(t)
        },
        Some(PromptKind::GuardConfirm { expected }) => {
            if crate::config::same_text(&t, expected.as_str()) {
                PromptOutcome::Confirmed
            } else {
                PromptOutcome::Warn(String::from_str("guardrail: input did not match — cancelled"))
            }
        },
        Some(PromptKind::RenameContext { old }) => if empty {
            PromptOutcome::Nothing
        } else {
            PromptOutcome::Rename { old: old.clone(), new: t }
        },
        None => PromptOutcome::Nothing,
    }
}

/// The screen that cancelling a prompt returns to: the port-forward picker
/// for a local port, else the view the prompt was opened over (the logs,
/// the contexts, the PVC explorer), else the table.
pub open spec fn back_mode_of(kind: Option<PromptKind>, over_logs: bool, over_contexts: bool, over_pvc: bool) -> Mode {
    if kind matches Some(PromptKind::PortForwardLocal { .. }) {
        Mode::PortForwardPicker
    } else if over_logs {
        Mode::Logs
    } else if over_contexts {
        Mode::Contexts
    } else if over_pvc {
        Mode::PvcExplore
    } else {
        Mode::Table
    }
}

/// The screen that cancelling a prompt returns to (see `back_mode_of`).
pub fn back_mode(kind: &Option<PromptKind>, over_logs: bool, over_contexts: bool, over_pvc: bool) -> (r: Mode)
    ensures
        r == back_mode_of(*kind, over_logs, over_contexts, over_pvc),
{
    if let Some(PromptKind::PortForwardLocal { .. }) = kind {
        Mode::PortForwardPicker
    } else if over_logs {
        Mode::Logs
    } else if over_contexts {
        Mode::Contexts
    } else if over_pvc {
        Mode::PvcExplore
    } else {
        Mode::Table
    }
}

} // verus!
