//! Reading log lines: readiness cells, leading timestamps and `[source]`
//! prefixes.

use vstd::prelude::*;
use vstd::string::StringSliceAdditionalSpecFns;

verus! {

/// Index of the first `c` in `s`, or `s.len()` when there is none.
pub open spec fn first_index_of<T>(s: Seq<T>, c: T) -> int
    decreases s.len(),
{
    if s.len() == 0 {
        0
    } else if s[0] == c {
        0
    } else {
        1 + first_index_of(s.drop_first(), c)
    }
}

pub proof fn lemma_first_index_of<T>(s: Seq<T>, c: T)
    ensures
        0 <= first_index_of(s, c) <= s.len(),
        first_index_of(s, c) < s.len() ==> s[first_index_of(s, c)] == c,
        forall|k: int| 0 <= k < first_index_of(s, c) ==> s[k] != c,
    decreases s.len(),
{
    if s.len() > 0 && s[0] != c {
        lemma_first_index_of(s.drop_first(), c);
        assert forall|k: int| 0 <= k < first_index_of(s, c) implies s[k] != c by {
            if k > 0 {
                assert(s[k] == s.drop_first()[k - 1]);
            }
        }
        if first_index_of(s, c) < s.len() {
            assert(s[first_index_of(s, c)] == s.drop_first()[first_index_of(s, c) - 1]);
        }
    }
}

/// A READY cell of the form `n/m` is all ready when both sides are the same
/// text; a cell without `/` never counts as not ready.
pub open spec fn ready_cell_all(cs: Seq<char>) -> bool {
    let k = first_index_of(cs, '/');
    k >= cs.len() || cs.take(k) == cs.skip(k + 1)
}

/// Whether a READY cell (`n/m`) has every container ready; cells in another
/// shape count as ready.
pub fn all_ready(ready: &str) -> (r: bool)
    ensures
        r == ready_cell_all(ready@),
{
    let cs = crate::text::chars_of(ready);
    let n = cs.len();
    proof {
        lemma_first_index_of(cs@, '/');
    }
    let mut k: usize = 0;
    while k < n && cs[k] != '/'
        invariant
            cs@ == ready@,
            n == cs@.len(),
            k <= first_index_of(cs@, '/'),
            forall|j: int| 0 <= j < first_index_of(cs@, '/') ==> cs@[j] != '/',
            first_index_of(cs@, '/') <= n,
            first_index_of(cs@, '/') < n ==> cs@[first_index_of(cs@, '/')] == '/',
        decreases n - k,
    {
        k = k + 1;
    }
    if k >= n {
        return true;
    }
    assert(k == first_index_of(cs@, '/'));
    let left = k;
    let right = n - k - 1;
    if left != right {
        assert(cs@.take(k as int).len() != cs@.skip(k + 1).len());
        return false;
    }
    let mut j: usize = 0;
    while j < left
        invariant
            cs@ == ready@,
            k == first_index_of(cs@, '/'),
            n == cs@.len(),
            k < n,
            left == k,
            right == n - k - 1,
            left == right,
            j <= left,
            forall|i: int| 0 <= i < j ==> #[trigger] cs@[i] == cs@[k + 1 + i],
        decreases left - j,
    {
        if cs[j] != cs[k + 1 + j] {
            assert(cs@.take(k as int)[j as int] != cs@.skip(k + 1)[j as int]);
            return false;
        }
        j = j + 1;
    }
    assert(cs@.take(k as int) =~= cs@.skip(k + 1));
    true
}

/// Whether byte `i` of `b` exists and is an ASCII digit.
pub open spec fn digit_at(b: Seq<u8>, i: int) -> bool {
    0 <= i < b.len() && 48 <= b[i] <= 57
}

/// Whether byte `i` of `b` exists and is `c`.
pub open spec fn byte_at(b: Seq<u8>, i: int, c: u8) -> bool {
    0 <= i < b.len() && b[i] == c
}

/// `YYYY-MM-DD` then `T` or a space, then `HH:MM:SS`, at the start of `b`.
pub open spec fn timestamp_shape(b: Seq<u8>) -> bool {
    &&& digit_at(b, 0) && digit_at(b, 1) && digit_at(b, 2) && digit_at(b, 3)
    &&& byte_at(b, 4, 45u8)
    &&& digit_at(b, 5) && digit_at(b, 6)
    &&& byte_at(b, 7, 45u8)
    &&& digit_at(b, 8) && digit_at(b, 9)
    &&& (byte_at(b, 10, 84u8) || byte_at(b, 10, 32u8))
    &&& digit_at(b, 11) && digit_at(b, 12)
    &&& byte_at(b, 13, 58u8)
    &&& digit_at(b, 14) && digit_at(b, 15)
    &&& byte_at(b, 16, 58u8)
    &&& digit_at(b, 17) && digit_at(b, 18)
}

/// The first index at or after `i` that does not hold a digit.
pub open spec fn digits_end(b: Seq<u8>, i: int) -> int
    decreases b.len() - i,
{
    if digit_at(b, i) {
        digits_end(b, i + 1)
    } else {
        i
    }
}

/// End of an optional `.fraction` starting at `i`.
pub open spec fn fraction_end(b: Seq<u8>, i: int) -> int {
    if byte_at(b, i, 46u8) {
        digits_end(b, i + 1)
    } else {
        i
    }
}

/// End of an optional zone (`Z`, `z`, or `+HH:MM` / `-HH:MM`) starting at `i`.
pub open spec fn zone_end(b: Seq<u8>, i: int) -> int {
    if byte_at(b, i, 90u8) || byte_at(b, i, 122u8) {
        i + 1
    } else if (byte_at(b, i, 43u8) || byte_at(b, i, 45u8)) && digit_at(b, i + 1) && digit_at(b, i + 2)
        && byte_at(b, i + 3, 58u8) && digit_at(b, i + 4) && digit_at(b, i + 5) {
        i + 6
    } else {
        i
    }
}

/// Byte length of an RFC 3339-like timestamp at the start of `b`, when one
/// is there and ends the line or is followed by a space or a tab.
pub open spec fn timestamp_len(b: Seq<u8>) -> Option<int> {
    if !timestamp_shape(b) {
        None
    } else {
        let i = zone_end(b, fraction_end(b, 19));
        if i >= b.len() || b[i] == 32u8 || b[i] == 9u8 {
            Some(i)
        } else {
            None
        }
    }
}

fn is_digit_at(b: &[u8], i: usize) -> (r: bool)
    ensures
        r == digit_at(b@, i as int),
{
    i < b.len() && 48 <= b[i] && b[i] <= 57
}

fn is_byte_at(b: &[u8], i: usize, c: u8) -> (r: bool)
    ensures
        r == byte_at(b@, i as int, c),
{
    i < b.len() && b[i] == c
}

/// Byte length of a leading timestamp of `s` (see `timestamp_len`).
pub fn leading_timestamp(s: &str) -> (r: Option<usize>)
    ensures
        match timestamp_len(s.spec_bytes()) {
            Some(n) => r == Some(n as usize),
            None => r is None,
        },
{
    let b = s.as_bytes();
    let shape = is_digit_at(b, 0) && is_digit_at(b, 1) && is_digit_at(b, 2) && is_digit_at(b, 3)
        && is_byte_at(b, 4, 45) && is_digit_at(b, 5) && is_digit_at(b, 6) && is_byte_at(b, 7, 45)
        && is_digit_at(b, 8) && is_digit_at(b, 9) && (is_byte_at(b, 10, 84) || is_byte_at(b, 10, 32))
        && is_digit_at(b, 11) && is_digit_at(b, 12) && is_byte_at(b, 13, 58) && is_digit_at(b, 14)
        && is_digit_at(b, 15) && is_byte_at(b, 16, 58) && is_digit_at(b, 17) && is_digit_at(b, 18);
    if !shape {
        return None;
    }
    let n = b.len();
    let mut i: usize = 19;
    if is_byte_at(b, i, 46) {
        i = i + 1;
        while is_digit_at(b, i)
            invariant
                n == b@.len(),
                20 <= i <= b@.len(),
                digits_end(b@, i as int) == fraction_end(b@, 19),
            decreases b@.len() - i,
        {
            i = i + 1;
        }
    }
    assert(i == fraction_end(b@, 19));
    if is_byte_at(b, i, 90) || is_byte_at(b, i, 122) {
        i = i + 1;
    } else if (is_byte_at(b, i, 43) || is_byte_at(b, i, 45)) && n - i > 5 && is_digit_at(b, i + 1)
        && is_digit_at(b, i + 2) && is_byte_at(b, i + 3, 58) && is_digit_at(b, i + 4) && is_digit_at(b, i + 5) {
        i = i + 6;
    }
    if i >= b.len() || b[i] == 32 || b[i] == 9 {
        Some(i)
    } else {
        None
    }
}

/// FNV-1a over `bytes`, 32 bits.
pub open spec fn fnv1a(bytes: Seq<u8>) -> u32
    decreases bytes.len(),
{
    if bytes.len() == 0 {
        0x811c_9dc5u32
    } else {
        (fnv1a(bytes.drop_last()) ^ (bytes.last() as u32)).wrapping_mul(0x0100_0193u32)
    }
}

/// How many colors the source palette holds.
pub const SOURCE_PALETTE_LEN: usize = 10;

/// Slot of the source palette a label is drawn in: its FNV-1a hash modulo
/// the palette size, so a label always gets the same color.
pub fn source_color(label: &str) -> (r: usize)
    ensures
        r == fnv1a(label.spec_bytes()) as int % 10,
        r < SOURCE_PALETTE_LEN,
{
    let b = label.as_bytes();
    let mut h: u32 = 0x811c_9dc5;
    let mut k: usize = 0;
    while k < b.len()
        invariant
            k <= b@.len(),
            h == fnv1a(b@.take(k as int)),
        decreases b@.len() - k,
    {
        assert(b@.take(k + 1).drop_last() =~= b@.take(k as int));
        h = (h ^ (b[k] as u32)).wrapping_mul(0x0100_0193);
        k = k + 1;
    }
    assert(b@.take(b@.len() as int) =~= b@);
    (h as usize) % SOURCE_PALETTE_LEN
}

/// A leading `[label]` source prefix of a line: its byte length, a space
/// after the `]` included, and the label's bytes. `None` when the line does
/// not start with `[`, has no `]`, or the label is empty.
pub open spec fn source_prefix_of(b: Seq<u8>) -> Option<(int, Seq<u8>)> {
    if b.len() == 0 || b[0] != 91u8 {
        None
    } else {
        let rest = b.skip(1);
        let close = first_index_of(rest, 93u8);
        if close >= rest.len() || close == 0 {
            None
        } else {
            let end = close + 2;
            let end = if end < b.len() && b[end] == 32u8 { end + 1 } else { end };
            Some((end, rest.take(close)))
        }
    }
}

/// Detect a leading `[label]` source prefix; gives its byte length (with a
/// following space, if any) and the palette slot of its label.
pub fn source_prefix(line: &str) -> (r: Option<(usize, usize)>)
    ensures
        match source_prefix_of(line.spec_bytes()) {
            Some((end, label)) => r matches Some((e, slot)) && e == end && slot == fnv1a(label) as int % 10,
            None => r is None,
        },
{
    let b = line.as_bytes();
    let n = b.len();
    if n == 0 || b[0] != 91 {
        return None;
    }
    proof {
        lemma_first_index_of(b@.skip(1), 93u8);
    }
    let mut k: usize = 1;
    while k < n && b[k] != 93
        invariant
            n == b@.len(),
            1 <= k <= n,
            k - 1 <= first_index_of(b@.skip(1), 93u8),
            forall|j: int| 0 <= j < first_index_of(b@.skip(1), 93u8) ==> b@.skip(1)[j] != 93u8,
            first_index_of(b@.skip(1), 93u8) <= n - 1,
            first_index_of(b@.skip(1), 93u8) < n - 1 ==> b@.skip(1)[first_index_of(b@.skip(1), 93u8)] == 93u8,
        decreases n - k,
    {
        assert(b@.skip(1)[k - 1] == b@[k as int]);
        k = k + 1;
    }
    if k >= n {
        return None;
    }
    assert(b@.skip(1)[k - 1] == b@[k as int]);
    let close = k - 1;
    if close == 0 {
        return None;
    }
    let mut label: Vec<u8> = Vec::new();
    let mut j: usize = 1;
    while j < k
        invariant
            n == b@.len(),
            1 <= j <= k,
            k < n,
            label@ == b@.subrange(1, j as int),
        decreases k - j,
    {
        label.push(b[j]);
        assert(b@.subrange(1, j + 1) =~= b@.subrange(1, j as int).push(b@[j as int]));
        j = j + 1;
    }
    assert(label@ =~= b@.skip(1).take(close as int));
    let slot = slot_of_bytes(&label);
    let mut end = close + 2;
    if end < n && b[end] == 32 {
        end = end + 1;
    }
    Some((end, slot))
}

fn slot_of_bytes(b: &Vec<u8>) -> (r: usize)
    ensures
        r == fnv1a(b@) as int % 10,
{
    let mut h: u32 = 0x811c_9dc5;
    let mut k: usize = 0;
    while k < b.len()
        invariant
            k <= b@.len(),
            h == fnv1a(b@.take(k as int)),
        decreases b@.len() - k,
    {
        assert(b@.take(k + 1).drop_last() =~= b@.take(k as int));
        h = (h ^ (b[k] as u32)).wrapping_mul(0x0100_0193);
        k = k + 1;
    }
    assert(b@.take(b@.len() as int) =~= b@);
    (h as usize) % SOURCE_PALETTE_LEN
}

/// A pod condition from `status.conditions`: its `type` and `status`, each
/// when it is a string.
#[derive(Clone, Debug)]
pub struct PodCondition {
    pub kind: Option<String>,
    pub status: Option<String>,
}

/// What a pod's readiness depends on: the conditions in its status, and
/// the condition types its readiness gates wait for (a gate whose type is
/// not a string has none). Either list is absent when the pod object does
/// not hold one.
#[derive(Clone, Debug)]
pub struct PodReadiness {
    pub conditions: Option<Vec<PodCondition>>,
    pub gates: Option<Vec<Option<String>>>,
}

/// The index of the first of `cs` of type `name`, or the length of `cs`
/// when there is none.
pub open spec fn condition_index(cs: Seq<PodCondition>, name: Seq<char>, i: int) -> int
    decreases cs.len() - i,
{
    if i < 0 || i >= cs.len() {
        cs.len() as int
    } else if cs[i].kind matches Some(k) && k@ == name {
        i
    } else {
        condition_index(cs, name, i + 1)
    }
}

/// The first condition of type `name`, if any.
pub open spec fn condition_named(p: PodReadiness, name: Seq<char>) -> Option<PodCondition> {
    match p.conditions {
        Some(cs) => {
            let i = condition_index(cs@, name, 0);
            if 0 <= i < cs@.len() {
                Some(cs@[i])
            } else {
                None
            }
        },
        None => None,
    }
}

/// Whether a condition's status is `True`.
pub open spec fn holds(c: PodCondition) -> bool {
    c.status matches Some(s) && s@ == "True"@
}

/// Whether a readiness gate is unmet: it names no condition type, its
/// condition is missing, or the condition does not hold.
pub open spec fn gate_unmet(p: PodReadiness, gate: Option<String>) -> bool {
    match gate {
        None => true,
        Some(t) => match condition_named(p, t@) {
            None => true,
            Some(c) => !holds(c),
        },
    }
}

/// Whether a pod is held back from readiness: its `Ready` condition is
/// there and does not hold, or one of its readiness gates is unmet.
pub open spec fn readiness_blocked(p: PodReadiness) -> bool {
    ||| (condition_named(p, "Ready"@) matches Some(c) && !holds(c))
    ||| (p.gates matches Some(gs) && some_gate_unmet(p, gs@))
}

/// Whether one of the readiness gates `gs` is unmet.
pub open spec fn some_gate_unmet(p: PodReadiness, gs: Seq<Option<String>>) -> bool {
    exists|i: int| 0 <= i < gs.len() && gate_unmet(p, #[trigger] gs[i])
}

fn find_condition<'a>(p: &'a PodReadiness, name: &str) -> (r: Option<&'a PodCondition>)
    ensures
        match condition_named(*p, name@) {
            Some(c) => r matches Some(x) && *x == c,
            None => r is None,
        },
{
    match &p.conditions {
        Some(cs) => {
            let mut i: usize = 0;
            while i < cs.len()
                invariant
                    i <= cs@.len(),
                    p.conditions == Some(*cs),
                    condition_index(cs@, name@, 0) == condition_index(cs@, name@, i as int),
                decreases cs.len() - i,
            {
                let hit = match &cs[i].kind {
                    Some(k) => crate::config::same_text(k, name),
                    None => false,
                };
                if hit {
                    return Some(&cs[i]);
                }
                i = i + 1;
            }
            None
        },
        None => None,
    }
}

fn condition_holds(c: &PodCondition) -> (r: bool)
    ensures
        r == holds(*c),
{
    match &c.status {
        Some(s) => crate::config::same_text(s, "True"),
        None => false,
    }
}

/// Whether a pod is held back from readiness (see `readiness_blocked`).
pub fn pod_readiness_blocked(p: &PodReadiness) -> (r: bool)
    ensures
        r == readiness_blocked(*p),
{
    match find_condition(p, "Ready") {
        Some(c) => {
            if !condition_holds(c) {
                return true;
            }
        },
        None => {},
    }
    match &p.gates {
        Some(gs) => {
            let mut i: usize = 0;
            while i < gs.len()
                invariant
                    i <= gs@.len(),
                    p.gates == Some(*gs),
                    forall|j: int| 0 <= j < i ==> !gate_unmet(*p, #[trigger] gs@[j]),
                decreases gs.len() - i,
            {
                let unmet = match &gs[i] {
                    None => true,
                    Some(t) => match find_condition(p, t.as_str()) {
                        None => true,
                        Some(c) => !condition_holds(c),
                    },
                };
                if unmet {
                    assert(gate_unmet(*p, gs@[i as int]));
                    assert(some_gate_unmet(*p, gs@));
                    return true;
                }
                i = i + 1;
            }
            false
        },
        None => false,
    }
}

/// The status a pod row is painted by: a `Running` pod whose READY cell is
/// not all ready, or whose readiness is blocked, is still starting.
pub fn row_status<'a>(status: &'a str, ready_cell: Option<&str>, blocked: bool) -> (r: &'a str)
    ensures
        r@ == if status@ == "Running"@ && ((ready_cell matches Some(c) && !ready_cell_all(c@)) || blocked) {
            "PodInitializing"@
        } else {
            status@
        },
{
    let not_ready = match ready_cell {
        Some(c) => !all_ready(c),
        None => false,
    };
    let running = crate::config::same_text(&String::from_str(status), "Running");
    if running && (not_ready || blocked) {
        "PodInitializing"
    } else {
        status
    }
}

} // verus!
