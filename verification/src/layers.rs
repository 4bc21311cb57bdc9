//! Layered configuration: a configuration document is laid over another
//! one table by table. Tables merge key by key, any other value (a scalar or
//! an array) replaces the one below it; plugin lists can be merged by plugin
//! name and thinned by name before that.

use crate::config::same_text;
use vstd::prelude::*;

verus! {

/// A configuration document value, as a TOML parser gives it. A float is
/// held by the bits of its `f64`, a date-time by its TOML text; a table is a
/// list of (key, value) entries.
#[derive(Debug)]
pub enum TomlValue {
    String(String),
    Integer(i64),
    Float(u64),
    Boolean(bool),
    Datetime(String),
    Array(Vec<TomlValue>),
    Table(Vec<(String, TomlValue)>),
}

/// The mathematical value of a `TomlValue`.
#[verifier::ext_equal]
pub enum Toml {
    Str(Seq<char>),
    Int(i64),
    Float(u64),
    Bool(bool),
    Datetime(Seq<char>),
    Array(Seq<Toml>),
    Table(Seq<(Seq<char>, Toml)>),
}

/// The value of `v`.
pub open spec fn toml_of(v: TomlValue) -> Toml
    decreases v, 0nat,
{
    match v {
        TomlValue::String(s) => Toml::Str(s@),
        TomlValue::Integer(i) => Toml::Int(i),
        TomlValue::Float(f) => Toml::Float(f),
        TomlValue::Boolean(b) => Toml::Bool(b),
        TomlValue::Datetime(d) => Toml::Datetime(d@),
        TomlValue::Array(items) => Toml::Array(items_of(items@, items@.len() as int)),
        TomlValue::Table(entries) => Toml::Table(entries_of(entries@, entries@.len() as int)),
    }
}

/// The values of the first `n` items of `s`.
pub open spec fn items_of(s: Seq<TomlValue>, n: int) -> Seq<Toml>
    decreases s, n,
{
    if n <= 0 || n > s.len() {
        Seq::empty()
    } else {
        items_of(s, n - 1).push(toml_of(s[n - 1]))
    }
}

/// The values of the first `n` entries of `s`.
pub open spec fn entries_of(s: Seq<(String, TomlValue)>, n: int) -> Seq<(Seq<char>, Toml)>
    decreases s, n,
{
    if n <= 0 || n > s.len() {
        Seq::empty()
    } else {
        entries_of(s, n - 1).push((s[n - 1].0@, toml_of(s[n - 1].1)))
    }
}

/// The values of all the entries of `s`.
pub open spec fn entries_view(s: Seq<(String, TomlValue)>) -> Seq<(Seq<char>, Toml)> {
    entries_of(s, s.len() as int)
}

pub proof fn lemma_entries_of(s: Seq<(String, TomlValue)>, n: int)
    requires
        0 <= n <= s.len(),
    ensures
        entries_of(s, n).len() == n,
        forall|i: int| 0 <= i < n ==> #[trigger] entries_of(s, n)[i] == (s[i].0@, toml_of(s[i].1)),
    decreases n,
{
    if n > 0 {
        lemma_entries_of(s, n - 1);
    }
}

/// The entries of `s`, one by one.
pub proof fn lemma_entries_view(s: Seq<(String, TomlValue)>)
    ensures
        entries_view(s).len() == s.len(),
        forall|i: int| 0 <= i < s.len() ==> #[trigger] entries_view(s)[i] == (s[i].0@, toml_of(s[i].1)),
{
    lemma_entries_of(s, s.len() as int);
}

/// The index of the first entry of `es` from `i` on whose key is `k`, or the
/// length of `es` when there is none.
pub open spec fn key_index_from(es: Seq<(Seq<char>, Toml)>, k: Seq<char>, i: int) -> int
    decreases es.len() - i,
{
    if i < 0 || i >= es.len() {
        es.len() as int
    } else if es[i].0 == k {
        i
    } else {
        key_index_from(es, k, i + 1)
    }
}

/// The index of the first entry of `es` whose key is `k`, or the length of
/// `es` when there is none.
pub open spec fn key_index(es: Seq<(Seq<char>, Toml)>, k: Seq<char>) -> int {
    key_index_from(es, k, 0)
}

pub proof fn lemma_key_index_from(es: Seq<(Seq<char>, Toml)>, k: Seq<char>, i: int)
    requires
        0 <= i <= es.len(),
    ensures
        i <= key_index_from(es, k, i) <= es.len(),
        key_index_from(es, k, i) < es.len() ==> es[key_index_from(es, k, i)].0 == k,
        forall|j: int| i <= j < key_index_from(es, k, i) ==> es[j].0 != k,
    decreases es.len() - i,
{
    if i < es.len() && es[i].0 != k {
        lemma_key_index_from(es, k, i + 1);
    }
}

/// `o` laid over `b`: two tables merge key by key (see `laid_entries`);
/// otherwise `o` replaces `b`.
pub open spec fn merged(b: Toml, o: Toml) -> Toml
    decreases o, 0nat,
{
    match b {
        Toml::Table(bs) => match o {
            Toml::Table(os) => Toml::Table(laid_entries(bs, os, os.len() as int)),
            _ => o,
        },
        _ => o,
    }
}

/// The table entries `base` with the first `n` entries of `os` laid over
/// them in order: an entry whose key is new is appended; one whose key is
/// there replaces the first such entry's value, except that a table laid
/// over a table merges into it.
pub open spec fn laid_entries(base: Seq<(Seq<char>, Toml)>, os: Seq<(Seq<char>, Toml)>, n: int) -> Seq<(Seq<char>, Toml)>
    decreases os, n,
{
    if n <= 0 || n > os.len() {
        base
    } else {
        let acc = laid_entries(base, os, n - 1);
        let k = os[n - 1].0;
        let v = os[n - 1].1;
        let j = key_index(acc, k);
        if 0 <= j < acc.len() {
            if acc[j].1 is Table && v is Table {
                proof {
                    assert(decreases_to!(os => os[n - 1]));
                }
                acc.update(j, (k, merged(acc[j].1, v)))
            } else {
                acc.update(j, (k, v))
            }
        } else {
            acc.push((k, v))
        }
    }
}

/// The index of the first entry of `es` whose key is `k`, or the length of
/// `es` when there is none.
pub(crate) fn find_key(es: &Vec<(String, TomlValue)>, k: &str) -> (r: usize)
    ensures
        r as int == key_index(entries_view(es@), k@),
{
    let ghost ev = entries_view(es@);
    proof {
        lemma_entries_view(es@);
    }
    let mut i: usize = 0;
    while i < es.len()
        invariant
            ev == entries_view(es@),
            ev.len() == es@.len(),
            forall|j: int| 0 <= j < es@.len() ==> #[trigger] ev[j] == (es@[j].0@, toml_of(es@[j].1)),
            i <= es.len(),
            key_index(ev, k@) == key_index_from(ev, k@, i as int),
        decreases es.len() - i,
    {
        if same_text(&es[i].0, k) {
            assert(ev[i as int].0 == k@);
            return i;
        }
        assert(ev[i as int].0 != k@);
        i = i + 1;
    }
    i
}

/// `overlay` laid over `base` (see `merged`).
pub fn merged_value(base: TomlValue, overlay: TomlValue) -> (r: TomlValue)
    ensures
        toml_of(r) == merged(toml_of(base), toml_of(overlay)),
    decreases overlay,
{
    match overlay {
        TomlValue::Table(mut os) => match base {
            TomlValue::Table(mut bs) => {
                let ghost os0 = os@;
                let ghost ov = entries_view(os0);
                let ghost bv = entries_view(bs@);
                proof {
                    lemma_entries_view(os0);
                }
                let n = os.len();
                let mut i: usize = 0;
                assert(os@ =~= os0.skip(0));
                while i < n
                    invariant
                        n == os0.len(),
                        ov == entries_view(os0),
                        ov.len() == os0.len(),
                        forall|j: int| 0 <= j < os0.len() ==> #[trigger] ov[j] == (os0[j].0@, toml_of(os0[j].1)),
                        i <= n,
                        os@ == os0.skip(i as int),
                        entries_view(bs@) == laid_entries(bv, ov, i as int),
                        forall|j: int| 0 <= j < os0.len() ==> decreases_to!(overlay => #[trigger] os0[j].1),
                    decreases n - i,
                {
                    let (k, v) = os.remove(0);
                    assert(os0[i as int] == (k, v));
                    let ghost acc = entries_view(bs@);
                    proof {
                        lemma_entries_view(bs@);
                        lemma_key_index_from(acc, k@, 0);
                    }
                    let j = find_key(&bs, k.as_str());
                    if j < bs.len() {
                        let (bk, bval) = bs.remove(j);
                        let both = match (&bval, &v) {
                            (TomlValue::Table(_), TomlValue::Table(_)) => true,
                            _ => false,
                        };
                        let nv = if both {
                            merged_value(bval, v)
                        } else {
                            v
                        };
                        bs.insert(j, (k, nv));
                        proof {
                            lemma_entries_view(bs@);
                            assert(entries_view(bs@) =~= acc.update(j as int, (ov[i as int].0, toml_of(nv))));
                        }
                    } else {
                        bs.push((k, v));
                        proof {
                            lemma_entries_view(bs@);
                            assert(entries_view(bs@) =~= acc.push(ov[i as int]));
                        }
                    }
                    proof {
                        assert(os@ =~= os0.skip(i + 1));
                    }
                    i = i + 1;
                }
                assert(os0.len() == ov.len());
                TomlValue::Table(bs)
            },
            _ => TomlValue::Table(os),
        },
        _ => overlay,
    }
}

/// Lay `overlay` over `base`: two tables merge key by key, recursively; any
/// other value (a scalar or an array) replaces the one below it wholesale.
pub fn merge(base: &mut TomlValue, overlay: TomlValue)
    ensures
        toml_of(*final(base)) == merged(toml_of(*old(base)), toml_of(overlay)),
{
    let mut b = TomlValue::Boolean(false);
    std::mem::swap(&mut b, base);
    *base = merged_value(b, overlay);
}

/// The values of all the items of `s`.
pub open spec fn items_view(s: Seq<TomlValue>) -> Seq<Toml> {
    items_of(s, s.len() as int)
}

pub proof fn lemma_items_of(s: Seq<TomlValue>, n: int)
    requires
        0 <= n <= s.len(),
    ensures
        items_of(s, n).len() == n,
        forall|i: int| 0 <= i < n ==> #[trigger] items_of(s, n)[i] == toml_of(s[i]),
    decreases n,
{
    if n > 0 {
        lemma_items_of(s, n - 1);
    }
}

/// The items of `s`, one by one.
pub proof fn lemma_items_view(s: Seq<TomlValue>)
    ensures
        items_view(s).len() == s.len(),
        forall|i: int| 0 <= i < s.len() ==> #[trigger] items_view(s)[i] == toml_of(s[i]),
{
    lemma_items_of(s, s.len() as int);
}

/// A copy of `v`.
pub fn duplicate(v: &TomlValue) -> (r: TomlValue)
    ensures
        toml_of(r) == toml_of(*v),
    decreases *v,
{
    match v {
        TomlValue::String(s) => TomlValue::String(s.clone()),
        TomlValue::Integer(i) => TomlValue::Integer(*i),
        TomlValue::Float(f) => TomlValue::Float(*f),
        TomlValue::Boolean(b) => TomlValue::Boolean(*b),
        TomlValue::Datetime(d) => TomlValue::Datetime(d.clone()),
        TomlValue::Array(items) => {
            let mut out: Vec<TomlValue> = Vec::new();
            let mut i: usize = 0;
            proof {
                lemma_items_view(items@);
            }
            while i < items.len()
                invariant
                    i <= items@.len(),
                    out@.len() == i,
                    forall|j: int| 0 <= j < i ==> toml_of(#[trigger] out@[j]) == toml_of(items@[j]),
                    forall|j: int| 0 <= j < items@.len() ==> decreases_to!(*v => #[trigger] items@[j]),
                decreases items.len() - i,
            {
                let c = duplicate(&items[i]);
                out.push(c);
                i = i + 1;
            }
            proof {
                lemma_items_view(out@);
                assert(items_view(out@) =~= items_view(items@));
            }
            TomlValue::Array(out)
        },
        TomlValue::Table(entries) => {
            let mut out: Vec<(String, TomlValue)> = Vec::new();
            let mut i: usize = 0;
            proof {
                lemma_entries_view(entries@);
            }
            while i < entries.len()
                invariant
                    i <= entries@.len(),
                    out@.len() == i,
                    forall|j: int| 0 <= j < i ==> (#[trigger] out@[j]).0@ == entries@[j].0@ && toml_of(out@[j].1) == toml_of(entries@[j].1),
                    forall|j: int| 0 <= j < entries@.len() ==> decreases_to!(*v => #[trigger] entries@[j].1),
                decreases entries.len() - i,
            {
                let k = entries[i].0.clone();
                let c = duplicate(&entries[i].1);
                out.push((k, c));
                i = i + 1;
            }
            proof {
                lemma_entries_view(out@);
                assert(entries_view(out@) =~= entries_view(entries@));
            }
            TomlValue::Table(out)
        },
    }
}

/// How a layer's plugin list combines with the one below it: it replaces
/// the list whole, or it merges into it by plugin name.
#[derive(Clone, Copy, Debug, PartialEq, Eq, Structural)]
pub enum PluginMerge {
    Replace,
    Name,
}

/// Why a layer's plugin controls were refused: `plugins_merge` is not one
/// of `replace` and `name`, or `plugins_remove` is not a list of names.
#[derive(Clone, Copy, Debug, PartialEq, Eq, Structural)]
pub enum ControlError {
    PluginsMerge,
    PluginsRemove,
}

/// The value of the first entry of `es` with key `k`.
pub open spec fn get_entry(es: Seq<(Seq<char>, Toml)>, k: Seq<char>) -> Option<Toml> {
    let j = key_index(es, k);
    if 0 <= j < es.len() {
        Some(es[j].1)
    } else {
        None
    }
}

/// The value under key `k` of the table `v` (nothing for a non-table).
pub open spec fn field(v: Toml, k: Seq<char>) -> Option<Toml> {
    match v {
        Toml::Table(es) => get_entry(es, k),
        _ => None,
    }
}

/// The `name` of a plugin entry, when it is a string.
pub open spec fn name_of(e: Toml) -> Option<Seq<char>> {
    match field(e, "name"@) {
        Some(Toml::Str(n)) => Some(n),
        _ => None,
    }
}

/// The `plugins_merge` control of a layer's entries: `replace` when absent.
pub open spec fn merge_mode_of(os: Seq<(Seq<char>, Toml)>) -> Option<PluginMerge> {
    match get_entry(os, "plugins_merge"@) {
        None => Some(PluginMerge::Replace),
        Some(Toml::Str(m)) => if m == "replace"@ {
            Some(PluginMerge::Replace)
        } else if m == "name"@ {
            Some(PluginMerge::Name)
        } else {
            None
        },
        _ => None,
    }
}

/// The strings of the first `n` of `items`.
pub open spec fn strs_of(items: Seq<Toml>, n: int) -> Seq<Seq<char>>
    decreases n,
{
    if n <= 0 || n > items.len() {
        Seq::empty()
    } else {
        strs_of(items, n - 1).push(items[n - 1]->Str_0)
    }
}

/// The `plugins_remove` control of a layer's entries: no names when absent.
pub open spec fn removals_of(os: Seq<(Seq<char>, Toml)>) -> Option<Seq<Seq<char>>> {
    match get_entry(os, "plugins_remove"@) {
        None => Some(Seq::empty()),
        Some(Toml::Array(items)) => if forall|i: int| 0 <= i < items.len() ==> (#[trigger] items[i]) is Str {
            Some(strs_of(items, items.len() as int))
        } else {
            None
        },
        _ => None,
    }
}

/// What is wrong with a layer's plugin controls, if anything.
pub open spec fn control_error(os: Seq<(Seq<char>, Toml)>) -> Option<ControlError> {
    if merge_mode_of(os) is None {
        Some(ControlError::PluginsMerge)
    } else if removals_of(os) is None {
        Some(ControlError::PluginsRemove)
    } else {
        None
    }
}

fn text_is(v: &TomlValue, t: &str) -> (r: bool)
    ensures
        r == (toml_of(*v) == Toml::Str(t@)),
{
    match v {
        TomlValue::String(s) => same_text(s, t),
        _ => false,
    }
}

/// Read a layer's plugin controls: how its plugin list combines, and which
/// plugin names it removes from the layers below.
pub fn plugin_controls(os: &Vec<(String, TomlValue)>) -> (r: Result<(PluginMerge, Vec<String>), ControlError>)
    ensures
        match control_error(entries_view(os@)) {
            Some(e) => r == Err::<(PluginMerge, Vec<String>), ControlError>(e),
            None => r matches Ok((m, names)) && Some(m) == merge_mode_of(entries_view(os@))
                && Some(names@.map_values(|n: String| n@)) == removals_of(entries_view(os@)),
        },
{
    let ghost ev = entries_view(os@);
    proof {
        lemma_entries_view(os@);
        lemma_key_index_from(ev, "plugins_merge"@, 0);
        lemma_key_index_from(ev, "plugins_remove"@, 0);
    }
    let jm = find_key(os, "plugins_merge");
    let mode = if jm < os.len() {
        let v = &os[jm].1;
        if text_is(v, "replace") {
            PluginMerge::Replace
        } else if text_is(v, "name") {
            PluginMerge::Name
        } else {
            return Err(ControlError::PluginsMerge);
        }
    } else {
        PluginMerge::Replace
    };
    let jr = find_key(os, "plugins_remove");
    let mut names: Vec<String> = Vec::new();
    if jr < os.len() {
        match &os[jr].1 {
            TomlValue::Array(items) => {
                let ghost iv = items_view(items@);
                proof {
                    lemma_items_view(items@);
                }
                assert(ev[jr as int] == (os@[jr as int].0@, toml_of(os@[jr as int].1)));
                assert(get_entry(ev, "plugins_remove"@) == Some(Toml::Array(iv)));
                let mut i: usize = 0;
                while i < items.len()
                    invariant
                        ev == entries_view(os@),
                        merge_mode_of(ev) == Some(mode),
                        get_entry(ev, "plugins_remove"@) == Some(Toml::Array(iv)),
                        iv == items_view(items@),
                        iv.len() == items@.len(),
                        forall|j: int| 0 <= j < items@.len() ==> #[trigger] iv[j] == toml_of(items@[j]),
                        i <= items@.len(),
                        forall|j: int| 0 <= j < i ==> (#[trigger] iv[j]) is Str,
                        names@.map_values(|n: String| n@) == strs_of(iv, i as int),
                    decreases items.len() - i,
                {
                    match &items[i] {
                        TomlValue::String(n) => {
                            names.push(n.clone());
                            proof {
                                assert(names@.map_values(|n: String| n@) =~= strs_of(iv, i as int).push(n@));
                            }
                        },
                        _ => {
                            assert(!(iv[i as int] is Str));
                            return Err(ControlError::PluginsRemove);
                        },
                    }
                    i = i + 1;
                }
            },
            _ => {
                return Err(ControlError::PluginsRemove);
            },
        }
    } else {
        assert(names@.map_values(|n: String| n@) =~= Seq::<Seq<char>>::empty());
    }
    Ok((mode, names))
}

/// Whether `k` is the key of a plugin control.
pub open spec fn is_control(k: Seq<char>) -> bool {
    k == "plugins_merge"@ || k == "plugins_remove"@
}

/// The first `n` entries of `os` without the plugin controls.
pub open spec fn without_controls(os: Seq<(Seq<char>, Toml)>, n: int) -> Seq<(Seq<char>, Toml)>
    decreases n,
{
    if n <= 0 || n > os.len() {
        Seq::empty()
    } else if is_control(os[n - 1].0) {
        without_controls(os, n - 1)
    } else {
        without_controls(os, n - 1).push(os[n - 1])
    }
}

/// Whether the plugin entry `e` is named in `names`.
pub open spec fn removed(e: Toml, names: Seq<Seq<char>>) -> bool {
    match name_of(e) {
        Some(n) => names.contains(n),
        None => false,
    }
}

/// The first `n` plugin entries of `items` that `names` does not remove.
pub open spec fn kept(items: Seq<Toml>, names: Seq<Seq<char>>, n: int) -> Seq<Toml>
    decreases n,
{
    if n <= 0 || n > items.len() {
        Seq::empty()
    } else if removed(items[n - 1], names) {
        kept(items, names, n - 1)
    } else {
        kept(items, names, n - 1).push(items[n - 1])
    }
}

/// `b` with the plugins named in `names` taken out of its `plugins` list.
pub open spec fn thinned(b: Toml, names: Seq<Seq<char>>) -> Toml {
    match b {
        Toml::Table(bs) => {
            let j = key_index(bs, "plugins"@);
            if 0 <= j < bs.len() {
                match bs[j].1 {
                    Toml::Array(items) => Toml::Table(
                        bs.update(j, (bs[j].0, Toml::Array(kept(items, names, items.len() as int)))),
                    ),
                    _ => b,
                }
            } else {
                b
            }
        },
        _ => b,
    }
}

/// The index of the first of `acc` from `i` on named `n`, or the length of
/// `acc` when there is none.
pub open spec fn name_index(acc: Seq<Toml>, n: Seq<char>, i: int) -> int
    decreases acc.len() - i,
{
    if i < 0 || i >= acc.len() {
        acc.len() as int
    } else if name_of(acc[i]) == Some(n) {
        i
    } else {
        name_index(acc, n, i + 1)
    }
}

pub proof fn lemma_name_index(acc: Seq<Toml>, n: Seq<char>, i: int)
    requires
        0 <= i <= acc.len(),
    ensures
        i <= name_index(acc, n, i) <= acc.len(),
        name_index(acc, n, i) < acc.len() ==> name_of(acc[name_index(acc, n, i)]) == Some(n),
        forall|j: int| i <= j < name_index(acc, n, i) ==> name_of(#[trigger] acc[j]) != Some(n),
    decreases acc.len() - i,
{
    if i < acc.len() && name_of(acc[i]) != Some(n) {
        lemma_name_index(acc, n, i + 1);
    }
}

/// The first `n` of the plugin entries `incoming` combined by name: an entry
/// takes the place of the first earlier one of the same name, an entry
/// without a name, or with a new one, goes at the end.
pub open spec fn by_name(incoming: Seq<Toml>, n: int) -> Seq<Toml>
    decreases n,
{
    if n <= 0 || n > incoming.len() {
        Seq::empty()
    } else {
        let acc = by_name(incoming, n - 1);
        let e = incoming[n - 1];
        match name_of(e) {
            Some(nm) => {
                let j = name_index(acc, nm, 0);
                if j < acc.len() {
                    acc.update(j, e)
                } else {
                    acc.push(e)
                }
            },
            None => acc.push(e),
        }
    }
}

/// The entries of the `plugins` list of `b`, none when it has none.
pub open spec fn plugin_items(b: Toml) -> Seq<Toml> {
    match field(b, "plugins"@) {
        Some(Toml::Array(items)) => items,
        _ => Seq::empty(),
    }
}

/// The layer entries `os` laid over `b` under the plugin controls `mode`
/// and `names`: the named plugins leave `b`'s list first; then, when the
/// layer merges by name and brings a plugin list, that list becomes `b`'s
/// list and the layer's combined by name; last, the layer without its
/// controls is laid over `b`.
pub open spec fn configured(b: Toml, os: Seq<(Seq<char>, Toml)>, mode: PluginMerge, names: Seq<Seq<char>>) -> Toml {
    let o1 = without_controls(os, os.len() as int);
    let b1 = thinned(b, names);
    let j = key_index(o1, "plugins"@);
    let o2 = if mode == PluginMerge::Name && 0 <= j < o1.len() && o1[j].1 is Array {
        let incoming = plugin_items(b1) + o1[j].1->Array_0;
        o1.update(j, (o1[j].0, Toml::Array(by_name(incoming, incoming.len() as int))))
    } else {
        o1
    };
    merged(b1, Toml::Table(o2))
}

/// The `name` of a plugin entry, when it is a string.
fn plugin_name(e: &TomlValue) -> (r: Option<String>)
    ensures
        match r {
            Some(n) => name_of(toml_of(*e)) == Some(n@),
            None => name_of(toml_of(*e)) is None,
        },
{
    match e {
        TomlValue::Table(es) => {
            proof {
                lemma_entries_view(es@);
                lemma_key_index_from(entries_view(es@), "name"@, 0);
            }
            let j = find_key(es, "name");
            if j < es.len() {
                assert(entries_view(es@)[j as int] == (es@[j as int].0@, toml_of(es@[j as int].1)));
                match &es[j].1 {
                    TomlValue::String(n) => Some(n.clone()),
                    _ => None,
                }
            } else {
                None
            }
        },
        _ => None,
    }
}

/// Whether `n` is one of `names`.
fn listed(names: &Vec<String>, n: &String) -> (r: bool)
    ensures
        r == names@.map_values(|x: String| x@).contains(n@),
{
    let ghost nv = names@.map_values(|x: String| x@);
    let mut i: usize = 0;
    while i < names.len()
        invariant
            nv == names@.map_values(|x: String| x@),
            i <= names@.len(),
            forall|j: int| 0 <= j < i ==> nv[j] != n@,
        decreases names.len() - i,
    {
        if names[i] == *n {
            assert(nv[i as int] == n@);
            return true;
        }
        i = i + 1;
    }
    false
}

/// Whether the plugin entry `e` is named in `names`.
fn is_removed(e: &TomlValue, names: &Vec<String>) -> (r: bool)
    ensures
        r == removed(toml_of(*e), names@.map_values(|x: String| x@)),
{
    match plugin_name(e) {
        Some(n) => listed(names, &n),
        None => false,
    }
}

/// Take the plugins named in `names` out of the `plugins` list of `base`.
fn thin_plugins(base: &mut TomlValue, names: &Vec<String>)
    ensures
        toml_of(*final(base)) == thinned(toml_of(*old(base)), names@.map_values(|x: String| x@)),
{
    let ghost nv = names@.map_values(|x: String| x@);
    let mut b = TomlValue::Boolean(false);
    std::mem::swap(&mut b, base);
    match b {
        TomlValue::Table(mut bs) => {
            let ghost bs0 = bs@;
            let ghost ev = entries_view(bs0);
            proof {
                lemma_entries_view(bs0);
                lemma_key_index_from(ev, "plugins"@, 0);
            }
            let j = find_key(&bs, "plugins");
            if j < bs.len() {
                let (k, v) = bs.remove(j);
                assert(ev[j as int] == (k@, toml_of(v)));
                match v {
                    TomlValue::Array(mut items) => {
                        let ghost items0 = items@;
                        let ghost iv = items_view(items0);
                        proof {
                            lemma_items_view(items0);
                        }
                        let mut out: Vec<TomlValue> = Vec::new();
                        let n = items.len();
                        let mut i: usize = 0;
                        assert(items@ =~= items0.skip(0));
                        while i < n
                            invariant
                                nv == names@.map_values(|x: String| x@),
                                n == items0.len(),
                                iv == items_view(items0),
                                iv.len() == n,
                                forall|t: int| 0 <= t < n ==> #[trigger] iv[t] == toml_of(items0[t]),
                                i <= n,
                                items@ == items0.skip(i as int),
                                items_view(out@) == kept(iv, nv, i as int),
                            decreases n - i,
                        {
                            let e = items.remove(0);
                            assert(items0[i as int] == e);
                            let gone = is_removed(&e, names);
                            if !gone {
                                let ghost before = out@;
                                out.push(e);
                                proof {
                                    lemma_items_view(before);
                                    lemma_items_view(out@);
                                    assert(items_view(out@) =~= items_view(before).push(toml_of(e)));
                                }
                            }
                            assert(items@ =~= items0.skip(i + 1));
                            i = i + 1;
                        }
                        let ghost kv = kept(iv, nv, n as int);
                        bs.insert(j, (k, TomlValue::Array(out)));
                        proof {
                            lemma_entries_view(bs@);
                            assert(entries_view(bs@) =~= ev.update(j as int, (ev[j as int].0, Toml::Array(kv))));
                        }
                        *base = TomlValue::Table(bs);
                    },
                    other => {
                        bs.insert(j, (k, other));
                        proof {
                            assert(bs@ =~= bs0);
                        }
                        *base = TomlValue::Table(bs);
                    },
                }
            } else {
                *base = TomlValue::Table(bs);
            }
        },
        other => {
            *base = other;
        },
    }
}

/// Copies of the entries of the `plugins` list of `b`.
fn plugin_items_of(b: &TomlValue) -> (r: Vec<TomlValue>)
    ensures
        items_view(r@) == plugin_items(toml_of(*b)),
{
    let mut out: Vec<TomlValue> = Vec::new();
    proof {
        lemma_items_view(out@);
    }
    match b {
        TomlValue::Table(bs) => {
            let ghost ev = entries_view(bs@);
            proof {
                lemma_entries_view(bs@);
                lemma_key_index_from(ev, "plugins"@, 0);
            }
            let j = find_key(bs, "plugins");
            if j < bs.len() {
                assert(ev[j as int] == (bs@[j as int].0@, toml_of(bs@[j as int].1)));
                match &bs[j].1 {
                    TomlValue::Array(items) => {
                        let ghost iv = items_view(items@);
                        proof {
                            lemma_items_view(items@);
                        }
                        let mut i: usize = 0;
                        while i < items.len()
                            invariant
                                iv == items_view(items@),
                                iv.len() == items@.len(),
                                forall|t: int| 0 <= t < items@.len() ==> #[trigger] iv[t] == toml_of(items@[t]),
                                i <= items@.len(),
                                items_view(out@) == iv.take(i as int),
                            decreases items.len() - i,
                        {
                            let c = duplicate(&items[i]);
                            let ghost before = out@;
                            out.push(c);
                            proof {
                                lemma_items_view(before);
                                lemma_items_view(out@);
                                assert(items_view(out@) =~= iv.take(i + 1));
                            }
                            i = i + 1;
                        }
                        assert(iv.take(items@.len() as int) =~= iv);
                    },
                    _ => {},
                }
            }
        },
        _ => {},
    }
    out
}

/// Combine the plugin entries `incoming` by name (see `by_name`).
fn combine_by_name(incoming: Vec<TomlValue>) -> (r: Vec<TomlValue>)
    ensures
        items_view(r@) == by_name(items_view(incoming@), incoming@.len() as int),
{
    let ghost in0 = incoming@;
    let ghost iv = items_view(in0);
    proof {
        lemma_items_view(in0);
    }
    let mut incoming = incoming;
    let mut acc: Vec<TomlValue> = Vec::new();
    let n = incoming.len();
    let mut i: usize = 0;
    assert(incoming@ =~= in0.skip(0));
    proof {
        lemma_items_view(acc@);
    }
    while i < n
        invariant
            n == in0.len(),
            iv == items_view(in0),
            iv.len() == n,
            forall|t: int| 0 <= t < n ==> #[trigger] iv[t] == toml_of(in0[t]),
            i <= n,
            incoming@ == in0.skip(i as int),
            items_view(acc@) == by_name(iv, i as int),
        decreases n - i,
    {
        let e = incoming.remove(0);
        assert(in0[i as int] == e);
        let ghost av = items_view(acc@);
        proof {
            lemma_items_view(acc@);
        }
        match plugin_name(&e) {
            Some(nm) => {
                let mut j: usize = 0;
                proof {
                    lemma_name_index(av, nm@, 0);
                }
                while j < acc.len()
                    invariant
                        av == items_view(acc@),
                        av.len() == acc@.len(),
                        forall|t: int| 0 <= t < acc@.len() ==> #[trigger] av[t] == toml_of(acc@[t]),
                        j <= acc@.len(),
                        name_index(av, nm@, 0) == name_index(av, nm@, j as int),
                    ensures
                        j == name_index(av, nm@, 0),
                    decreases acc.len() - j,
                {
                    let same = match plugin_name(&acc[j]) {
                        Some(m) => m == nm,
                        None => false,
                    };
                    if same {
                        assert(name_of(av[j as int]) == Some(nm@));
                        break;
                    }
                    j = j + 1;
                }
                if j < acc.len() {
                    acc.set(j, e);
                    proof {
                        lemma_items_view(acc@);
                        assert(items_view(acc@) =~= av.update(j as int, toml_of(e)));
                    }
                } else {
                    acc.push(e);
                    proof {
                        lemma_items_view(acc@);
                        assert(items_view(acc@) =~= av.push(toml_of(e)));
                    }
                }
            },
            None => {
                acc.push(e);
                proof {
                    lemma_items_view(acc@);
                    assert(items_view(acc@) =~= av.push(toml_of(e)));
                }
            },
        }
        assert(incoming@ =~= in0.skip(i + 1));
        i = i + 1;
    }
    acc
}

/// Lay the layer whose table entries are `overlay` over `base`, after its
/// plugin controls: `plugins_remove` names plugins to take out of `base`'s
/// list first, and `plugins_merge = "name"` combines a plugin list the layer
/// brings with `base`'s by plugin name instead of replacing it. Invalid
/// controls leave `base` as it was.
pub fn merge_config(base: &mut TomlValue, overlay: Vec<(String, TomlValue)>) -> (r: Result<(), ControlError>)
    ensures
        match control_error(entries_view(overlay@)) {
            Some(e) => r == Err::<(), ControlError>(e) && *final(base) == *old(base),
            None => r is Ok && toml_of(*final(base)) == configured(
                toml_of(*old(base)),
                entries_view(overlay@),
                merge_mode_of(entries_view(overlay@))->0,
                removals_of(entries_view(overlay@))->0,
            ),
        },
{
    let (mode, names) = match plugin_controls(&overlay) {
        Ok(c) => c,
        Err(e) => {
            return Err(e);
        },
    };
    let ghost ov = entries_view(overlay@);
    let ghost nv = names@.map_values(|x: String| x@);
    let ghost b0 = toml_of(*base);
    proof {
        lemma_entries_view(overlay@);
    }
    let ghost os0 = overlay@;
    let mut rest = overlay;
    let mut o1: Vec<(String, TomlValue)> = Vec::new();
    let n = rest.len();
    let mut i: usize = 0;
    assert(rest@ =~= os0.skip(0));
    proof {
        lemma_entries_view(o1@);
    }
    while i < n
        invariant
            n == os0.len(),
            ov == entries_view(os0),
            ov.len() == n,
            forall|t: int| 0 <= t < n ==> #[trigger] ov[t] == (os0[t].0@, toml_of(os0[t].1)),
            i <= n,
            rest@ == os0.skip(i as int),
            entries_view(o1@) == without_controls(ov, i as int),
        decreases n - i,
    {
        let (k, v) = rest.remove(0);
        assert(os0[i as int] == (k, v));
        if !(same_text(&k, "plugins_merge") || same_text(&k, "plugins_remove")) {
            let ghost before = o1@;
            o1.push((k, v));
            proof {
                lemma_entries_view(before);
                lemma_entries_view(o1@);
                assert(entries_view(o1@) =~= entries_view(before).push(ov[i as int]));
            }
        }
        assert(rest@ =~= os0.skip(i + 1));
        i = i + 1;
    }
    let ghost o1v = entries_view(o1@);
    thin_plugins(base, &names);
    let ghost b1 = toml_of(*base);
    assert(b1 == thinned(b0, nv));
    proof {
        lemma_entries_view(o1@);
        lemma_key_index_from(o1v, "plugins"@, 0);
    }
    let j = find_key(&o1, "plugins");
    if mode == PluginMerge::Name && j < o1.len() {
        let (k, v) = o1.remove(j);
        assert(o1v[j as int] == (k@, toml_of(v)));
        match v {
            TomlValue::Array(entries) => {
                let ghost ev = items_view(entries@);
                let mut incoming = plugin_items_of(base);
                let ghost pv = items_view(incoming@);
                let ghost inc0 = incoming@;
                proof {
                    lemma_items_view(entries@);
                    lemma_items_view(incoming@);
                }
                let mut entries = entries;
                let ghost en0 = entries@;
                let m = entries.len();
                let mut t: usize = 0;
                assert(entries@ =~= en0.skip(0));
                while t < m
                    invariant
                        m == en0.len(),
                        ev == items_view(en0),
                        ev.len() == m,
                        forall|u: int| 0 <= u < m ==> #[trigger] ev[u] == toml_of(en0[u]),
                        pv.len() == inc0.len(),
                        forall|u: int| 0 <= u < inc0.len() ==> #[trigger] pv[u] == toml_of(inc0[u]),
                        t <= m,
                        entries@ == en0.skip(t as int),
                        incoming@ == inc0 + en0.take(t as int),
                    decreases m - t,
                {
                    let e = entries.remove(0);
                    assert(en0[t as int] == e);
                    incoming.push(e);
                    assert(incoming@ =~= inc0 + en0.take(t + 1));
                    assert(entries@ =~= en0.skip(t + 1));
                    t = t + 1;
                }
                proof {
                    lemma_items_view(incoming@);
                    assert(en0.take(m as int) =~= en0);
                    assert(items_view(incoming@) =~= pv + ev);
                }
                let combined = combine_by_name(incoming);
                o1.insert(j, (k, TomlValue::Array(combined)));
                proof {
                    lemma_entries_view(o1@);
                    assert(entries_view(o1@) =~= o1v.update(
                        j as int,
                        (o1v[j as int].0, Toml::Array(by_name(pv + ev, (pv + ev).len() as int))),
                    ));
                }
            },
            other => {
                o1.insert(j, (k, other));
                proof {
                    lemma_entries_view(o1@);
                    assert(entries_view(o1@) =~= o1v);
                }
            },
        }
    }
    merge(base, TomlValue::Table(o1));
    Ok(())
}

/// Whether no two entries of `es` share a key.
pub open spec fn unique_keys(es: Seq<(Seq<char>, Toml)>) -> bool {
    forall|i: int, j: int| 0 <= i < j < es.len() ==> #[trigger] es[i].0 != #[trigger] es[j].0
}

proof fn lemma_key_index_update(es: Seq<(Seq<char>, Toml)>, j: int, e: (Seq<char>, Toml), k: Seq<char>)
    requires
        0 <= j < es.len(),
        e.0 == es[j].0,
    ensures
        key_index(es.update(j, e), k) == key_index(es, k),
{
    let u = es.update(j, e);
    lemma_key_index_from(es, k, 0);
    lemma_key_index_from(u, k, 0);
    let a = key_index(es, k);
    let b = key_index(u, k);
    if a < b {
        assert(u[a].0 == es[a].0);
    } else if b < a {
        assert(u[b].0 == es[b].0);
    }
}

proof fn lemma_key_index_push(es: Seq<(Seq<char>, Toml)>, e: (Seq<char>, Toml), k: Seq<char>)
    ensures
        key_index(es.push(e), k) == (if key_index(es, k) < es.len() || e.0 == k {
            key_index(es, k)
        } else {
            es.len() + 1int
        }),
{
    let u = es.push(e);
    lemma_key_index_from(es, k, 0);
    lemma_key_index_from(u, k, 0);
    let a = key_index(es, k);
    let b = key_index(u, k);
    assert(u[es.len() as int] == e);
    if a < b && a < es.len() {
        assert(u[a].0 == es[a].0);
    } else if b < a {
        assert(u[b].0 == es[b].0);
    }
}

/// What key `k` of a table holds after `v` (the overlay's value for `k`, if
/// any) is laid over `bv` (the base's).
pub open spec fn laid_value(bv: Option<Toml>, v: Option<Toml>) -> Option<Toml> {
    match v {
        None => bv,
        Some(o) => match bv {
            Some(b) => if b is Table && o is Table {
                Some(merged(b, o))
            } else {
                Some(o)
            },
            None => Some(o),
        },
    }
}

proof fn lemma_laid_entries_by_key(bs: Seq<(Seq<char>, Toml)>, os: Seq<(Seq<char>, Toml)>, n: int, k: Seq<char>)
    requires
        0 <= n <= os.len(),
        unique_keys(os),
    ensures
        get_entry(laid_entries(bs, os, n), k) == laid_value(get_entry(bs, k), get_entry(os.take(n), k)),
    decreases n,
{
    if n > 0 {
        lemma_laid_entries_by_key(bs, os, n - 1, k);
        let acc = laid_entries(bs, os, n - 1);
        let kn = os[n - 1].0;
        let v = os[n - 1].1;
        let j = key_index(acc, kn);
        lemma_key_index_from(acc, kn, 0);
        let t = os.take(n);
        let t1 = os.take(n - 1);
        assert(t1 =~= t.drop_last());
        lemma_key_index_from(t, k, 0);
        lemma_key_index_from(t1, k, 0);
        if k == kn {
            // No earlier overlay entry has this key.
            assert(key_index(t1, k) == t1.len()) by {
                if key_index(t1, k) < t1.len() {
                    assert(t1[key_index(t1, k)].0 == os[key_index(t1, k)].0);
                }
            }
            assert(t[n - 1] == os[n - 1]);
            assert(key_index(t, k) == n - 1) by {
                if key_index(t, k) < n - 1 {
                    assert(t[key_index(t, k)] == t1[key_index(t, k)]);
                }
            }
            if j < acc.len() {
                let e = if acc[j].1 is Table && v is Table {
                    (kn, merged(acc[j].1, v))
                } else {
                    (kn, v)
                };
                lemma_key_index_update(acc, j, e, k);
            } else {
                lemma_key_index_push(acc, (kn, v), k);
            }
        } else {
            assert(key_index(t, k) == key_index(t1, k) || (key_index(t, k) == t.len() && key_index(t1, k) == t1.len())) by {
                let a = key_index(t, k);
                let b = key_index(t1, k);
                if a < b && a < t1.len() {
                    assert(t1[a] == t[a]);
                } else if b < a && b < t1.len() {
                    assert(t[b] == t1[b]);
                }
            }
            if j < acc.len() {
                let e = if acc[j].1 is Table && v is Table {
                    (kn, merged(acc[j].1, v))
                } else {
                    (kn, v)
                };
                lemma_key_index_update(acc, j, e, k);
                lemma_key_index_from(acc, k, 0);
            } else {
                lemma_key_index_push(acc, (kn, v), k);
                lemma_key_index_from(acc, k, 0);
            }
        }
    }
}

/// Laying a table over another works key by key: a key the overlay does
/// not have keeps the base's value, a table laid over a table merges into
/// it, and any other overlay value wins.
pub proof fn law_tables_merge_key_by_key(bs: Seq<(Seq<char>, Toml)>, os: Seq<(Seq<char>, Toml)>, k: Seq<char>)
    requires
        unique_keys(os),
    ensures
        field(merged(Toml::Table(bs), Toml::Table(os)), k) == laid_value(get_entry(bs, k), get_entry(os, k)),
{
    lemma_laid_entries_by_key(bs, os, os.len() as int, k);
    assert(os.take(os.len() as int) =~= os);
}

/// A value that is not a table replaces what it is laid over, and anything
/// laid over a value that is not a table replaces it.
pub proof fn law_non_tables_replace(b: Toml, o: Toml)
    requires
        !(b is Table) || !(o is Table),
    ensures
        merged(b, o) == o,
{
}

/// Whether no two of `items` bear the same name.
pub open spec fn distinct_names(items: Seq<Toml>) -> bool {
    forall|i: int, j: int|
        0 <= i < j < items.len() && (#[trigger] name_of(items[i])) is Some ==> name_of(items[i]) != #[trigger] name_of(items[j])
}

/// Plugin lists combined by name hold each name at most once.
pub proof fn law_name_merge_leaves_one_entry_per_name(incoming: Seq<Toml>, n: int)
    requires
        0 <= n <= incoming.len(),
    ensures
        distinct_names(by_name(incoming, n)),
    decreases n,
{
    if n > 0 {
        law_name_merge_leaves_one_entry_per_name(incoming, n - 1);
        let acc = by_name(incoming, n - 1);
        let e = incoming[n - 1];
        let r = by_name(incoming, n);
        match name_of(e) {
            Some(nm) => {
                lemma_name_index(acc, nm, 0);
                let j = name_index(acc, nm, 0);
                if j < acc.len() {
                    assert forall|a: int, b: int|
                        0 <= a < b < r.len() && (#[trigger] name_of(r[a])) is Some implies name_of(r[a]) != #[trigger] name_of(r[b]) by {
                        assert(name_of(r[a]) == name_of(acc[a]));
                        assert(name_of(r[b]) == name_of(acc[b]));
                    }
                } else {
                    assert forall|a: int, b: int|
                        0 <= a < b < r.len() && (#[trigger] name_of(r[a])) is Some implies name_of(r[a]) != #[trigger] name_of(r[b]) by {
                        assert(r[a] == acc[a]);
                        if b < acc.len() {
                            assert(r[b] == acc[b]);
                        } else {
                            assert(name_of(acc[a]) != Some(nm));
                        }
                    }
                }
            },
            None => {
                assert forall|a: int, b: int|
                    0 <= a < b < r.len() && (#[trigger] name_of(r[a])) is Some implies name_of(r[a]) != #[trigger] name_of(r[b]) by {
                    assert(r[a] == acc[a]);
                    if b < acc.len() {
                        assert(r[b] == acc[b]);
                    }
                }
            },
        }
    }
}

proof fn lemma_laid_entries_absent(bs: Seq<(Seq<char>, Toml)>, os: Seq<(Seq<char>, Toml)>, n: int, k: Seq<char>)
    requires
        0 <= n <= os.len(),
        forall|i: int| 0 <= i < n ==> (#[trigger] os[i]).0 != k,
    ensures
        get_entry(laid_entries(bs, os, n), k) == get_entry(bs, k),
    decreases n,
{
    if n > 0 {
        lemma_laid_entries_absent(bs, os, n - 1, k);
        let acc = laid_entries(bs, os, n - 1);
        let kn = os[n - 1].0;
        let v = os[n - 1].1;
        assert(os[n - 1].0 != k);
        let j = key_index(acc, kn);
        lemma_key_index_from(acc, kn, 0);
        lemma_key_index_from(acc, k, 0);
        if j < acc.len() {
            let e = if acc[j].1 is Table && v is Table {
                (kn, merged(acc[j].1, v))
            } else {
                (kn, v)
            };
            lemma_key_index_update(acc, j, e, k);
        } else {
            lemma_key_index_push(acc, (kn, v), k);
        }
    }
}

proof fn lemma_without_controls(os: Seq<(Seq<char>, Toml)>, n: int)
    requires
        0 <= n <= os.len(),
    ensures
        forall|i: int| 0 <= i < without_controls(os, n).len() ==> !is_control((#[trigger] without_controls(os, n)[i]).0),
    decreases n,
{
    if n > 0 {
        lemma_without_controls(os, n - 1);
        let w = without_controls(os, n - 1);
        let r = without_controls(os, n);
        assert forall|i: int| 0 <= i < r.len() implies !is_control((#[trigger] r[i]).0) by {
            if i < w.len() {
                assert(r[i] == w[i]);
            }
        }
    }
}

/// A layer's plugin controls act on that layer alone: they never become
/// keys of the configuration it is laid over.
pub proof fn law_controls_do_not_carry_forward(b: Toml, os: Seq<(Seq<char>, Toml)>, mode: PluginMerge, names: Seq<Seq<char>>, k: Seq<char>)
    requires
        is_control(k),
    ensures
        field(configured(b, os, mode, names), k) == field(b, k),
{
    reveal_strlit("plugins");
    reveal_strlit("plugins_merge");
    reveal_strlit("plugins_remove");
    let o1 = without_controls(os, os.len() as int);
    lemma_without_controls(os, os.len() as int);
    let b1 = thinned(b, names);
    let j = key_index(o1, "plugins"@);
    lemma_key_index_from(o1, "plugins"@, 0);
    let o2 = if mode == PluginMerge::Name && 0 <= j < o1.len() && o1[j].1 is Array {
        let incoming = plugin_items(b1) + o1[j].1->Array_0;
        o1.update(j, (o1[j].0, Toml::Array(by_name(incoming, incoming.len() as int))))
    } else {
        o1
    };
    assert forall|i: int| 0 <= i < o2.len() implies (#[trigger] o2[i]).0 != k by {
        assert(o2[i].0 == o1[i].0);
        assert(!is_control(o1[i].0));
    }
    match b1 {
        Toml::Table(bs1) => {
            lemma_laid_entries_absent(bs1, o2, o2.len() as int, k);
            match b {
                Toml::Table(bs) => {
                    let p = key_index(bs, "plugins"@);
                    lemma_key_index_from(bs, "plugins"@, 0);
                    if 0 <= p < bs.len() && bs[p].1 is Array {
                        let items = bs[p].1->Array_0;
                        assert(k.len() != "plugins"@.len());
                        lemma_key_index_update(bs, p, (bs[p].0, Toml::Array(kept(items, names, items.len() as int))), k);
                        lemma_key_index_from(bs, k, 0);
                        if key_index(bs, k) < bs.len() {
                            assert(key_index(bs, k) != p);
                        }
                    }
                },
                _ => {},
            }
        },
        _ => {
            lemma_key_index_from(o2, k, 0);
        },
    }
}

proof fn lemma_kept_none(items: Seq<Toml>, n: int)
    requires
        0 <= n <= items.len(),
    ensures
        kept(items, Seq::empty(), n) == items.take(n),
    decreases n,
{
    if n > 0 {
        lemma_kept_none(items, n - 1);
        assert(items.take(n) =~= items.take(n - 1).push(items[n - 1]));
    } else {
        assert(items.take(0) =~= Seq::<Toml>::empty());
    }
}

/// An empty layer leaves a configuration table as it was.
pub proof fn law_empty_layer_changes_nothing(bs: Seq<(Seq<char>, Toml)>)
    ensures
        configured(Toml::Table(bs), Seq::empty(), PluginMerge::Replace, Seq::empty()) == Toml::Table(bs),
{
    let b = Toml::Table(bs);
    let j = key_index(bs, "plugins"@);
    if 0 <= j < bs.len() {
        match bs[j].1 {
            Toml::Array(items) => {
                lemma_kept_none(items, items.len() as int);
                assert(items.take(items.len() as int) =~= items);
                assert(bs.update(j, (bs[j].0, Toml::Array(items))) =~= bs);
            },
            _ => {},
        }
    }
    assert(thinned(b, Seq::empty()) == b);
    assert(without_controls(Seq::<(Seq<char>, Toml)>::empty(), 0) =~= Seq::<(Seq<char>, Toml)>::empty());
}

} // verus!
