//! Where the configuration comes from and how its layers combine: the base
//! document, then the drop-ins of `conf.d/` in name order, then the
//! per-cluster and per-context overrides, each laid over the result so far.
//! Reading the files is left to the caller; parsing a document and laying
//! the layers are here.

use crate::config::{sanitize, sanitized, sorted_unique, texts};
use crate::layers::{
    configured, control_error, duplicate, entries_view, field, find_key, merge, merge_config, merged, merge_mode_of,
    name_of, removals_of, toml_of, ControlError, Toml, TomlValue,
};
use crate::order::strictly_sorted;
use vstd::prelude::*;
use vstd::string::StringExecFns;

verus! {

#[verifier::external_type_specification]
#[verifier::external_body]
pub struct ExTomlValue(toml::Value);

/// Whether `toml` reads `text` as a TOML document.
pub uninterp spec fn toml_document_valid(text: Seq<char>) -> bool;

/// The table entries `toml` reads from the TOML document `text`.
pub uninterp spec fn toml_document(text: Seq<char>) -> Seq<(Seq<char>, Toml)>;

/// The message of `toml`'s error for the text `text`.
pub uninterp spec fn toml_error(text: Seq<char>) -> Seq<char>;

/// Whether `serde_yaml` reads `text` as a YAML document of TOML values.
pub uninterp spec fn yaml_document_valid(text: Seq<char>) -> bool;

/// The value `serde_yaml` reads from the YAML document `text`.
pub uninterp spec fn yaml_document(text: Seq<char>) -> Toml;

/// The message of `serde_yaml`'s error for the text `text`.
pub uninterp spec fn yaml_error(text: Seq<char>) -> Seq<char>;

/// A `toml::Value` as a `TomlValue`, variant for variant (a float by its
/// bits, a date-time by its text). Only converts; nothing is stated of it
/// beyond what the parsing items state of their results.
#[verifier::external_body]
fn toml_model(v: toml::Value) -> TomlValue {
    match v {
        toml::Value::String(s) => TomlValue::String(s),
        toml::Value::Integer(i) => TomlValue::Integer(i),
        toml::Value::Float(f) => TomlValue::Float(f.to_bits()),
        toml::Value::Boolean(b) => TomlValue::Boolean(b),
        toml::Value::Datetime(d) => TomlValue::Datetime(d.to_string()),
        toml::Value::Array(a) => TomlValue::Array(a.into_iter().map(toml_model).collect()),
        toml::Value::Table(t) => TomlValue::Table(t.into_iter().map(|(k, v)| (k, toml_model(v))).collect()),
    }
}

/// `text.parse::<toml::Table>()`: the document's entries when `toml` reads
/// it, else its error message (both named, not spelled out).
#[verifier::external_body]
fn parse_toml_document(text: &str) -> (r: Result<Vec<(String, TomlValue)>, String>)
    ensures
        r is Ok <==> toml_document_valid(text@),
        r matches Ok(es) ==> entries_view(es@) == toml_document(text@),
        r matches Err(e) ==> e@ == toml_error(text@),
{
    match text.parse::<toml::Table>() {
        Ok(t) => Ok(t.into_iter().map(|(k, v)| (k, toml_model(v))).collect()),
        Err(e) => Err(e.to_string()),
    }
}

/// `serde_yaml::from_str::<toml::Value>(text)`: the document's value when
/// `serde_yaml` reads it, else its error message (both named).
#[verifier::external_body]
fn parse_yaml_value(text: &str) -> (r: Result<TomlValue, String>)
    ensures
        r is Ok <==> yaml_document_valid(text@),
        r matches Ok(v) ==> toml_of(v) == yaml_document(text@),
        r matches Err(e) ==> e@ == yaml_error(text@),
{
    match serde_yaml::from_str::<toml::Value>(text) {
        Ok(v) => Ok(toml_model(v)),
        Err(e) => Err(e.to_string()),
    }
}

/// What a YAML configuration document gives: its top-level mapping's
/// entries; a document that is not a mapping is refused.
pub open spec fn yaml_entries(text: Seq<char>) -> Result<Seq<(Seq<char>, Toml)>, Seq<char>> {
    if !yaml_document_valid(text) {
        Err(yaml_error(text))
    } else {
        match yaml_document(text) {
            Toml::Table(es) => Ok(es),
            _ => Err("the document is not a table of settings"@),
        }
    }
}

/// Read a YAML configuration document (see `yaml_entries`).
pub fn parse_yaml_document(text: &str) -> (r: Result<Vec<(String, TomlValue)>, String>)
    ensures
        match yaml_entries(text@) {
            Ok(es) => r matches Ok(v) && entries_view(v@) == es,
            Err(m) => r matches Err(e) && e@ == m,
        },
{
    match parse_yaml_value(text) {
        Ok(TomlValue::Table(es)) => Ok(es),
        Ok(_) => Err(String::from_str("the document is not a table of settings")),
        Err(e) => Err(e),
    }
}

/// The index of the last `.` of `name`, or -1 when it has none.
pub open spec fn last_dot(name: Seq<char>) -> int
    decreases name.len(),
{
    if name.len() == 0 {
        -1
    } else if name.last() == '.' {
        name.len() - 1
    } else {
        last_dot(name.drop_last())
    }
}

proof fn lemma_last_dot(name: Seq<char>)
    ensures
        -1 <= last_dot(name) < name.len(),
        last_dot(name) >= 0 ==> name[last_dot(name)] == '.',
        forall|i: int| last_dot(name) < i < name.len() ==> name[i] != '.',
    decreases name.len(),
{
    if name.len() > 0 && name.last() != '.' {
        let init = name.drop_last();
        lemma_last_dot(init);
        assert forall|i: int| last_dot(name) < i < name.len() implies name[i] != '.' by {
            if i < init.len() {
                assert(name[i] == init[i]);
            }
        }
    }
}

/// The extension of a file name, as `Path::extension` reads it: what
/// follows the last `.`, when that dot is not the name's first character.
pub open spec fn extension_of(name: Seq<char>) -> Option<Seq<char>> {
    let d = last_dot(name);
    if d <= 0 {
        None
    } else {
        Some(name.skip(d + 1))
    }
}

/// Whether a file name names a configuration document: a `toml`, `yaml`
/// or `yml` file.
pub open spec fn document_name(name: Seq<char>) -> bool {
    extension_of(name) == Some("toml"@) || extension_of(name) == Some("yaml"@) || extension_of(name) == Some(
        "yml"@,
    )
}

fn extension(name: &Vec<char>) -> (r: Option<String>)
    ensures
        match extension_of(name@) {
            Some(e) => r matches Some(x) && x@ == e,
            None => r is None,
        },
{
    proof {
        lemma_last_dot(name@);
    }
    let n = name.len();
    let mut k: usize = n;
    assert(name@.take(n as int) =~= name@);
    while k > 0 && name[k - 1] != '.'
        invariant
            k <= n,
            n == name@.len(),
            last_dot(name@) == last_dot(name@.take(k as int)),
        decreases k,
    {
        proof {
            assert(name@.take(k as int).drop_last() =~= name@.take(k - 1));
        }
        k = k - 1;
    }
    proof {
        if k > 0 {
            assert(name@.take(k as int).last() == '.');
        }
    }
    if k <= 1 {
        return None;
    }
    let e = crate::logs::subrange_string(name, k, n);
    assert(e@ =~= name@.skip(k as int));
    Some(e)
}

/// Whether a file name names a YAML document (extension `yaml` or `yml`).
pub open spec fn yaml_name(name: Seq<char>) -> bool {
    extension_of(name) == Some("yaml"@) || extension_of(name) == Some("yml"@)
}

/// What the document `text` of the file `name` gives: read as YAML when the
/// name says so, else as TOML.
pub open spec fn document_entries(name: Seq<char>, text: Seq<char>) -> Result<Seq<(Seq<char>, Toml)>, Seq<char>> {
    if yaml_name(name) {
        yaml_entries(text)
    } else if toml_document_valid(text) {
        Ok(toml_document(text))
    } else {
        Err(toml_error(text))
    }
}

/// Read the configuration document `text` of the file `name` (see
/// `document_entries`).
pub fn parse_document(name: &str, text: &str) -> (r: Result<Vec<(String, TomlValue)>, String>)
    ensures
        match document_entries(name@, text@) {
            Ok(es) => r matches Ok(v) && entries_view(v@) == es,
            Err(m) => r matches Err(e) && e@ == m,
        },
{
    let cs = crate::text::chars_of(name);
    let yaml = match extension(&cs) {
        Some(e) => crate::config::same_text(&e, "yaml") || crate::config::same_text(&e, "yml"),
        None => false,
    };
    if yaml {
        parse_yaml_document(text)
    } else {
        parse_toml_document(text)
    }
}

/// The names of the entries of `conf.d/` (a name and whether it is a
/// regular file) that are configuration documents, in the order given.
pub open spec fn document_files(entries: Seq<(String, bool)>) -> Seq<Seq<char>>
    decreases entries.len(),
{
    if entries.len() == 0 {
        Seq::empty()
    } else {
        let rest = document_files(entries.drop_last());
        let (name, file) = entries.last();
        if file && document_name(name@) {
            rest.push(name@)
        } else {
            rest
        }
    }
}

/// The configuration documents among the entries of `conf.d/`: the regular
/// files whose extension is `toml`, `yaml` or `yml`, sorted by name.
pub fn dropin_files(entries: &Vec<(String, bool)>) -> (r: Vec<String>)
    ensures
        strictly_sorted(texts(r@)),
        forall|t: Seq<char>| texts(r@).contains(t) <==> document_files(entries@).contains(t),
{
    let mut docs: Vec<String> = Vec::new();
    let mut i: usize = 0;
    assert(texts(docs@) =~= document_files(entries@.take(0)));
    while i < entries.len()
        invariant
            i <= entries@.len(),
            texts(docs@) == document_files(entries@.take(i as int)),
        decreases entries.len() - i,
    {
        let name = &entries[i].0;
        let cs = crate::text::chars_of(name.as_str());
        let doc = match extension(&cs) {
            Some(e) => crate::config::same_text(&e, "toml") || crate::config::same_text(&e, "yaml")
                || crate::config::same_text(&e, "yml"),
            None => false,
        };
        let ghost before = docs@;
        proof {
            assert(entries@.take(i + 1).drop_last() =~= entries@.take(i as int));
            assert(entries@.take(i + 1).last() == entries@[i as int]);
        }
        if entries[i].1 && doc {
            docs.push(name.clone());
            proof {
                assert(texts(docs@) =~= texts(before).push(name@));
            }
        }
        i = i + 1;
    }
    assert(entries@.take(entries@.len() as int) =~= entries@);
    sorted_unique(&docs)
}

/// The directories, under the configuration directory, whose documents
/// override the configuration for a cluster and a context: none without a
/// cluster; else the cluster's, then its context's when there is one.
pub open spec fn override_dirs_of(cluster: Seq<char>, context: Seq<char>) -> Seq<Seq<char>> {
    if cluster.len() == 0 {
        Seq::empty()
    } else {
        let c = "clusters/"@ + sanitized(cluster);
        if context.len() == 0 {
            seq![c]
        } else {
            seq![c, c + "/"@ + sanitized(context)]
        }
    }
}

/// The override directories for `cluster` and `context` (see
/// `override_dirs_of`).
pub fn override_dirs(cluster: &str, context: &str) -> (r: Vec<String>)
    ensures
        texts(r@) == override_dirs_of(cluster@, context@),
{
    let mut out: Vec<String> = Vec::new();
    if crate::text::chars_of(cluster).len() == 0 {
        assert(texts(out@) =~= override_dirs_of(cluster@, context@));
        return out;
    }
    let mut c = String::from_str("clusters/");
    c.append(sanitize(cluster).as_str());
    let mut d = c.clone();
    out.push(c);
    if crate::text::chars_of(context).len() > 0 {
        d.append("/");
        d.append(sanitize(context).as_str());
        out.push(d);
    }
    assert(texts(out@) =~= override_dirs_of(cluster@, context@));
    out
}

/// The message for invalid plugin controls.
pub open spec fn control_message(e: ControlError) -> Seq<char> {
    match e {
        ControlError::PluginsMerge => "plugins_merge must be \"replace\" or \"name\""@,
        ControlError::PluginsRemove => "plugins_remove must be a list of plugin names"@,
    }
}

fn control_text(e: ControlError) -> (r: String)
    ensures
        r@ == control_message(e),
{
    match e {
        ControlError::PluginsMerge => String::from_str("plugins_merge must be \"replace\" or \"name\""),
        ControlError::PluginsRemove => String::from_str("plugins_remove must be a list of plugin names"),
    }
}

/// A layer as read: its path, and its entries or why it could not be read.
pub type LayerView = (Seq<char>, Result<Seq<(Seq<char>, Toml)>, Seq<char>>);

/// A layer as handed in: its path, its entries or why it could not be
/// read, and why its entries do not read as a configuration, if they do
/// not (the verdict of a type check made by the caller).
pub type Layer = (String, Result<Vec<(String, TomlValue)>, String>, Option<String>);

/// The layers as read: a layer whose entries fail the type check counts as
/// one that could not be read, with the check's complaint.
pub open spec fn layers_view(ls: Seq<Layer>) -> Seq<LayerView> {
    ls.map_values(
        |l: Layer|
            (
                l.0@,
                match l.1 {
                    Ok(es) => match l.2 {
                        Some(e) => Err(e@),
                        None => Ok(entries_view(es@)),
                    },
                    Err(e) => Err(e@),
                },
            ),
    )
}

/// `os` laid over `b` by `merge_config`: `None` when its plugin controls
/// are refused.
pub open spec fn laid_layer(b: Toml, os: Seq<(Seq<char>, Toml)>) -> Option<Toml> {
    match control_error(os) {
        Some(_) => None,
        None => Some(configured(b, os, merge_mode_of(os)->0, removals_of(os)->0)),
    }
}

/// The warning for a layer at `path` that is not used.
pub open spec fn skipped(path: Seq<char>, why: Seq<char>) -> Seq<char> {
    "ignoring invalid "@ + path + ": "@ + why
}

/// The first `n` layers of `ls` laid over `b` in order, with the warnings
/// `ws` grown by one for each layer that cannot be read or whose controls
/// are refused (such a layer is skipped); `over` gathers, by `merge`, the
/// layers that were used, when `track` is set.
pub open spec fn laid_layers(b: Toml, over: Toml, ws: Seq<Seq<char>>, ls: Seq<LayerView>, track: bool, n: int) -> (
    Toml,
    Toml,
    Seq<Seq<char>>,
)
    decreases n,
{
    if n <= 0 || n > ls.len() {
        (b, over, ws)
    } else {
        let prev = laid_layers(b, over, ws, ls, track, n - 1);
        let (path, layer) = ls[n - 1];
        match layer {
            Err(e) => (prev.0, prev.1, prev.2.push(skipped(path, e))),
            Ok(os) => match laid_layer(prev.0, os) {
                Some(nb) => (nb, if track { merged(prev.1, Toml::Table(os)) } else { prev.1 }, prev.2),
                None => (prev.0, prev.1, prev.2.push(skipped(path, control_message(control_error(os)->0)))),
            },
        }
    }
}

/// A layer that cannot be read, or whose plugin controls are refused, is
/// skipped: what the earlier layers made stays as it was, and one warning
/// naming the layer's path is added; a layer that is used adds no warning.
pub proof fn law_bad_layer_is_skipped_with_a_warning(b: Toml, over: Toml, ws: Seq<Seq<char>>, ls: Seq<LayerView>, track: bool, n: int)
    requires
        1 <= n <= ls.len(),
    ensures
        ({
            let prev = laid_layers(b, over, ws, ls, track, n - 1);
            let next = laid_layers(b, over, ws, ls, track, n);
            let (path, layer) = ls[n - 1];
            match layer {
                Err(e) => next == (prev.0, prev.1, prev.2.push(skipped(path, e))),
                Ok(os) => match control_error(os) {
                    Some(c) => next == (prev.0, prev.1, prev.2.push(skipped(path, control_message(c)))),
                    None => next.2 == prev.2 && next.0 == configured(prev.0, os, merge_mode_of(os)->0, removals_of(os)->0),
                },
            }
        }),
{
}

/// Without drop-ins and overrides, the configuration is the base as laid,
/// and no layer adds a warning.
pub proof fn law_no_layers_keep_the_base(b: Toml, over: Toml, ws: Seq<Seq<char>>, ls: Seq<LayerView>, track: bool)
    requires
        ls.len() == 0,
    ensures
        laid_layers(b, over, ws, ls, track, ls.len() as int) == (b, over, ws),
{
}

/// The base document as laid over an empty table, with its warning when
/// its controls are refused.
pub open spec fn base_layer(base: Option<Seq<(Seq<char>, Toml)>>) -> (Toml, Seq<Seq<char>>) {
    match base {
        None => (Toml::Table(Seq::empty()), Seq::empty()),
        Some(os) => match laid_layer(Toml::Table(Seq::empty()), os) {
            Some(b) => (b, Seq::empty()),
            None => (
                Toml::Table(Seq::empty()),
                seq!["ignoring invalid base config: "@ + control_message(control_error(os)->0)],
            ),
        },
    }
}

fn copy_entries(es: &Vec<(String, TomlValue)>) -> (r: Vec<(String, TomlValue)>)
    ensures
        entries_view(r@) == entries_view(es@),
{
    let mut out: Vec<(String, TomlValue)> = Vec::new();
    let mut i: usize = 0;
    proof {
        crate::layers::lemma_entries_view(es@);
    }
    while i < es.len()
        invariant
            i <= es@.len(),
            out@.len() == i,
            forall|j: int| 0 <= j < i ==> (#[trigger] out@[j]).0@ == es@[j].0@ && toml_of(out@[j].1) == toml_of(es@[j].1),
        decreases es.len() - i,
    {
        let k = es[i].0.clone();
        let v = duplicate(&es[i].1);
        out.push((k, v));
        i = i + 1;
    }
    proof {
        crate::layers::lemma_entries_view(out@);
        assert(entries_view(out@) =~= entries_view(es@));
    }
    out
}

fn lay_layers(
    current: &mut TomlValue,
    over: &mut TomlValue,
    warnings: &mut Vec<String>,
    layers: Vec<Layer>,
    track: bool,
)
    ensures
        (toml_of(*final(current)), toml_of(*final(over)), texts(final(warnings)@)) == laid_layers(
            toml_of(*old(current)),
            toml_of(*old(over)),
            texts(old(warnings)@),
            layers_view(layers@),
            track,
            layers@.len() as int,
        ),
{
    let ghost lv = layers_view(layers@);
    let ghost b0 = toml_of(*current);
    let ghost o0 = toml_of(*over);
    let ghost w0 = texts(warnings@);
    let ghost l0 = layers@;
    let mut layers = layers;
    let n = layers.len();
    let mut i: usize = 0;
    assert(layers@ =~= l0.skip(0));
    while i < n
        invariant
            n == l0.len(),
            lv == layers_view(l0),
            i <= n,
            layers@ == l0.skip(i as int),
            (toml_of(*current), toml_of(*over), texts(warnings@)) == laid_layers(b0, o0, w0, lv, track, i as int),
        decreases n - i,
    {
        let (path, read, verdict) = layers.remove(0);
        assert(l0[i as int] == (path, read, verdict));
        let ghost before = texts(warnings@);
        let layer = match read {
            Ok(os) => match verdict {
                Some(e) => Err(e),
                None => Ok(os),
            },
            Err(e) => Err(e),
        };
        match layer {
            Err(e) => {
                let mut w = String::from_str("ignoring invalid ");
                w.append(path.as_str());
                w.append(": ");
                w.append(e.as_str());
                warnings.push(w);
                assert(texts(warnings@) =~= before.push(skipped(path@, e@)));
            },
            Ok(os) => {
                let copy = if track { copy_entries(&os) } else { Vec::new() };
                match merge_config(current, os) {
                    Ok(()) => {
                        if track {
                            merge(over, TomlValue::Table(copy));
                        }
                    },
                    Err(e) => {
                        let m = control_text(e);
                        let mut w = String::from_str("ignoring invalid ");
                        w.append(path.as_str());
                        w.append(": ");
                        w.append(m.as_str());
                        warnings.push(w);
                        assert(texts(warnings@) =~= before.push(skipped(path@, m@)));
                    },
                }
            },
        }
        assert(layers@ =~= l0.skip(i + 1));
        i = i + 1;
    }
}

/// Combine the configuration's layers: the base document (when there is
/// one) laid over an empty table, then each drop-in in the order given,
/// then each override. A layer that could not be read, that does not read
/// as a configuration, or whose plugin controls are refused, is skipped on
/// its own with the warning `ignoring invalid <path>: <why>`. Returns the base as laid, the full result, the
/// overrides alone merged together, and the warnings in order.
pub fn resolve_layers(
    base: Option<Vec<(String, TomlValue)>>,
    dropins: Vec<Layer>,
    overrides: Vec<Layer>,
) -> (r: (TomlValue, TomlValue, TomlValue, Vec<String>))
    ensures
        ({
            let b = base_layer(
                match base {
                    Some(es) => Some(entries_view(es@)),
                    None => None,
                },
            );
            let d = laid_layers(b.0, Toml::Table(Seq::empty()), b.1, layers_view(dropins@), false, dropins@.len() as int);
            let o = laid_layers(d.0, Toml::Table(Seq::empty()), d.2, layers_view(overrides@), true, overrides@.len() as int);
            &&& toml_of(r.0) == b.0
            &&& toml_of(r.1) == o.0
            &&& toml_of(r.2) == o.1
            &&& texts(r.3@) == o.2
        }),
{
    let mut warnings: Vec<String> = Vec::new();
    let mut b = TomlValue::Table(Vec::new());
    proof {
        crate::layers::lemma_entries_view(Seq::<(String, TomlValue)>::empty());
        assert(toml_of(b) == Toml::Table(Seq::empty()));
        assert(texts(warnings@) =~= Seq::<Seq<char>>::empty());
    }
    match base {
        Some(es) => match merge_config(&mut b, es) {
            Ok(()) => {},
            Err(e) => {
                let m = control_text(e);
                let mut w = String::from_str("ignoring invalid base config: ");
                w.append(m.as_str());
                warnings.push(w);
                assert(texts(warnings@) =~= seq!["ignoring invalid base config: "@ + control_message(e)]);
            },
        },
        None => {},
    }
    let mut current = duplicate(&b);
    let mut unused = TomlValue::Table(Vec::new());
    lay_layers(&mut current, &mut unused, &mut warnings, dropins, false);
    let mut over = TomlValue::Table(Vec::new());
    lay_layers(&mut current, &mut over, &mut warnings, overrides, true);
    (b, current, over, warnings)
}

/// The skin the overrides pin: the `name` under `skin` of the overlay the
/// overrides make, when it is a string.
pub open spec fn skin_override_of(overlay: Toml) -> Option<Seq<char>> {
    match field(overlay, "skin"@) {
        Some(s) => name_of(s),
        None => None,
    }
}

/// The skin the overrides pin (see `skin_override_of`).
pub fn skin_override(overlay: &TomlValue) -> (r: Option<String>)
    ensures
        crate::config::opt_text(r) == skin_override_of(toml_of(*overlay)),
{
    match overlay {
        TomlValue::Table(es) => {
            let ghost ev = entries_view(es@);
            proof {
                crate::layers::lemma_entries_view(es@);
                crate::layers::lemma_key_index_from(ev, "skin"@, 0);
            }
            let j = find_key(es, "skin");
            if j >= es.len() {
                return None;
            }
            assert(ev[j as int] == (es@[j as int].0@, toml_of(es@[j as int].1)));
            match &es[j].1 {
                TomlValue::Table(fs) => {
                    let ghost fv = entries_view(fs@);
                    proof {
                        crate::layers::lemma_entries_view(fs@);
                        crate::layers::lemma_key_index_from(fv, "name"@, 0);
                    }
                    let k = find_key(fs, "name");
                    if k >= fs.len() {
                        return None;
                    }
                    assert(fv[k as int] == (fs@[k as int].0@, toml_of(fs@[k as int].1)));
                    match &fs[k].1 {
                        TomlValue::String(n) => Some(n.clone()),
                        _ => None,
                    }
                },
                _ => None,
            }
        },
        _ => None,
    }
}

} // verus!
