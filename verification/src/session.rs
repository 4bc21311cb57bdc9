//! The session state behind the namespace, context, sort and copy pickers,
//! and what each picker lists. Fuzzy scores come from the caller's
//! matcher: a picker that filters takes one score per candidate (`None`
//! for no match) and ranks the matches.

use crate::config::{push_text, same_text, texts};
use crate::order::{
    field_views, lex_le, pair_texts, rank, rank_fields, ranked, ranked_fields, scored_views, sort_texts,
};
use vstd::prelude::*;
use vstd::string::StringExecFns;

verus! {

/// Which view or picker has the keyboard.
#[derive(Clone, Copy, Debug, PartialEq, Eq, Structural)]
pub enum Mode {
    Table,
    Namespaces,
    Contexts,
    SortPicker,
    CopyPicker,
    Logs,
    Prompt,
    Command,
    Filter,
    Find,
    Confirm,
    Detail,
    Diff,
    Explain,
    DocFilter,
    LogFilter,
    Events,
    Help,
    PvcExplore,
    Xray,
    Timeline,
    Pulse,
    PortForwards,
    PortForwardPicker,
    Gitops,
    Argocd,
    FluxMenu,
    Adjacent,
    TransferMenu,
    Snapshots,
    Skins,
    SetImage,
    Fleet,
    Containers,
    PluginForm,
    Drain,
}

/// How many recent namespaces are kept per context.
pub const MAX_RECENT_NAMESPACES: usize = 8;

/// The sort picker's pinned first entry, which restores the default order.
pub const DEFAULT_SORT_LABEL: &'static str = "default (ns/name)";

/// The namespace picker's pinned first entry, standing for all namespaces.
pub const ALL_NAMESPACES: &'static str = "<all>";

/// Picker and namespace state of one session.
pub struct App {
    pub mode: Mode,
    /// The active namespace (empty = all namespaces).
    pub namespace: String,
    /// The kubeconfig context's default namespace.
    pub default_namespace: String,
    /// The active kubeconfig context.
    pub context: String,
    /// Type-to-filter text of the namespace picker.
    pub ns_filter: String,
    /// Namespaces last listed from the cluster.
    pub ns_list: Vec<String>,
    /// Configured favourite namespaces, in order.
    pub namespace_favorites: Vec<String>,
    /// Recent namespaces per context, newest first.
    pub recent_namespaces: Vec<(String, Vec<String>)>,
    /// Column headers of the current table.
    pub headers: Vec<String>,
    /// Type-to-filter text of the sort picker.
    pub sort_picker_filter: String,
    /// Active sort column, as an index into `headers`.
    pub sort_column: Option<usize>,
    /// Whether the active sort is descending.
    pub sort_desc: bool,
    /// `(header, value)` pairs captured for the copy picker.
    pub copy_picker_fields: Vec<(String, String)>,
    /// Type-to-filter text of the copy picker.
    pub copy_picker_filter: String,
    /// Type-to-filter text of the context picker.
    pub ctx_filter: String,
    /// Whether the context picker takes typed text as filter input.
    pub ctx_filtering: bool,
    /// Contexts last listed from the kubeconfig.
    pub ctx_list: Vec<String>,
    /// Selected row of the context picker.
    pub ctx_selected: Option<usize>,
    /// Selected row of the namespace picker.
    pub ns_selected: Option<usize>,
    /// Selected row of the sort picker.
    pub sort_selected: Option<usize>,
    /// Selected row of the copy picker.
    pub copy_selected: Option<usize>,
    /// Namespace requested at launch, kept until the first connection.
    pub launch_namespace: Option<String>,
    /// Whether changes to the cluster are refused.
    pub readonly: bool,
    /// `--readonly` (`Some(true)`) or `--write` (`Some(false)`) from the
    /// command line; it wins over the configuration on every switch.
    pub readonly_override: Option<bool>,
    /// The resource kind the table shows, if any.
    pub kind: Option<String>,
    /// Status-line message.
    pub flash: String,
    /// Whether the status-line message is a warning.
    pub flash_err: bool,
}

/// Recent namespaces stored for context `c` (the first entry for it).
pub open spec fn recents_for(list: Seq<(String, Vec<String>)>, c: Seq<char>) -> Seq<Seq<char>>
    decreases list.len(),
{
    if list.len() == 0 {
        Seq::empty()
    } else if list[0].0@ == c {
        texts(list[0].1@)
    } else {
        recents_for(list.drop_first(), c)
    }
}

/// Index of the first entry for context `c`, or the length when none.
pub open spec fn entry_index(list: Seq<(String, Vec<String>)>, c: Seq<char>) -> int
    decreases list.len(),
{
    if list.len() == 0 {
        0
    } else if list[0].0@ == c {
        0
    } else {
        1 + entry_index(list.drop_first(), c)
    }
}

proof fn lemma_entry_index(list: Seq<(String, Vec<String>)>, c: Seq<char>)
    ensures
        0 <= entry_index(list, c) <= list.len(),
        entry_index(list, c) < list.len() ==> list[entry_index(list, c)].0@ == c
            && recents_for(list, c) == texts(list[entry_index(list, c)].1@),
        entry_index(list, c) == list.len() ==> recents_for(list, c) == Seq::<Seq<char>>::empty(),
        forall|i: int| 0 <= i < entry_index(list, c) ==> #[trigger] list[i].0@ != c,
    decreases list.len(),
{
    if list.len() > 0 && list[0].0@ != c {
        lemma_entry_index(list.drop_first(), c);
        assert forall|i: int| 0 <= i < entry_index(list, c) implies #[trigger] list[i].0@ != c by {
            if i > 0 {
                assert(list[i] == list.drop_first()[i - 1]);
            }
        }
    }
}

proof fn lemma_recents_other(list: Seq<(String, Vec<String>)>, i: int, e: (String, Vec<String>), c: Seq<char>, d: Seq<char>)
    requires
        0 <= i < list.len(),
        list[i].0@ == c,
        e.0@ == c,
        c != d,
    ensures
        recents_for(list.update(i, e), d) == recents_for(list, d),
    decreases list.len(),
{
    if i == 0 {
        assert(list.update(i, e).drop_first() =~= list.drop_first());
    } else if list[0].0@ != d {
        assert(list.update(i, e).drop_first() =~= list.drop_first().update(i - 1, e));
        lemma_recents_other(list.drop_first(), i - 1, e, c, d);
    }
}

proof fn lemma_recents_push(list: Seq<(String, Vec<String>)>, e: (String, Vec<String>), d: Seq<char>)
    requires
        e.0@ != d || entry_index(list, d) < list.len(),
    ensures
        recents_for(list.push(e), d) == recents_for(list, d),
    decreases list.len(),
{
    let l2 = list.push(e);
    if list.len() == 0 {
        assert(l2.drop_first() =~= Seq::<(String, Vec<String>)>::empty());
        assert(l2[0] == e);
        assert(e.0@ != d);
        assert(recents_for(l2, d) == recents_for(l2.drop_first(), d));
        assert(recents_for(l2, d) == Seq::<Seq<char>>::empty());
    } else if list[0].0@ != d {
        assert(l2.drop_first() =~= list.drop_first().push(e));
        assert(l2[0] == list[0]);
        lemma_recents_push(list.drop_first(), e, d);
        assert(recents_for(l2, d) == recents_for(l2.drop_first(), d));
    } else {
        assert(l2[0] == list[0]);
        assert(recents_for(l2, d) == texts(list[0].1@));
    }
}

/// `s` without the occurrences of `x`.
pub open spec fn without(s: Seq<Seq<char>>, x: Seq<char>) -> Seq<Seq<char>>
    decreases s.len(),
{
    if s.len() == 0 {
        Seq::empty()
    } else {
        without(s.drop_last(), x) + if s.last() == x { Seq::empty() } else { seq![s.last()] }
    }
}

/// The namespace a picker entry stands for: `<all>` is every namespace,
/// written as the empty name.
pub open spec fn normalized_ns(ns: Seq<char>) -> Seq<char> {
    if ns == "<all>"@ { Seq::empty() } else { ns }
}

/// The recents after noting `n`: `n` first, then the earlier ones without
/// it, at most eight in all.
pub open spec fn noted(recents: Seq<Seq<char>>, n: Seq<char>) -> Seq<Seq<char>> {
    let all = seq![n] + without(recents, n);
    if all.len() > MAX_RECENT_NAMESPACES { all.take(MAX_RECENT_NAMESPACES as int) } else { all }
}

fn without_exec(v: &Vec<String>, x: &String) -> (r: Vec<String>)
    ensures
        texts(r@) == without(texts(v@), x@),
{
    let mut out: Vec<String> = Vec::new();
    let mut k: usize = 0;
    while k < v.len()
        invariant
            k <= v@.len(),
            texts(out@) == without(texts(v@).take(k as int), x@),
        decreases v@.len() - k,
    {
        let ghost t = texts(v@).take(k + 1);
        assert(t.drop_last() =~= texts(v@).take(k as int));
        assert(t.last() == v@[k as int]@);
        if !(v[k] == *x) {
            let ghost before = texts(out@);
            out.push(v[k].clone());
            assert(texts(out@) =~= before + seq![v@[k as int]@]);
        } else {
            assert(without(t, x@) =~= without(texts(v@).take(k as int), x@));
        }
        k = k + 1;
    }
    assert(texts(v@).take(v@.len() as int) =~= texts(v@));
    out
}

impl App {
    /// The recent namespaces of the active context, newest first.
    pub open spec fn recents(&self) -> Seq<Seq<char>> {
        recents_for(self.recent_namespaces@, self.context@)
    }

    /// Whether `n` is a configured favourite namespace.
    pub fn is_favorite_namespace(&self, n: &str) -> (r: bool)
        ensures
            r == texts(self.namespace_favorites@).contains(n@),
    {
        let mut k: usize = 0;
        while k < self.namespace_favorites.len()
            invariant
                k <= self.namespace_favorites@.len(),
                forall|i: int| 0 <= i < k ==> #[trigger] self.namespace_favorites@[i]@ != n@,
            decreases self.namespace_favorites@.len() - k,
        {
            if same_text(&self.namespace_favorites[k], n) {
                assert(texts(self.namespace_favorites@)[k as int] == n@);
                return true;
            }
            k = k + 1;
        }
        assert(!texts(self.namespace_favorites@).contains(n@)) by {
            if texts(self.namespace_favorites@).contains(n@) {
                let i = choose|i: int| 0 <= i < texts(self.namespace_favorites@).len() && texts(self.namespace_favorites@)[i] == n@;
                assert(self.namespace_favorites@[i]@ == n@);
            }
        }
        false
    }

    fn entry_position(&self) -> (r: usize)
        ensures
            r == entry_index(self.recent_namespaces@, self.context@),
    {
        proof {
            lemma_entry_index(self.recent_namespaces@, self.context@);
        }
        let mut k: usize = 0;
        while k < self.recent_namespaces.len() && !(self.recent_namespaces[k].0 == self.context)
            invariant
                k <= self.recent_namespaces@.len(),
                k <= entry_index(self.recent_namespaces@, self.context@),
                forall|i: int| 0 <= i < entry_index(self.recent_namespaces@, self.context@) ==> #[trigger] self.recent_namespaces@[i].0@ != self.context@,
                entry_index(self.recent_namespaces@, self.context@) <= self.recent_namespaces@.len(),
                entry_index(self.recent_namespaces@, self.context@) < self.recent_namespaces@.len()
                    ==> self.recent_namespaces@[entry_index(self.recent_namespaces@, self.context@)].0@ == self.context@,
            decreases self.recent_namespaces@.len() - k,
        {
            k = k + 1;
        }
        k
    }

    /// The recent namespaces of the active context, newest first.
    pub fn recent_namespaces_for_context(&self) -> (r: Vec<String>)
        ensures
            texts(r@) == self.recents(),
    {
        proof {
            lemma_entry_index(self.recent_namespaces@, self.context@);
        }
        let i = self.entry_position();
        if i < self.recent_namespaces.len() {
            let list = &self.recent_namespaces[i].1;
            let mut out: Vec<String> = Vec::new();
            let mut k: usize = 0;
            while k < list.len()
                invariant
                    k <= list@.len(),
                    texts(out@) == texts(list@).take(k as int),
                decreases list@.len() - k,
            {
                let ghost before = texts(out@);
                out.push(list[k].clone());
                assert(texts(out@) =~= before.push(list@[k as int]@));
                assert(texts(out@) =~= texts(list@).take(k + 1));
                k = k + 1;
            }
            assert(texts(list@).take(list@.len() as int) =~= texts(list@));
            out
        } else {
            Vec::new()
        }
    }

    /// Whether `n` is a recent namespace of the active context.
    pub fn is_recent_namespace(&self, n: &str) -> (r: bool)
        ensures
            r == self.recents().contains(n@),
    {
        let rec = self.recent_namespaces_for_context();
        let mut k: usize = 0;
        while k < rec.len()
            invariant
                texts(rec@) == self.recents(),
                k <= rec@.len(),
                forall|i: int| 0 <= i < k ==> #[trigger] rec@[i]@ != n@,
            decreases rec@.len() - k,
        {
            if same_text(&rec[k], n) {
                assert(texts(rec@)[k as int] == n@);
                return true;
            }
            k = k + 1;
        }
        assert(!texts(rec@).contains(n@)) by {
            if texts(rec@).contains(n@) {
                let i = choose|i: int| 0 <= i < texts(rec@).len() && texts(rec@)[i] == n@;
                assert(rec@[i]@ == n@);
            }
        }
        false
    }

    /// Record a namespace pick in the active context's recents: newest
    /// first, each once, at most eight. `<all>` and the empty name are not
    /// recorded; other contexts' recents are untouched.
    pub fn note_recent_namespace(&mut self, ns: &str)
        ensures
            final(self).context@ == old(self).context@,
            final(self).recents() == if normalized_ns(ns@).len() == 0 {
                old(self).recents()
            } else {
                noted(old(self).recents(), normalized_ns(ns@))
            },
            forall|c: Seq<char>| c != old(self).context@ ==> recents_for(final(self).recent_namespaces@, c)
                == recents_for(old(self).recent_namespaces@, c),
            contexts_once(old(self).recent_namespaces@) ==> contexts_once(final(self).recent_namespaces@),
    {
        let n = if same_text(&String::from_str(ns), "<all>") { String::new() } else { String::from_str(ns) };
        assert(n@ == normalized_ns(ns@));
        if n.as_str().is_empty() {
            return;
        }
        proof {
            lemma_entry_index(old(self).recent_namespaces@, old(self).context@);
        }
        let i = self.entry_position();
        let ghost old_list = self.recent_namespaces@;
        let ghost ctx = self.context@;
        if i == self.recent_namespaces.len() {
            let key = self.context.clone();
            self.recent_namespaces.push((key, Vec::new()));
            proof {
                assert forall|c: Seq<char>| c != ctx implies recents_for(self.recent_namespaces@, c) == recents_for(old_list, c) by {
                    assert(self.recent_namespaces@ =~= old_list.push(self.recent_namespaces@[i as int]));
                    lemma_recents_push(old_list, self.recent_namespaces@[i as int], c);
                }
                lemma_entry_index(self.recent_namespaces@, ctx);
                assert(self.recent_namespaces@[i as int].0@ == ctx);
                assert forall|j: int| 0 <= j < i implies #[trigger] self.recent_namespaces@[j].0@ != ctx by {
                    assert(self.recent_namespaces@[j] == old_list[j]);
                }
                if entry_index(self.recent_namespaces@, ctx) < i {
                    let j = entry_index(self.recent_namespaces@, ctx);
                    assert(self.recent_namespaces@[j] == old_list[j]);
                }
                assert(entry_index(self.recent_namespaces@, ctx) == i);
                assert(texts(self.recent_namespaces@[i as int].1@) =~= Seq::<Seq<char>>::empty());
            }
        }
        let ghost mid_list = self.recent_namespaces@;
        let ghost old_recents = recents_for(old_list, ctx);
        proof {
            lemma_entry_index(mid_list, ctx);
            assert(entry_index(mid_list, ctx) == i);
            assert(recents_for(mid_list, ctx) == old_recents);
        }
        let entry = self.recent_namespaces.remove(i);
        let kept = without_exec(&entry.1, &n);
        let mut list: Vec<String> = Vec::new();
        list.push(n.clone());
        let mut k: usize = 0;
        while k < kept.len() && list.len() < MAX_RECENT_NAMESPACES
            invariant
                1 <= list@.len() <= MAX_RECENT_NAMESPACES,
                list@.len() == k + 1,
                k <= kept@.len(),
                texts(list@) == (seq![n@] + texts(kept@)).take(k + 1),
            decreases kept@.len() - k,
        {
            list.push(kept[k].clone());
            assert(texts(list@) =~= (seq![n@] + texts(kept@)).take(k + 2));
            k = k + 1;
        }
        proof {
            let all = seq![n@] + texts(kept@);
            if all.len() <= MAX_RECENT_NAMESPACES {
                assert(k == kept@.len());
                assert(all.take(k + 1) =~= all);
            }
        }
        let e = (entry.0, list);
        self.recent_namespaces.insert(i, e);
        proof {
            let fl = self.recent_namespaces@;
            assert(fl =~= mid_list.update(i as int, e));
            assert(e.0@ == ctx);
            assert(fl[i as int] == e);
            lemma_entry_index(fl, ctx);
            assert forall|j: int| 0 <= j < i implies #[trigger] fl[j].0@ != ctx by {
                assert(fl[j] == mid_list[j]);
            }
            if entry_index(fl, ctx) < i {
                let j = entry_index(fl, ctx);
                assert(fl[j] == mid_list[j]);
            }
            assert(entry_index(fl, ctx) == i);
            assert forall|c: Seq<char>| c != ctx implies recents_for(fl, c) == recents_for(old_list, c) by {
                lemma_recents_other(mid_list, i as int, e, ctx, c);
            }
            if contexts_once(old_list) {
                assert forall|a: int, b: int| 0 <= a < b < fl.len() implies (#[trigger] fl[a]).0@ != (#[trigger] fl[b]).0@ by {
                    if i < old_list.len() {
                        if a != i && b != i {
                            assert(fl[a] == old_list[a] && fl[b] == old_list[b]);
                        } else if a == i {
                            assert(fl[b] == old_list[b] && fl[a].0@ == old_list[a].0@);
                        } else {
                            assert(fl[a] == old_list[a] && fl[b].0@ == old_list[b].0@);
                        }
                    } else {
                        assert(fl[a] == old_list[a]);
                        if b != i {
                            assert(fl[b] == old_list[b]);
                        }
                    }
                }
            }
        }
    }
}

/// Each context has at most one entry of recent namespaces.
pub open spec fn contexts_once(list: Seq<(String, Vec<String>)>) -> bool {
    forall|a: int, b: int| 0 <= a < b < list.len() ==> (#[trigger] list[a]).0@ != (#[trigger] list[b]).0@
}


/// The `(score, text)` pairs of the texts that matched (a `Some` score).
pub open spec fn scored_pairs(names: Seq<Seq<char>>, scores: Seq<Option<i64>>) -> Seq<(int, Seq<char>)>
    decreases names.len(),
{
    if names.len() == 0 {
        Seq::empty()
    } else {
        let n = names.len() - 1;
        scored_pairs(names.take(n), scores) + match scores[n] {
            Some(s) => seq![(s as int, names[n])],
            None => Seq::empty(),
        }
    }
}

fn pair_scores(names: &Vec<String>, scores: &[Option<i64>]) -> (r: Vec<(i64, String)>)
    requires
        scores@.len() == names@.len(),
    ensures
        scored_views(r@) == scored_pairs(texts(names@), scores@),
{
    let mut out: Vec<(i64, String)> = Vec::new();
    let mut k: usize = 0;
    while k < names.len()
        invariant
            scores@.len() == names@.len(),
            k <= names@.len(),
            scored_views(out@) == scored_pairs(texts(names@).take(k as int), scores@),
        decreases names@.len() - k,
    {
        let ghost t = texts(names@).take(k + 1);
        assert(t.take(k as int) =~= texts(names@).take(k as int));
        assert(t[k as int] == names@[k as int]@);
        let ghost before = scored_views(out@);
        match scores[k] {
            Some(sc) => {
                out.push((sc, names[k].clone()));
                assert(scored_views(out@) =~= before + seq![(sc as int, names@[k as int]@)]);
            },
            None => {
                assert(scored_views(out@) =~= before + Seq::<(int, Seq<char>)>::empty());
            },
        }
        k = k + 1;
    }
    assert(texts(names@).take(names@.len() as int) =~= texts(names@));
    out
}

fn copy_texts(v: &Vec<String>) -> (r: Vec<String>)
    ensures
        texts(r@) == texts(v@),
{
    let mut out: Vec<String> = Vec::new();
    let mut k: usize = 0;
    while k < v.len()
        invariant
            k <= v@.len(),
            texts(out@) == texts(v@).take(k as int),
        decreases v@.len() - k,
    {
        let ghost before = texts(out@);
        out.push(v[k].clone());
        assert(texts(out@) =~= before.push(v@[k as int]@));
        assert(texts(out@) =~= texts(v@).take(k + 1));
        k = k + 1;
    }
    assert(texts(v@).take(v@.len() as int) =~= texts(v@));
    out
}

/// Whether `x` is among the texts of `v`.
pub fn contains_text(v: &Vec<String>, x: &String) -> (r: bool)
    ensures
        r == texts(v@).contains(x@),
{
    let mut k: usize = 0;
    while k < v.len()
        invariant
            k <= v@.len(),
            forall|i: int| 0 <= i < k ==> #[trigger] v@[i]@ != x@,
        decreases v@.len() - k,
    {
        if v[k] == *x {
            assert(texts(v@)[k as int] == x@);
            return true;
        }
        k = k + 1;
    }
    assert(!texts(v@).contains(x@)) by {
        if texts(v@).contains(x@) {
            let i = choose|i: int| 0 <= i < texts(v@).len() && texts(v@)[i] == x@;
            assert(v@[i]@ == x@);
        }
    }
    false
}

/// `acc` followed by the texts of `items` that pass `ok` and are not yet
/// there, each once, in order.
pub open spec fn add_unseen(acc: Seq<Seq<char>>, items: Seq<Seq<char>>, ok: spec_fn(Seq<char>) -> bool) -> Seq<Seq<char>>
    decreases items.len(),
{
    if items.len() == 0 {
        acc
    } else {
        let prev = add_unseen(acc, items.drop_last(), ok);
        let x = items.last();
        if ok(x) && !prev.contains(x) { prev.push(x) } else { prev }
    }
}

impl App {
    /// The namespaces known besides the listed ones: while the namespace
    /// picker is open, the active and the context's default namespace.
    pub open spec fn known_namespaces(&self) -> Seq<Seq<char>> {
        if self.mode == Mode::Namespaces {
            seq![self.namespace@, self.default_namespace@]
        } else {
            seq![Seq::empty(), Seq::empty()]
        }
    }

    /// The listed namespaces with the known ones added (when not empty and
    /// not listed), in text order, without `<all>`.
    pub open spec fn namespace_candidates_spec(&self) -> Seq<Seq<char>> {
        let k = self.known_namespaces();
        let c0 = texts(self.ns_list@);
        let c1 = if k[0].len() > 0 && !c0.contains(k[0]) { c0.push(k[0]) } else { c0 };
        let c2 = if k[1].len() > 0 && !c1.contains(k[1]) { c1.push(k[1]) } else { c1 };
        without(c2.sort_by(|a: Seq<char>, b: Seq<char>| lex_le(a, b)), "<all>"@)
    }

    /// What the namespace picker lists: `<all>` first; with a filter, the
    /// matching candidates ranked by score; without one, the favourites,
    /// then the recents still listed, then the other candidates, each once.
    pub open spec fn namespace_entries(&self, scores: Seq<Option<i64>>) -> Seq<Seq<char>> {
        let rest = self.namespace_candidates_spec();
        if self.ns_filter@.len() > 0 {
            seq!["<all>"@] + ranked(scored_pairs(rest, scores))
        } else {
            let favs = add_unseen(Seq::empty(), texts(self.namespace_favorites@), |f: Seq<char>| f.len() > 0);
            let recents = add_unseen(favs, self.recents(), |r: Seq<char>| rest.contains(r));
            seq!["<all>"@] + add_unseen(recents, rest, |n: Seq<char>| true)
        }
    }

    /// The candidates the namespace picker ranks when filtering (see
    /// `namespace_candidates_spec`); a matcher scores them in this order.
    pub fn namespace_candidates(&self) -> (r: Vec<String>)
        ensures
            texts(r@) == self.namespace_candidates_spec(),
    {
        let ghost k = self.known_namespaces();
        let in_picker = self.mode == Mode::Namespaces;
        let k0 = if in_picker { self.namespace.clone() } else { String::new() };
        let k1 = if in_picker { self.default_namespace.clone() } else { String::new() };
        assert(k0@ == k[0] && k1@ == k[1]);
        let mut cands = copy_texts(&self.ns_list);
        if !k0.as_str().is_empty() && !contains_text(&cands, &k0) {
            let ghost before = texts(cands@);
            cands.push(k0);
            assert(texts(cands@) =~= before.push(k[0]));
        }
        if !k1.as_str().is_empty() && !contains_text(&cands, &k1) {
            let ghost before = texts(cands@);
            cands.push(k1);
            assert(texts(cands@) =~= before.push(k[1]));
        }
        let sorted = sort_texts(&cands);
        let all = String::from_str("<all>");
        without_exec(&sorted, &all)
    }

    /// What the namespace picker lists (see `namespace_entries`).
    /// `scores` holds the matcher's score of each `namespace_candidates`
    /// entry against the filter; it is read only while filtering.
    pub fn filtered_namespaces(&self, scores: &[Option<i64>]) -> (r: Vec<String>)
        requires
            self.ns_filter@.len() > 0 ==> scores@.len() == self.namespace_candidates_spec().len(),
        ensures
            texts(r@) == self.namespace_entries(scores@),
    {
        let rest = self.namespace_candidates();
        let mut out: Vec<String> = Vec::new();
        out.push(String::from_str("<all>"));
        if !self.ns_filter.as_str().is_empty() {
            let ranked_names = rank(pair_scores(&rest, scores));
            let mut k: usize = 0;
            while k < ranked_names.len()
                invariant
                    k <= ranked_names@.len(),
                    texts(out@) == seq!["<all>"@] + texts(ranked_names@).take(k as int),
                decreases ranked_names@.len() - k,
            {
                let ghost before = texts(out@);
                out.push(ranked_names[k].clone());
                assert(texts(out@) =~= before.push(ranked_names@[k as int]@));
                assert(texts(out@) =~= seq!["<all>"@] + texts(ranked_names@).take(k + 1));
                k = k + 1;
            }
            assert(texts(ranked_names@).take(ranked_names@.len() as int) =~= texts(ranked_names@));
            return out;
        }
        let mut acc: Vec<String> = Vec::new();
        let ghost fav_ok = |f: Seq<char>| f.len() > 0;
        let favs = &self.namespace_favorites;
        let mut k: usize = 0;
        while k < favs.len()
            invariant
                k <= favs@.len(),
                fav_ok == (|f: Seq<char>| f.len() > 0),
                texts(acc@) == add_unseen(Seq::empty(), texts(favs@).take(k as int), fav_ok),
            decreases favs@.len() - k,
        {
            let f = &favs[k];
            let ghost t = texts(favs@).take(k + 1);
            assert(t.drop_last() =~= texts(favs@).take(k as int));
            assert(t.last() == f@);
            if !f.as_str().is_empty() && !contains_text(&acc, f) {
                let ghost before = texts(acc@);
                acc.push(f.clone());
                assert(texts(acc@) =~= before.push(f@));
            }
            k = k + 1;
        }
        assert(texts(favs@).take(favs@.len() as int) =~= texts(favs@));
        let ghost favs_acc = texts(acc@);
        let recents = self.recent_namespaces_for_context();
        let ghost rest_t = texts(rest@);
        let ghost rec_ok = |r: Seq<char>| rest_t.contains(r);
        let mut j: usize = 0;
        while j < recents.len()
            invariant
                j <= recents@.len(),
                rest_t == texts(rest@),
                rec_ok == (|r: Seq<char>| rest_t.contains(r)),
                texts(acc@) == add_unseen(favs_acc, texts(recents@).take(j as int), rec_ok),
            decreases recents@.len() - j,
        {
            let r = &recents[j];
            let ghost t = texts(recents@).take(j + 1);
            assert(t.drop_last() =~= texts(recents@).take(j as int));
            assert(t.last() == r@);
            if contains_text(&rest, r) && !contains_text(&acc, r) {
                let ghost before = texts(acc@);
                acc.push(r.clone());
                assert(texts(acc@) =~= before.push(r@));
            }
            j = j + 1;
        }
        assert(texts(recents@).take(recents@.len() as int) =~= texts(recents@));
        let ghost rec_acc = texts(acc@);
        let ghost any = |n: Seq<char>| true;
        let mut i: usize = 0;
        while i < rest.len()
            invariant
                i <= rest@.len(),
                any == (|n: Seq<char>| true),
                texts(acc@) == add_unseen(rec_acc, texts(rest@).take(i as int), any),
            decreases rest@.len() - i,
        {
            let n = &rest[i];
            let ghost t = texts(rest@).take(i + 1);
            assert(t.drop_last() =~= texts(rest@).take(i as int));
            assert(t.last() == n@);
            if !contains_text(&acc, n) {
                let ghost before = texts(acc@);
                acc.push(n.clone());
                assert(texts(acc@) =~= before.push(n@));
            }
            i = i + 1;
        }
        assert(texts(rest@).take(rest@.len() as int) =~= texts(rest@));
        let mut m: usize = 0;
        while m < acc.len()
            invariant
                m <= acc@.len(),
                texts(out@) == seq!["<all>"@] + texts(acc@).take(m as int),
            decreases acc@.len() - m,
        {
            let ghost before = texts(out@);
            out.push(acc[m].clone());
            assert(texts(out@) =~= before.push(acc@[m as int]@));
            assert(texts(out@) =~= seq!["<all>"@] + texts(acc@).take(m + 1));
            m = m + 1;
        }
        assert(texts(acc@).take(acc@.len() as int) =~= texts(acc@));
        out
    }

    /// What the context picker lists: every context while not filtering,
    /// else the matching ones ranked by score (`scores` holds one score per
    /// listed context, read only while filtering).
    pub fn filtered_contexts(&self, scores: &[Option<i64>]) -> (r: Vec<String>)
        requires
            self.ctx_filter@.len() > 0 ==> scores@.len() == self.ctx_list@.len(),
        ensures
            texts(r@) == if self.ctx_filter@.len() == 0 {
                texts(self.ctx_list@)
            } else {
                ranked(scored_pairs(texts(self.ctx_list@), scores@))
            },
    {
        if self.ctx_filter.as_str().is_empty() {
            return copy_texts(&self.ctx_list);
        }
        rank(pair_scores(&self.ctx_list, scores))
    }

    /// What the sort picker lists: the default-order entry first, then the
    /// column headers, or while filtering the matching headers ranked by
    /// score (`scores` holds one score per header).
    pub fn filtered_sort_entries(&self, scores: &[Option<i64>]) -> (r: Vec<String>)
        requires
            self.sort_picker_filter@.len() > 0 ==> scores@.len() == self.headers@.len(),
        ensures
            texts(r@) == seq![DEFAULT_SORT_LABEL@] + if self.sort_picker_filter@.len() == 0 {
                texts(self.headers@)
            } else {
                ranked(scored_pairs(texts(self.headers@), scores@))
            },
    {
        let entries = if self.sort_picker_filter.as_str().is_empty() {
            copy_texts(&self.headers)
        } else {
            rank(pair_scores(&self.headers, scores))
        };
        let mut out: Vec<String> = Vec::new();
        out.push(String::from_str(DEFAULT_SORT_LABEL));
        let mut k: usize = 0;
        while k < entries.len()
            invariant
                k <= entries@.len(),
                texts(out@) == seq![DEFAULT_SORT_LABEL@] + texts(entries@).take(k as int),
            decreases entries@.len() - k,
        {
            let ghost before = texts(out@);
            out.push(entries[k].clone());
            assert(texts(out@) =~= before.push(entries@[k as int]@));
            assert(texts(out@) =~= seq![DEFAULT_SORT_LABEL@] + texts(entries@).take(k + 1));
            k = k + 1;
        }
        assert(texts(entries@).take(entries@.len() as int) =~= texts(entries@));
        out
    }
}


/// The matched fields with their scores (a `Some` score), in order.
pub open spec fn scored_fields(fields: Seq<(Seq<char>, Seq<char>)>, scores: Seq<Option<i64>>) -> Seq<(int, (Seq<char>, Seq<char>))>
    decreases fields.len(),
{
    if fields.len() == 0 {
        Seq::empty()
    } else {
        let n = fields.len() - 1;
        scored_fields(fields.take(n), scores) + match scores[n] {
            Some(s) => seq![(s as int, fields[n])],
            None => Seq::empty(),
        }
    }
}

/// How many characters of a copied value the status line echoes.
pub const COPY_ECHO_CHARS: usize = 60;

/// The status message after copying `value` from column `header`: the
/// value cut to its first sixty characters, marked with `…` when cut.
pub open spec fn copy_message(header: Seq<char>, value: Seq<char>) -> Seq<char> {
    "copied "@ + header + ": "@ + if value.len() > COPY_ECHO_CHARS {
        value.take(COPY_ECHO_CHARS as int).push('…')
    } else {
        value
    }
}

/// The label for a failed connection to `context`.
pub open spec fn disconnect_label(context: Seq<char>) -> Seq<char> {
    if context.len() == 0 {
        "cannot connect"@
    } else {
        "cannot connect to '"@ + context + "'"@
    }
}

/// Index of the first header equal to `entry`, or the length when none.
pub open spec fn header_index(headers: Seq<Seq<char>>, entry: Seq<char>) -> int {
    crate::logline::first_index_of(headers, entry)
}

impl App {
    /// What the copy picker lists: every captured field while not
    /// filtering, else the matching ones ranked by score, then header, then
    /// value (`scores` holds one score per field).
    pub fn filtered_copy_entries(&self, scores: &[Option<i64>]) -> (r: Vec<(String, String)>)
        requires
            self.copy_picker_filter@.len() > 0 ==> scores@.len() == self.copy_picker_fields@.len(),
        ensures
            pair_texts(r@) == if self.copy_picker_filter@.len() == 0 {
                pair_texts(self.copy_picker_fields@)
            } else {
                ranked_fields(scored_fields(pair_texts(self.copy_picker_fields@), scores@))
            },
    {
        let fields = &self.copy_picker_fields;
        let filtering = !self.copy_picker_filter.as_str().is_empty();
        let mut out: Vec<(i64, (String, String))> = Vec::new();
        let mut plain: Vec<(String, String)> = Vec::new();
        let mut k: usize = 0;
        while k < fields.len()
            invariant
                k <= fields@.len(),
                filtering ==> scores@.len() == fields@.len(),
                pair_texts(plain@) == pair_texts(fields@).take(k as int),
                filtering ==> field_views(out@) == scored_fields(pair_texts(fields@).take(k as int), scores@),
            decreases fields@.len() - k,
        {
            let ghost t = pair_texts(fields@).take(k + 1);
            assert(t.take(k as int) =~= pair_texts(fields@).take(k as int));
            assert(t[k as int] == (fields@[k as int].0@, fields@[k as int].1@));
            let pair = (fields[k].0.clone(), fields[k].1.clone());
            let ghost pb = pair_texts(plain@);
            plain.push(pair);
            assert(pair_texts(plain@) =~= pb.push(t[k as int]));
            assert(pair_texts(plain@) =~= t);
            if filtering {
                let ghost before = field_views(out@);
                match scores[k] {
                    Some(sc) => {
                        out.push((sc, (fields[k].0.clone(), fields[k].1.clone())));
                        assert(field_views(out@) =~= before + seq![(sc as int, t[k as int])]);
                    },
                    None => {
                        assert(field_views(out@) =~= before + Seq::<(int, (Seq<char>, Seq<char>))>::empty());
                    },
                }
            }
            k = k + 1;
        }
        assert(pair_texts(fields@).take(fields@.len() as int) =~= pair_texts(fields@));
        if !filtering {
            return plain;
        }
        rank_fields(out)
    }

    /// Keep the launch namespace until the first connection and open the
    /// context picker afresh: no filter, no list yet (the caller fetches
    /// it), nothing selected.
    pub fn start_context_picker(&mut self, namespace: Option<String>)
        ensures
            crate::config::opt_text(final(self).launch_namespace) == crate::config::opt_text(namespace),
            final(self).mode == Mode::Contexts,
            final(self).ctx_filter@.len() == 0,
            !final(self).ctx_filtering,
            final(self).ctx_list@.len() == 0,
            final(self).ctx_selected is None,
            final(self).context@ == old(self).context@,
            final(self).flash@ == old(self).flash@,
            final(self).flash_err == old(self).flash_err,
    {
        self.launch_namespace = namespace;
        self.open_contexts();
    }

    /// Open the context picker afresh (see `start_context_picker`).
    pub fn open_contexts(&mut self)
        ensures
            final(self).mode == Mode::Contexts,
            final(self).ctx_filter@.len() == 0,
            !final(self).ctx_filtering,
            final(self).ctx_list@.len() == 0,
            final(self).ctx_selected is None,
            final(self).context@ == old(self).context@,
            final(self).flash@ == old(self).flash@,
            final(self).flash_err == old(self).flash_err,
            crate::config::opt_text(final(self).launch_namespace) == crate::config::opt_text(old(self).launch_namespace),
    {
        self.ctx_filter = String::new();
        self.ctx_filtering = false;
        self.ctx_list = Vec::new();
        self.ctx_selected = None;
        self.mode = Mode::Contexts;
    }

    /// Start in the context picker because the active context could not be
    /// reached; the status line keeps the error, as a warning.
    pub fn start_disconnected(&mut self, error: &str, namespace: Option<String>)
        ensures
            crate::config::opt_text(final(self).launch_namespace) == crate::config::opt_text(namespace),
            final(self).mode == Mode::Contexts,
            final(self).ctx_filter@.len() == 0,
            final(self).ctx_list@.len() == 0,
            final(self).ctx_selected is None,
            final(self).flash@ == disconnect_label(old(self).context@) + ": "@ + error@ + " — pick another context"@,
            final(self).flash_err,
    {
        let mut label = if self.context.as_str().is_empty() {
            String::from_str("cannot connect")
        } else {
            let mut l = String::from_str("cannot connect to '");
            l.append(self.context.as_str());
            l.append("'");
            l
        };
        self.start_context_picker(namespace);
        label.append(": ");
        label.append(error);
        label.append(" — pick another context");
        self.flash = label;
        self.flash_err = true;
    }

    /// Apply a sort-picker choice: the default entry clears the sort, a new
    /// column sorts ascending, the active column again flips the direction.
    /// The picker closes either way; an entry that is no header changes
    /// nothing else.
    pub fn apply_sort_choice(&mut self, entry: &str)
        ensures
            final(self).mode == Mode::Table,
            final(self).sort_picker_filter@.len() == 0,
            entry@ == DEFAULT_SORT_LABEL@ ==> final(self).sort_column is None && !final(self).sort_desc
                && final(self).flash@ == "sort by "@ + DEFAULT_SORT_LABEL@ && !final(self).flash_err,
            entry@ != DEFAULT_SORT_LABEL@ && header_index(texts(old(self).headers@), entry@) < old(self).headers@.len() ==> {
                let idx = header_index(texts(old(self).headers@), entry@);
                &&& final(self).sort_column == Some(idx as usize)
                &&& final(self).sort_desc == (old(self).sort_column == Some(idx as usize) && !old(self).sort_desc)
                &&& final(self).flash@ == "sort by "@ + entry@ + if final(self).sort_desc { " ↓ desc"@ } else { " ↑ asc"@ }
                &&& !final(self).flash_err
            },
            entry@ != DEFAULT_SORT_LABEL@ && header_index(texts(old(self).headers@), entry@) >= old(self).headers@.len() ==> {
                &&& final(self).sort_column == old(self).sort_column
                &&& final(self).sort_desc == old(self).sort_desc
                &&& final(self).flash@ == old(self).flash@
                &&& final(self).flash_err == old(self).flash_err
            },
            final(self).headers@ == old(self).headers@,
    {
        self.mode = Mode::Table;
        self.sort_picker_filter = String::new();
        let e = String::from_str(entry);
        if same_text(&e, DEFAULT_SORT_LABEL) {
            self.sort_column = None;
            self.sort_desc = false;
            let mut f = String::from_str("sort by ");
            f.append(DEFAULT_SORT_LABEL);
            self.flash = f;
            self.flash_err = false;
            return;
        }
        let ghost hs = texts(self.headers@);
        proof {
            crate::logline::lemma_first_index_of(hs, entry@);
        }
        let mut idx: usize = 0;
        while idx < self.headers.len() && !(self.headers[idx] == e)
            invariant
                hs == texts(self.headers@),
                e@ == entry@,
                idx <= self.headers@.len(),
                idx <= header_index(hs, entry@),
                forall|i: int| 0 <= i < header_index(hs, entry@) ==> hs[i] != entry@,
                header_index(hs, entry@) <= hs.len(),
                header_index(hs, entry@) < hs.len() ==> hs[header_index(hs, entry@)] == entry@,
            decreases self.headers@.len() - idx,
        {
            assert(hs[idx as int] == self.headers@[idx as int]@);
            idx = idx + 1;
        }
        if idx == self.headers.len() {
            return;
        }
        assert(hs[idx as int] == self.headers@[idx as int]@);
        let same = match self.sort_column {
            Some(c) => c == idx,
            None => false,
        };
        self.sort_desc = same && !self.sort_desc;
        self.sort_column = Some(idx);
        let mut f = String::from_str("sort by ");
        f.append(entry);
        if self.sort_desc {
            f.append(" ↓ desc");
        } else {
            f.append(" ↑ asc");
        }
        self.flash = f;
        self.flash_err = false;
    }

    /// Close the copy picker and give the message to show once `value`,
    /// from column `header`, is on the clipboard.
    pub fn copy_field(&mut self, header: &str, value: &str) -> (r: String)
        ensures
            final(self).mode == Mode::Table,
            final(self).copy_picker_filter@.len() == 0,
            r@ == copy_message(header@, value@),
    {
        self.mode = Mode::Table;
        self.copy_picker_filter = String::new();
        let cs = crate::text::chars_of(value);
        let mut shown = String::new();
        let mut k: usize = 0;
        while k < cs.len() && k < COPY_ECHO_CHARS
            invariant
                k <= cs@.len(),
                k <= COPY_ECHO_CHARS,
                shown@ == cs@.take(k as int),
            decreases cs@.len() - k,
        {
            crate::text::push_char(&mut shown, cs[k]);
            assert(cs@.take(k + 1) =~= cs@.take(k as int).push(cs@[k as int]));
            k = k + 1;
        }
        if cs.len() > COPY_ECHO_CHARS {
            crate::text::push_char(&mut shown, '…');
        } else {
            assert(cs@.take(k as int) =~= cs@);
        }
        let mut m = String::from_str("copied ");
        m.append(header);
        m.append(": ");
        m.append(shown.as_str());
        m
    }
}



/// The first place of `x` in `s`, if it occurs there.
pub open spec fn place_of(s: Seq<Seq<char>>, x: Seq<char>) -> Option<usize> {
    if crate::logline::first_index_of(s, x) < s.len() {
        Some(crate::logline::first_index_of(s, x) as usize)
    } else {
        None
    }
}

/// The entry the namespace picker shows for namespace `ns`.
pub open spec fn picker_name(ns: Seq<char>) -> Seq<char> {
    if ns.len() == 0 {
        "<all>"@
    } else {
        ns
    }
}

fn place_in(v: &Vec<String>, x: &str) -> (r: Option<usize>)
    ensures
        r == place_of(texts(v@), x@),
{
    let ghost t = texts(v@);
    proof {
        crate::logline::lemma_first_index_of(t, x@);
    }
    let mut k: usize = 0;
    while k < v.len()
        invariant
            t == texts(v@),
            k <= v@.len(),
            k <= crate::logline::first_index_of(t, x@),
            crate::logline::first_index_of(t, x@) <= t.len(),
            crate::logline::first_index_of(t, x@) < t.len() ==> t[crate::logline::first_index_of(t, x@)] == x@,
            forall|i: int| 0 <= i < crate::logline::first_index_of(t, x@) ==> t[i] != x@,
        decreases v@.len() - k,
    {
        if same_text(&v[k], x) {
            assert(t[k as int] == x@);
            return Some(k);
        }
        assert(t[k as int] != x@);
        k = k + 1;
    }
    None
}

impl App {
    /// Open the namespace picker with no filter, the cursor on the active
    /// namespace (`<all>` when it is every namespace); the caller fetches
    /// the namespace list.
    pub fn open_namespaces(&mut self)
        ensures
            final(self).mode == Mode::Namespaces,
            final(self).ns_filter@.len() == 0,
            final(self).ns_selected == place_of(final(self).namespace_entries(Seq::empty()), picker_name(old(self).namespace@)),
            final(self).namespace@ == old(self).namespace@,
            final(self).default_namespace@ == old(self).default_namespace@,
            final(self).context@ == old(self).context@,
            texts(final(self).ns_list@) == texts(old(self).ns_list@),
            texts(final(self).namespace_favorites@) == texts(old(self).namespace_favorites@),
            final(self).recents() == old(self).recents(),
    {
        self.mode = Mode::Namespaces;
        self.ns_filter = String::new();
        let current = if self.namespace.as_str().is_empty() {
            String::from_str("<all>")
        } else {
            self.namespace.clone()
        };
        let list = self.filtered_namespaces(&[]);
        self.ns_selected = place_in(&list, current.as_str());
    }

    /// Put the namespace picker's cursor on the best match after the filter
    /// changes: the first entry after the pinned `<all>` when filtering
    /// finds any, else `<all>`.
    pub fn select_best_namespace_match(&mut self, scores: &[Option<i64>])
        requires
            old(self).ns_filter@.len() > 0 ==> scores@.len() == old(self).namespace_candidates_spec().len(),
        ensures
            final(self).ns_selected == Some(
                if old(self).ns_filter@.len() > 0 && old(self).namespace_entries(scores@).len() > 1 { 1usize } else { 0usize },
            ),
            final(self).ns_filter@ == old(self).ns_filter@,
            final(self).mode == old(self).mode,
    {
        let idx: usize = if !self.ns_filter.as_str().is_empty() && self.filtered_namespaces(scores).len() > 1 {
            1
        } else {
            0
        };
        self.ns_selected = Some(idx);
    }

    /// Open the sort picker with no filter, the cursor on the active sort
    /// column (the default-order entry when unsorted); with no columns, a
    /// warning instead.
    pub fn open_sort_picker(&mut self)
        requires
            old(self).sort_column != Some(usize::MAX),
        ensures
            old(self).headers@.len() == 0 ==> final(self).flash@ == "no columns to sort by"@ && final(self).flash_err
                && final(self).mode == old(self).mode,
            old(self).headers@.len() > 0 ==> {
                &&& final(self).mode == Mode::SortPicker
                &&& final(self).sort_picker_filter@.len() == 0
                &&& final(self).sort_selected == Some(
                    match old(self).sort_column {
                        Some(i) => (i + 1) as usize,
                        None => 0usize,
                    },
                )
            },
            final(self).sort_column == old(self).sort_column,
    {
        if self.headers.len() == 0 {
            self.flash = String::from_str("no columns to sort by");
            self.flash_err = true;
            return;
        }
        self.sort_picker_filter = String::new();
        self.sort_selected = Some(
            match self.sort_column {
                Some(i) => i + 1,
                None => 0,
            },
        );
        self.mode = Mode::SortPicker;
    }

    /// Put the sort picker's cursor on the best match after the filter
    /// changes: the active column while not filtering, else the first
    /// column after the pinned default entry when filtering finds any.
    pub fn select_best_sort_match(&mut self, scores: &[Option<i64>])
        requires
            old(self).sort_picker_filter@.len() > 0 ==> scores@.len() == old(self).headers@.len(),
            old(self).sort_column != Some(usize::MAX),
        ensures
            final(self).sort_selected == Some(
                if old(self).sort_picker_filter@.len() == 0 {
                    match old(self).sort_column {
                        Some(i) => (i + 1) as usize,
                        None => 0usize,
                    }
                } else if ranked(scored_pairs(texts(old(self).headers@), scores@)).len() > 0 {
                    1usize
                } else {
                    0usize
                },
            ),
    {
        let idx: usize = if self.sort_picker_filter.as_str().is_empty() {
            match self.sort_column {
                Some(i) => i + 1,
                None => 0,
            }
        } else {
            let entries = self.filtered_sort_entries(scores);
            assert(texts(entries@).len() == entries@.len());
            if entries.len() > 1 {
                1
            } else {
                0
            }
        };
        self.sort_selected = Some(idx);
    }

    /// Sort by the `AGE` column (as if picked), or warn when the view has
    /// none.
    pub fn sort_by_age(&mut self)
        ensures
            !texts(old(self).headers@).contains("AGE"@) ==> final(self).flash@ == "view has no AGE column"@
                && final(self).flash_err && final(self).sort_column == old(self).sort_column
                && final(self).sort_desc == old(self).sort_desc,
            texts(old(self).headers@).contains("AGE"@) ==> {
                let idx = header_index(texts(old(self).headers@), "AGE"@);
                &&& final(self).mode == Mode::Table
                &&& final(self).sort_column == Some(idx as usize)
                &&& final(self).sort_desc == (old(self).sort_column == Some(idx as usize) && !old(self).sort_desc)
                &&& !final(self).flash_err
            },
    {
        let age = String::from_str("AGE");
        proof {
            crate::logline::lemma_first_index_of(texts(self.headers@), "AGE"@);
        }
        if !contains_text(&self.headers, &age) {
            self.flash = String::from_str("view has no AGE column");
            self.flash_err = true;
            return;
        }
        proof {
            reveal_strlit("default (ns/name)");
            reveal_strlit("AGE");
            assert(DEFAULT_SORT_LABEL@ == "default (ns/name)"@);
            assert("AGE"@.len() != DEFAULT_SORT_LABEL@.len());
            let hs = texts(self.headers@);
            let i = choose|i: int| 0 <= i < hs.len() && hs[i] == "AGE"@;
            assert(header_index(hs, "AGE"@) <= i);
        }
        self.apply_sort_choice("AGE");
    }

    /// Open the copy picker on the selected row's `(header, value)` fields,
    /// cursor on the first; with no row, a warning instead.
    pub fn open_copy_picker(&mut self, fields: Vec<(String, String)>)
        ensures
            fields@.len() == 0 ==> final(self).flash@ == "no row selected"@ && final(self).flash_err
                && final(self).mode == old(self).mode,
            fields@.len() > 0 ==> {
                &&& pair_texts(final(self).copy_picker_fields@) == pair_texts(fields@)
                &&& final(self).copy_picker_filter@.len() == 0
                &&& final(self).copy_selected == Some(0usize)
                &&& final(self).mode == Mode::CopyPicker
            },
    {
        if fields.len() == 0 {
            self.flash = String::from_str("no row selected");
            self.flash_err = true;
            return;
        }
        self.copy_picker_fields = fields;
        self.copy_picker_filter = String::new();
        self.copy_selected = Some(0);
        self.mode = Mode::CopyPicker;
    }

    /// Keep the copy picker's cursor on the best match, the first entry.
    pub fn select_best_copy_match(&mut self)
        ensures
            final(self).copy_selected == Some(0usize),
    {
        self.copy_selected = Some(0);
    }

    /// Favourite namespace number `index` (from 0), unless unset or empty.
    pub fn favorite_namespace(&self, index: usize) -> (r: Option<String>)
        ensures
            match r {
                Some(n) => index < self.namespace_favorites@.len() && n@ == self.namespace_favorites@[index as int]@ && n@.len()
                    > 0,
                None => index >= self.namespace_favorites@.len() || self.namespace_favorites@[index as int]@.len() == 0,
            },
    {
        if index < self.namespace_favorites.len() && !self.namespace_favorites[index].as_str().is_empty() {
            Some(self.namespace_favorites[index].clone())
        } else {
            None
        }
    }

    /// Put the context picker's cursor on the first entry, or nowhere when
    /// it lists none.
    pub fn select_best_context_match(&mut self, scores: &[Option<i64>])
        requires
            old(self).ctx_filter@.len() > 0 ==> scores@.len() == old(self).ctx_list@.len(),
        ensures
            final(self).ctx_selected == if (if old(self).ctx_filter@.len() == 0 {
                texts(old(self).ctx_list@)
            } else {
                ranked(scored_pairs(texts(old(self).ctx_list@), scores@))
            }).len() > 0 {
                Some(0usize)
            } else {
                None
            },
    {
        let n = self.filtered_contexts(scores).len();
        self.ctx_selected = if n > 0 { Some(0) } else { None };
    }

    /// Put the context picker's cursor on the active context, or the first
    /// entry when it is not listed.
    pub fn select_current_context(&mut self, scores: &[Option<i64>])
        requires
            old(self).ctx_filter@.len() > 0 ==> scores@.len() == old(self).ctx_list@.len(),
        ensures
            final(self).ctx_selected == Some(
                match place_of(
                    if old(self).ctx_filter@.len() == 0 {
                        texts(old(self).ctx_list@)
                    } else {
                        ranked(scored_pairs(texts(old(self).ctx_list@), scores@))
                    },
                    old(self).context@,
                ) {
                    Some(i) => i,
                    None => 0usize,
                },
            ),
    {
        let list = self.filtered_contexts(scores);
        let idx = match place_in(&list, self.context.as_str()) {
            Some(i) => i,
            None => 0,
        };
        self.ctx_selected = Some(idx);
    }

    /// Close the context picker on the selected context and give its name,
    /// for the caller to switch to; with nothing selected, nothing changes.
    pub fn switch_selected_context(&mut self, scores: &[Option<i64>]) -> (r: Option<String>)
        requires
            old(self).ctx_filter@.len() > 0 ==> scores@.len() == old(self).ctx_list@.len(),
        ensures
            ({
                let list = if old(self).ctx_filter@.len() == 0 {
                    texts(old(self).ctx_list@)
                } else {
                    ranked(scored_pairs(texts(old(self).ctx_list@), scores@))
                };
                match old(self).ctx_selected {
                    Some(i) if i < list.len() => {
                        &&& r matches Some(n) && n@ == list[i as int]
                        &&& final(self).mode == Mode::Table
                        &&& final(self).ctx_filter@.len() == 0
                        &&& !final(self).ctx_filtering
                    },
                    _ => r is None && final(self).mode == old(self).mode && final(self).ctx_filter@ == old(self).ctx_filter@,
                }
            }),
    {
        let list = self.filtered_contexts(scores);
        match self.ctx_selected {
            Some(i) => {
                if i < list.len() {
                    let name = list[i].clone();
                    self.mode = Mode::Table;
                    self.ctx_filter = String::new();
                    self.ctx_filtering = false;
                    Some(name)
                } else {
                    None
                }
            },
            None => None,
        }
    }
}


/// No text occurs twice.
pub open spec fn no_repeats(s: Seq<Seq<char>>) -> bool {
    forall|i: int, j: int| 0 <= i < j < s.len() ==> s[i] != s[j]
}

proof fn lemma_push_contains(a: Seq<Seq<char>>, e: Seq<char>, t: Seq<char>)
    ensures
        a.push(e).contains(t) <==> (a.contains(t) || t == e),
{
    let p = a.push(e);
    if a.contains(t) {
        let i = choose|i: int| 0 <= i < a.len() && a[i] == t;
        assert(p[i] == t);
    }
    if t == e {
        assert(p[a.len() as int] == t);
    }
    if p.contains(t) {
        let i = choose|i: int| 0 <= i < p.len() && p[i] == t;
        if i < a.len() {
            assert(a[i] == t);
        }
    }
}

proof fn lemma_without(s: Seq<Seq<char>>, x: Seq<char>)
    ensures
        forall|t: Seq<char>| #[trigger] without(s, x).contains(t) <==> (s.contains(t) && t != x),
        no_repeats(s) ==> no_repeats(without(s, x)),
        without(s, x).len() <= s.len(),
    decreases s.len(),
{
    if s.len() > 0 {
        let d = s.drop_last();
        let l = s.last();
        lemma_without(d, x);
        let wd = without(d, x);
        let w = without(s, x);
        assert(s =~= d.push(l));
        assert forall|t: Seq<char>| #[trigger] w.contains(t) <==> (s.contains(t) && t != x) by {
            lemma_push_contains(d, l, t);
            assert(wd.contains(t) <==> (d.contains(t) && t != x));
            if l == x {
                assert(w =~= wd);
            } else {
                assert(w =~= wd.push(l));
                lemma_push_contains(wd, l, t);
            }
        }
        if no_repeats(s) {
            assert(no_repeats(d)) by {
                assert forall|i: int, j: int| 0 <= i < j < d.len() implies d[i] != d[j] by {
                    assert(d[i] == s[i] && d[j] == s[j]);
                }
            }
            if l != x {
                assert(w =~= wd.push(l));
                assert forall|i: int, j: int| 0 <= i < j < w.len() implies w[i] != w[j] by {
                    if j == w.len() - 1 {
                        assert(w[j] == l);
                        assert(w[i] == wd[i]);
                        if wd[i] == l {
                            assert(wd.contains(l));
                            assert(d.contains(l));
                            let k = choose|k: int| 0 <= k < d.len() && d[k] == l;
                            assert(s[k] == s[s.len() - 1]);
                        }
                    } else {
                        assert(w[i] == wd[i] && w[j] == wd[j]);
                    }
                }
            } else {
                assert(w =~= wd);
            }
        }
    }
}

/// Noting a namespace puts it first (newest first), so that it is among
/// the recents, keeps the list at most eight entries long, brings in no
/// other name, and keeps a list free of repeats free of them.
pub proof fn law_recents_stay_distinct(recents: Seq<Seq<char>>, n: Seq<char>)
    ensures
        noted(recents, n).len() >= 1,
        noted(recents, n)[0] == n,
        noted(recents, n).contains(n),
        noted(recents, n).len() <= MAX_RECENT_NAMESPACES,
        no_repeats(recents) ==> no_repeats(noted(recents, n)),
        forall|t: Seq<char>| noted(recents, n).contains(t) ==> t == n || recents.contains(t),
{
    lemma_without(recents, n);
    let w = without(recents, n);
    let all = seq![n] + w;
    assert(all[0] == n);
    assert(noted(recents, n)[0] == n);
    assert forall|i: int, j: int| no_repeats(recents) && 0 <= i < j < all.len() implies all[i] != all[j] by {
        if i == 0 {
            assert(all[j] == w[j - 1]);
            assert(w.contains(w[j - 1]));
            assert(w[j - 1] != n);
        } else {
            assert(all[i] == w[i - 1] && all[j] == w[j - 1]);
        }
    }
    let r = noted(recents, n);
    assert forall|t: Seq<char>| r.contains(t) implies t == n || recents.contains(t) by {
        let i = choose|i: int| 0 <= i < r.len() && r[i] == t;
        assert(all[i] == t);
        if i > 0 {
            assert(w[i - 1] == t);
            assert(w.contains(t));
        }
    }
}

/// The configured default resource, or pods.
pub open spec fn default_or_pods(d: Option<Seq<char>>) -> Seq<char> {
    match d {
        Some(x) => x,
        None => "pods"@,
    }
}

/// Whether the previous kind is still there after a switch.
pub open spec fn kind_retained(previous: Option<Seq<char>>, available: Seq<Seq<char>>) -> bool {
    previous is Some && available.contains(previous->0)
}

/// The kind a context switch opens: the previous one when the new context
/// still has it, else the configured default resource (pods when none is
/// configured), else pods; none when the context has none of them.
pub open spec fn switched_kind(previous: Option<Seq<char>>, default_resource: Option<Seq<char>>, available: Seq<Seq<char>>) -> Option<Seq<char>> {
    if kind_retained(previous, available) {
        previous
    } else if available.contains(default_or_pods(default_resource)) {
        Some(default_or_pods(default_resource))
    } else if available.contains("pods"@) {
        Some("pods"@)
    } else {
        None
    }
}

/// The status line after a context switch to `name`, and whether it is a
/// warning: the kind now viewed, a warning when the previous kind is
/// unavailable there, or a warning when nothing could be opened; a
/// configuration warning is then added (after a warning already shown,
/// or in place of a plain message).
pub open spec fn switch_flash(
    name: Seq<char>,
    previous: Option<Seq<char>>,
    default_resource: Option<Seq<char>>,
    available: Seq<Seq<char>>,
    warning: Option<Seq<char>>,
) -> (Seq<char>, bool) {
    let f = match switched_kind(previous, default_resource, available) {
        Some(k) => if previous is Some && !kind_retained(previous, available) {
            (previous->0 + " is unavailable in "@ + name + "; viewing "@ + k, true)
        } else {
            ("Viewing "@ + k, false)
        },
        None => ("No resource matches '"@ + default_or_pods(default_resource) + "' or 'pods' in "@ + name, true),
    };
    match warning {
        Some(w) => if f.1 {
            (f.0 + "; "@ + w, true)
        } else {
            (w, true)
        },
        None => f,
    }
}

impl App {
    /// Take up a context that was just connected to, with its resolved
    /// configuration: the command line's `--readonly`/`--write` wins over
    /// the configured `readonly`; the favourite namespaces are the
    /// configured ones; the namespace asked for at launch (`-n`, `-A`) is
    /// used for this first selection only, else `namespace` (what the
    /// caller resolved for the context); the old context's namespace list
    /// is dropped; and the view opens on the kind chosen by
    /// `switched_kind` (`previous` is the kind shown before, when the old
    /// context was connected; `available` the kinds the new context has).
    /// Returns that kind.
    pub fn apply_context_switch(
        &mut self,
        name: String,
        configured_readonly: bool,
        favorites: Vec<String>,
        namespace: String,
        connected: bool,
        default_resource: Option<String>,
        available: &Vec<String>,
        warning: Option<String>,
    ) -> (r: Option<String>)
        ensures
            final(self).readonly == match old(self).readonly_override {
                Some(b) => b,
                None => configured_readonly,
            },
            final(self).readonly_override == old(self).readonly_override,
            final(self).launch_namespace is None,
            final(self).namespace@ == match old(self).launch_namespace {
                Some(n) => n@,
                None => namespace@,
            },
            texts(final(self).namespace_favorites@) == texts(favorites@),
            final(self).context@ == name@,
            final(self).ns_list@.len() == 0,
            crate::config::opt_text(r) == switched_kind(
                if connected { crate::config::opt_text(old(self).kind) } else { None },
                crate::config::opt_text(default_resource),
                texts(available@),
            ),
            crate::config::opt_text(final(self).kind) == crate::config::opt_text(r),
            (final(self).flash@, final(self).flash_err) == switch_flash(
                name@,
                if connected { crate::config::opt_text(old(self).kind) } else { None },
                crate::config::opt_text(default_resource),
                texts(available@),
                crate::config::opt_text(warning),
            ),
            final(self).mode == old(self).mode,
            texts(final(self).recent_namespaces@.map_values(|e: (String, Vec<String>)| e.0)) == texts(
                old(self).recent_namespaces@.map_values(|e: (String, Vec<String>)| e.0),
            ),
    {
        self.readonly = match self.readonly_override {
            Some(b) => b,
            None => configured_readonly,
        };
        self.namespace_favorites = favorites;
        let launched = self.launch_namespace.take();
        self.namespace = match launched {
            Some(n) => n,
            None => namespace,
        };
        self.ns_list = Vec::new();
        let previous = if connected { crate::config::clone_opt(&self.kind) } else { None };
        let ghost prev = crate::config::opt_text(previous);
        let retained = match &previous {
            Some(p) => contains_text(available, p),
            None => false,
        };
        let default = match &default_resource {
            Some(d) => d.clone(),
            None => String::from_str("pods"),
        };
        let pods = String::from_str("pods");
        let kind = if retained {
            crate::config::clone_opt(&previous)
        } else if contains_text(available, &default) {
            Some(default.clone())
        } else if contains_text(available, &pods) {
            Some(pods)
        } else {
            None
        };
        assert(crate::config::opt_text(kind) == switched_kind(prev, crate::config::opt_text(default_resource), texts(available@)));
        let (mut flash, mut err) = match &kind {
            Some(k) => match &previous {
                Some(p) if !retained => {
                    let mut f = p.clone();
                    f.append(" is unavailable in ");
                    f.append(name.as_str());
                    f.append("; viewing ");
                    f.append(k.as_str());
                    (f, true)
                },
                _ => {
                    let mut f = String::from_str("Viewing ");
                    f.append(k.as_str());
                    (f, false)
                },
            },
            None => {
                let mut f = String::from_str("No resource matches '");
                f.append(default.as_str());
                f.append("' or 'pods' in ");
                f.append(name.as_str());
                (f, true)
            },
        };
        match warning {
            Some(w) => {
                if err {
                    flash.append("; ");
                    flash.append(w.as_str());
                } else {
                    flash = w;
                }
                err = true;
            },
            None => {},
        }
        self.flash = flash;
        self.flash_err = err;
        self.kind = crate::config::clone_opt(&kind);
        self.context = name;
        kind
    }
}

proof fn lemma_add_unseen_distinct(acc: Seq<Seq<char>>, items: Seq<Seq<char>>, ok: spec_fn(Seq<char>) -> bool)
    requires
        no_repeats(acc),
    ensures
        no_repeats(add_unseen(acc, items, ok)),
        acc.len() <= add_unseen(acc, items, ok).len(),
        forall|i: int| 0 <= i < acc.len() ==> add_unseen(acc, items, ok)[i] == acc[i],
    decreases items.len(),
{
    if items.len() > 0 {
        lemma_add_unseen_distinct(acc, items.drop_last(), ok);
        let prev = add_unseen(acc, items.drop_last(), ok);
        let x = items.last();
        if ok(x) && !prev.contains(x) {
            let r = prev.push(x);
            assert forall|i: int, j: int| 0 <= i < j < r.len() implies r[i] != r[j] by {
                if j == prev.len() {
                    assert(prev[i] == r[i]);
                    if r[i] == x {
                        assert(prev.contains(x));
                    }
                }
            }
        }
    }
}

proof fn lemma_add_unseen_contains(acc: Seq<Seq<char>>, items: Seq<Seq<char>>, ok: spec_fn(Seq<char>) -> bool)
    ensures
        forall|x: Seq<char>| #[trigger] add_unseen(acc, items, ok).contains(x) <==> acc.contains(x) || (items.contains(x)
            && ok(x)),
    decreases items.len(),
{
    if items.len() > 0 {
        let d = items.drop_last();
        lemma_add_unseen_contains(acc, d, ok);
        let prev = add_unseen(acc, d, ok);
        let y = items.last();
        assert forall|x: Seq<char>| #[trigger] add_unseen(acc, items, ok).contains(x) <==> acc.contains(x) || (items.contains(x)
            && ok(x)) by {
            let r = add_unseen(acc, items, ok);
            if items.contains(x) && ok(x) && !acc.contains(x) {
                let i = choose|i: int| 0 <= i < items.len() && items[i] == x;
                if i < d.len() {
                    assert(d[i] == x);
                    assert(d.contains(x));
                    assert(prev.contains(x));
                    if ok(y) && !prev.contains(y) {
                        let j = choose|j: int| 0 <= j < prev.len() && prev[j] == x;
                        assert(r[j] == x);
                    }
                } else {
                    assert(x == y);
                    if !prev.contains(y) {
                        assert(r[prev.len() as int] == x);
                    }
                }
            }
            if acc.contains(x) {
                assert(prev.contains(x));
                if ok(y) && !prev.contains(y) {
                    let j = choose|j: int| 0 <= j < prev.len() && prev[j] == x;
                    assert(r[j] == x);
                }
            }
            if r.contains(x) {
                let j = choose|j: int| 0 <= j < r.len() && r[j] == x;
                if j < prev.len() {
                    assert(prev[j] == x);
                    assert(prev.contains(x));
                    if !acc.contains(x) {
                        let i = choose|i: int| 0 <= i < d.len() && d[i] == x;
                        assert(items[i] == x);
                    }
                } else {
                    assert(x == y);
                    assert(items[items.len() - 1] == x);
                }
            }
        }
    }
}

impl App {
    /// Without a filter, the namespace picker lists every candidate and
    /// every non-empty favourite, and nothing else but the recents still
    /// listed and the leading `<all>`; the non-empty favourites come first,
    /// in their configured order.
    pub proof fn law_namespace_picker_lists_favourites_first_and_all_candidates(&self, scores: Seq<Option<i64>>)
        requires
            self.ns_filter@.len() == 0,
        ensures
            forall|x: Seq<char>|
                #[trigger] self.namespace_entries(scores).drop_first().contains(x) <==> (texts(self.namespace_favorites@).contains(x)
                    && x.len() > 0) || (self.recents().contains(x) && self.namespace_candidates_spec().contains(x))
                    || self.namespace_candidates_spec().contains(x),
            forall|x: Seq<char>|
                #[trigger] self.namespace_candidates_spec().contains(x) ==> self.namespace_entries(scores).contains(x),
            self.namespace_entries(scores).drop_first().take(
                add_unseen(Seq::empty(), texts(self.namespace_favorites@), |f: Seq<char>| f.len() > 0).len() as int,
            ) == add_unseen(Seq::empty(), texts(self.namespace_favorites@), |f: Seq<char>| f.len() > 0),
    {
        let rest = self.namespace_candidates_spec();
        let favs = add_unseen(Seq::empty(), texts(self.namespace_favorites@), |f: Seq<char>| f.len() > 0);
        let recents = add_unseen(favs, self.recents(), |r: Seq<char>| rest.contains(r));
        let all = add_unseen(recents, rest, |n: Seq<char>| true);
        lemma_add_unseen_contains(Seq::empty(), texts(self.namespace_favorites@), |f: Seq<char>| f.len() > 0);
        lemma_add_unseen_contains(favs, self.recents(), |r: Seq<char>| rest.contains(r));
        lemma_add_unseen_contains(recents, rest, |n: Seq<char>| true);
        lemma_add_unseen_distinct(Seq::empty(), texts(self.namespace_favorites@), |f: Seq<char>| f.len() > 0);
        lemma_add_unseen_distinct(favs, self.recents(), |r: Seq<char>| rest.contains(r));
        lemma_add_unseen_distinct(recents, rest, |n: Seq<char>| true);
        let e = seq!["<all>"@] + all;
        assert(e.drop_first() =~= all);
        assert(all.take(favs.len() as int) =~= favs);
        assert forall|x: Seq<char>| #[trigger] rest.contains(x) implies e.contains(x) by {
            assert(all.contains(x));
            let j = choose|j: int| 0 <= j < all.len() && all[j] == x;
            assert(e[j + 1] == x);
        }
    }

    /// Without a filter, the namespace picker names nothing twice after its
    /// leading `<all>`: a favourite that is also a recent or a listed
    /// namespace is listed once, at its place among the favourites, and a
    /// recent that is also listed once, among the recents.
    pub proof fn law_namespace_picker_lists_each_name_once(&self, scores: Seq<Option<i64>>)
        requires
            self.ns_filter@.len() == 0,
        ensures
            self.namespace_entries(scores).len() >= 1,
            self.namespace_entries(scores)[0] == "<all>"@,
            no_repeats(self.namespace_entries(scores).drop_first()),
    {
        let rest = self.namespace_candidates_spec();
        let favs = add_unseen(Seq::empty(), texts(self.namespace_favorites@), |f: Seq<char>| f.len() > 0);
        let recents = add_unseen(favs, self.recents(), |r: Seq<char>| rest.contains(r));
        let all = add_unseen(recents, rest, |n: Seq<char>| true);
        lemma_add_unseen_distinct(Seq::empty(), texts(self.namespace_favorites@), |f: Seq<char>| f.len() > 0);
        lemma_add_unseen_distinct(favs, self.recents(), |r: Seq<char>| rest.contains(r));
        lemma_add_unseen_distinct(recents, rest, |n: Seq<char>| true);
        assert((seq!["<all>"@] + all).drop_first() =~= all);
    }
}

} // verus!
