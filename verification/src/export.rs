//! The Export tab: a SillyTavern lorebook built from the library's entries.

use vstd::prelude::*;

use std::path::PathBuf;

use crate::entry::{EntryExtensions, WorldInfoEntry};
use crate::text::{
    chars_of, decimal, lemma_seq_less_irreflexive, lemma_seq_less_total,
    lemma_seq_less_transitive, less_chars, push_decimal, same_chars, seq_less, string_from_chars,
    strictly_ascending, trim, trimmed,
};

verus! {

/// A file system path, as `std::path::PathBuf` holds it.
#[verifier::external_type_specification]
#[verifier::external_body]
pub struct ExPathBuf(std::path::PathBuf);

/// What the Export tab shows and remembers.
pub struct ExportState {
    pub output_path: PathBuf,
    pub name: String,
    pub description: String,
    pub scan_depth: u32,
    pub token_budget: u32,
    pub recursive_scanning: bool,
    pub default_priority: u32,
    pub default_probability: u8,
    pub default_depth: u32,
    pub default_selective: bool,
    pub default_constant: bool,
}

impl ExportState {
    /// The Export tab writing to `output_path`: a lorebook named
    /// `Lorebook` with no description, scan depth 50, token budget 2000,
    /// no recursive scanning, and per-entry defaults of priority 100,
    /// probability 100, depth 4, selective and not constant.
    pub fn new(output_path: PathBuf) -> (res: Self)
        ensures
            res.output_path == output_path,
            res.name@ == "Lorebook"@,
            res.description@.len() == 0,
            res.scan_depth == 50,
            res.token_budget == 2000,
            !res.recursive_scanning,
            res.default_priority == 100,
            res.default_probability == 100,
            res.default_depth == 4,
            res.default_selective,
            !res.default_constant,
    {
        ExportState {
            output_path,
            name: string_from_chars(chars_of("Lorebook").as_slice()),
            description: String::new(),
            scan_depth: 50,
            token_budget: 2000,
            recursive_scanning: false,
            default_priority: 100,
            default_probability: 100,
            default_depth: 4,
            default_selective: true,
            default_constant: false,
        }
    }

    /// The output path typed into the tab, trimmed; an empty one is not
    /// taken.
    pub fn typed_path(text: &str) -> (res: Option<String>)
        ensures
            match res {
                Some(p) => p@ == trim(text@) && trim(text@).len() > 0,
                None => trim(text@).len() == 0,
            },
    {
        let t = trimmed(chars_of(text).as_slice());
        if t.len() == 0 {
            None
        } else {
            Some(string_from_chars(t.as_slice()))
        }
    }
}

/// `e` as it is exported: a priority, depth or probability of 0 takes the
/// tab's default, `order`, `insertion_order` and the extensions' weight
/// are the priority, and the extensions repeat the depth and probability.
pub open spec fn exported(e: WorldInfoEntry, st: ExportState) -> WorldInfoEntry {
    let priority = if e.priority == 0 { st.default_priority } else { e.priority };
    let depth = if e.depth == 0 { st.default_depth } else { e.depth };
    let probability = if e.probability == 0 { st.default_probability } else { e.probability };
    WorldInfoEntry {
        priority,
        depth,
        probability,
        order: priority,
        insertion_order: priority,
        extensions: EntryExtensions { weight: priority, depth, probability, ..e.extensions },
        ..e
    }
}

/// Exporting keeps an entry's own priority, depth and probability where
/// they are set (not 0) and takes the tab's defaults where they are 0; the
/// order, insertion order and extensions' weight follow the priority, the
/// extensions repeat the depth and probability, and the entry's text,
/// keys and identity are unchanged.
pub proof fn law_export_keeps_own_settings(e: WorldInfoEntry, st: ExportState)
    ensures
        ({
            let x = exported(e, st);
            &&& e.depth != 0 ==> x.depth == e.depth && x.extensions.depth == e.depth
            &&& e.depth == 0 ==> x.depth == st.default_depth && x.extensions.depth
                == st.default_depth
            &&& e.priority != 0 ==> x.priority == e.priority
            &&& e.priority == 0 ==> x.priority == st.default_priority
            &&& e.probability != 0 ==> x.probability == e.probability && x.extensions.probability
                == e.probability
            &&& e.probability == 0 ==> x.probability == st.default_probability
                && x.extensions.probability == st.default_probability
            &&& x.order == x.priority && x.insertion_order == x.priority && x.extensions.weight
                == x.priority
            &&& x.uid == e.uid && x.id == e.id && x.name == e.name && x.comment == e.comment
                && x.content == e.content && x.keys == e.keys && x.key == e.key
        }),
{
}

/// An entry as it is exported (see `exported`).
pub fn export_entry(e: WorldInfoEntry, st: &ExportState) -> (res: WorldInfoEntry)
    ensures
        res == exported(e, *st),
{
    let priority = if e.priority == 0 { st.default_priority } else { e.priority };
    let depth = if e.depth == 0 { st.default_depth } else { e.depth };
    let probability = if e.probability == 0 { st.default_probability } else { e.probability };
    let extensions = EntryExtensions { weight: priority, depth, probability, ..e.extensions };
    WorldInfoEntry {
        priority,
        depth,
        probability,
        order: priority,
        insertion_order: priority,
        extensions,
        ..e
    }
}

/// `serde_json::json!({})`: an empty JSON object. The value is opaque
/// here, so nothing is stated of it.
#[verifier::external_body]
fn empty_object() -> serde_json::Value {
    serde_json::Value::Object(serde_json::Map::new())
}

/// A SillyTavern lorebook.
pub struct WorldInfo {
    pub name: String,
    pub description: String,
    pub is_creation: bool,
    pub scan_depth: u32,
    pub token_budget: u32,
    pub recursive_scanning: bool,
    pub extensions: serde_json::Value,
    /// The entries, each under its uid as text, in ascending order of
    /// those keys, each key once (as a `BTreeMap<String, _>` keeps them).
    pub entries: Vec<(String, WorldInfoEntry)>,
}

pub open spec fn entry_keys(v: Seq<(String, WorldInfoEntry)>) -> Seq<Seq<char>> {
    v.map_values(|p: (String, WorldInfoEntry)| p.0@)
}

/// A position of `k` among the keys.
pub open spec fn key_position(v: Seq<(String, WorldInfoEntry)>, k: Seq<char>) -> int {
    choose|i: int| 0 <= i < v.len() && (#[trigger] v[i]).0@ == k
}

/// The entries as a map from key to entry.
pub open spec fn entries_map(v: Seq<(String, WorldInfoEntry)>) -> Map<Seq<char>, WorldInfoEntry> {
    Map::new(
        |k: Seq<char>| exists|i: int| 0 <= i < v.len() && (#[trigger] v[i]).0@ == k,
        |k: Seq<char>| v[key_position(v, k)].1,
    )
}

proof fn lemma_ascending_distinct(v: Seq<Seq<char>>, i: int, j: int)
    requires
        strictly_ascending(v),
        0 <= i < v.len(),
        0 <= j < v.len(),
        i != j,
    ensures
        v[i] != v[j],
{
    if i < j {
        assert(seq_less(v[i], v[j]));
        if v[i] == v[j] {
            lemma_seq_less_irreflexive(v[i]);
        }
    } else {
        assert(seq_less(v[j], v[i]));
        if v[i] == v[j] {
            lemma_seq_less_irreflexive(v[i]);
        }
    }
}

proof fn lemma_map_at(v: Seq<(String, WorldInfoEntry)>, n: int)
    requires
        strictly_ascending(entry_keys(v)),
        0 <= n < v.len(),
    ensures
        entries_map(v).contains_key(v[n].0@),
        entries_map(v)[v[n].0@] == v[n].1,
{
    let k = v[n].0@;
    assert(entry_keys(v)[n] == k);
    assert(entries_map(v).contains_key(k));
    let i = key_position(v, k);
    assert(entries_map(v)[k] == v[i].1);
    if i != n {
        assert(entry_keys(v)[i] == k);
        lemma_ascending_distinct(entry_keys(v), i, n);
    }
}

impl WorldInfo {
    /// An empty lorebook named `name`: no description, not a creation,
    /// scan depth 50, token budget 2000, no recursive scanning.
    pub fn new(name: String) -> (res: Self)
        ensures
            res.name@ == name@,
            res.description@.len() == 0,
            !res.is_creation,
            res.scan_depth == 50,
            res.token_budget == 2000,
            !res.recursive_scanning,
            res.entries@.len() == 0,
    {
        WorldInfo {
            name,
            description: String::new(),
            is_creation: false,
            scan_depth: 50,
            token_budget: 2000,
            recursive_scanning: false,
            extensions: empty_object(),
            entries: Vec::new(),
        }
    }

    /// Puts `e` under `key`, replacing what was there.
    pub fn insert_entry(&mut self, key: String, e: WorldInfoEntry)
        requires
            strictly_ascending(entry_keys(old(self).entries@)),
        ensures
            strictly_ascending(entry_keys(final(self).entries@)),
            entries_map(final(self).entries@) == entries_map(old(self).entries@).insert(key@, e),
            final(self).name == old(self).name,
            final(self).description == old(self).description,
            final(self).is_creation == old(self).is_creation,
            final(self).scan_depth == old(self).scan_depth,
            final(self).token_budget == old(self).token_budget,
            final(self).recursive_scanning == old(self).recursive_scanning,
    {
        let ghost old_v = self.entries@;
        let ghost old_k = entry_keys(old_v);
        let ghost kv = key@;
        let kc = chars_of(key.as_str());
        let mut p: usize = 0;
        while p < self.entries.len() && less_chars(
            chars_of(self.entries[p].0.as_str()).as_slice(),
            kc.as_slice(),
        )
            invariant
                p <= self.entries@.len(),
                self.entries@ == old_v,
                old_k == entry_keys(old_v),
                kc@ == kv,
                forall|j: int| 0 <= j < p ==> seq_less(#[trigger] old_k[j], kv),
            decreases self.entries@.len() - p,
        {
            assert(old_k[p as int] == self.entries@[p as int].0@);
            p = p + 1;
        }
        if p < self.entries.len() && same_chars(
            chars_of(self.entries[p].0.as_str()).as_slice(),
            kc.as_slice(),
        ) {
            assert(old_k[p as int] == kv);
            self.entries.set(p, (key, e));
            let ghost new_v = self.entries@;
            assert(entry_keys(new_v) =~= old_k);
            assert forall|k: Seq<char>|
                #![trigger entries_map(new_v).contains_key(k)]
                entries_map(new_v).contains_key(k) == entries_map(old_v).insert(kv, e).contains_key(k) by {
                if entries_map(new_v).contains_key(k) {
                    let i = key_position(new_v, k);
                    assert(entry_keys(new_v)[i] == k);
                    assert(old_v[i].0@ == k);
                }
                if entries_map(old_v).contains_key(k) {
                    let i = key_position(old_v, k);
                    assert(old_k[i] == k);
                    assert(new_v[i].0@ == k);
                }
                if k == kv {
                    assert(new_v[p as int].0@ == k);
                }
            }
            assert forall|k: Seq<char>| #[trigger] entries_map(new_v).contains_key(k) implies entries_map(
                new_v,
            )[k] == entries_map(old_v).insert(kv, e)[k] by {
                let i = key_position(new_v, k);
                assert(entry_keys(new_v)[i] == k);
                lemma_map_at(new_v, i);
                if k == kv {
                    if i != p {
                        assert(entry_keys(new_v)[p as int] == k);
                        lemma_ascending_distinct(entry_keys(new_v), i, p as int);
                    }
                } else {
                    assert(i != p);
                    assert(old_v[i] == new_v[i]);
                    assert(old_k[i] == k);
                    lemma_map_at(old_v, i);
                }
            }
            assert(entries_map(new_v) =~= entries_map(old_v).insert(kv, e));
            return;
        }
        proof {
            if p < old_v.len() {
                assert(old_k[p as int] == old_v[p as int].0@);
                lemma_seq_less_total(old_k[p as int], kv);
                assert(seq_less(kv, old_k[p as int]));
                assert forall|j: int| p < j < old_k.len() implies seq_less(kv, #[trigger] old_k[j]) by {
                    assert(seq_less(old_k[p as int], old_k[j]));
                    lemma_seq_less_transitive(kv, old_k[p as int], old_k[j]);
                }
            }
        }
        self.entries.insert(p, (key, e));
        let ghost new_v = self.entries@;
        let ghost new_k = entry_keys(new_v);
        assert(new_k =~= old_k.insert(p as int, kv));
        assert forall|i: int, j: int| 0 <= i < j < new_k.len() implies seq_less(
            #[trigger] new_k[i],
            #[trigger] new_k[j],
        ) by {
            if j < p {
            } else if j == p {
            } else if i < p {
                if p < old_k.len() {
                    assert(seq_less(old_k[i], kv));
                    if j - 1 == p {
                        assert(seq_less(kv, old_k[p as int]));
                    } else {
                        assert(seq_less(kv, old_k[j - 1]));
                    }
                    lemma_seq_less_transitive(old_k[i], kv, old_k[j - 1]);
                }
            } else if i == p {
            } else {
            }
        }
        assert forall|k: Seq<char>|
            #![trigger entries_map(new_v).contains_key(k)]
            entries_map(new_v).contains_key(k) == entries_map(old_v).insert(kv, e).contains_key(k) by {
            if entries_map(new_v).contains_key(k) {
                let i = key_position(new_v, k);
                if i < p {
                    assert(old_v[i].0@ == k);
                } else if i > p {
                    assert(old_v[i - 1].0@ == k);
                }
            }
            if entries_map(old_v).contains_key(k) {
                let i = key_position(old_v, k);
                if i < p {
                    assert(new_v[i].0@ == k);
                } else {
                    assert(new_v[i + 1].0@ == k);
                }
            }
            if k == kv {
                assert(new_v[p as int].0@ == k);
            }
        }
        assert forall|k: Seq<char>| #[trigger] entries_map(new_v).contains_key(k) implies entries_map(
            new_v,
        )[k] == entries_map(old_v).insert(kv, e)[k] by {
            let i = key_position(new_v, k);
            assert(new_k[i] == k);
            lemma_map_at(new_v, i);
            if i == p {
            } else if i < p {
                assert(old_v[i] == new_v[i]);
                assert(old_k[i] == k);
                assert(new_k[p as int] == kv);
                lemma_ascending_distinct(new_k, i, p as int);
                lemma_map_at(old_v, i);
            } else {
                assert(old_v[i - 1] == new_v[i]);
                assert(old_k[i - 1] == k);
                lemma_ascending_distinct(new_k, i, p as int);
                lemma_map_at(old_v, i - 1);
            }
        }
        assert(entries_map(new_v) =~= entries_map(old_v).insert(kv, e));
    }
}

/// The lorebook's entries: each exported entry under its uid as text, a
/// later entry with the same uid replacing an earlier one.
pub open spec fn export_map(es: Seq<WorldInfoEntry>, st: ExportState) -> Map<Seq<char>, WorldInfoEntry>
    decreases es.len(),
{
    if es.len() == 0 {
        Map::empty()
    } else {
        export_map(es.drop_last(), st).insert(decimal(es.last().uid as nat), exported(es.last(), st))
    }
}

/// The lorebook the Export tab writes for the library's entries: named and
/// described as the tab says, with its scan depth, token budget and
/// recursive scanning, and every entry exported under its uid.
pub fn build_world_info(st: &ExportState, entries: Vec<WorldInfoEntry>) -> (res: WorldInfo)
    ensures
        res.name@ == st.name@,
        res.description@ == st.description@,
        !res.is_creation,
        res.scan_depth == st.scan_depth,
        res.token_budget == st.token_budget,
        res.recursive_scanning == st.recursive_scanning,
        strictly_ascending(entry_keys(res.entries@)),
        entries_map(res.entries@) == export_map(entries@, *st),
{
    let mut wb = WorldInfo::new(st.name.clone());
    wb.description = st.description.clone();
    wb.scan_depth = st.scan_depth;
    wb.token_budget = st.token_budget;
    wb.recursive_scanning = st.recursive_scanning;
    assert(entries_map(wb.entries@) =~= Map::<Seq<char>, WorldInfoEntry>::empty());
    let ghost all = entries@;
    let mut rest: Vec<WorldInfoEntry> = entries;
    let mut rev: Vec<WorldInfoEntry> = Vec::new();
    while rest.len() > 0
        invariant
            rest@.len() + rev@.len() == all.len(),
            forall|k: int| 0 <= k < rest@.len() ==> rest@[k] == all[k],
            forall|k: int| 0 <= k < rev@.len() ==> rev@[k] == all[all.len() - 1 - k],
        decreases rest@.len(),
    {
        let e = rest.pop().unwrap();
        rev.push(e);
    }
    let mut j: usize = rev.len();
    while j > 0
        invariant
            j == rev@.len(),
            j <= all.len(),
            forall|k: int| 0 <= k < rev@.len() ==> rev@[k] == all[all.len() - 1 - k],
            strictly_ascending(entry_keys(wb.entries@)),
            entries_map(wb.entries@) == export_map(all.take(all.len() - j), *st),
            wb.name@ == st.name@,
            wb.description@ == st.description@,
            !wb.is_creation,
            wb.scan_depth == st.scan_depth,
            wb.token_budget == st.token_budget,
            wb.recursive_scanning == st.recursive_scanning,
        decreases j,
    {
        let e = rev.pop().unwrap();
        j = j - 1;
        let ghost prev = all.take(all.len() - (j + 1));
        assert(all.take(all.len() - j) =~= prev.push(e));
        assert(all.take(all.len() - j).drop_last() =~= prev);
        let mut kv: Vec<char> = Vec::new();
        push_decimal(&mut kv, e.uid);
        let key = string_from_chars(kv.as_slice());
        let x = export_entry(e, st);
        wb.insert_entry(key, x);
    }
    assert(all.take(all.len() as int) =~= all);
    wb
}


/// Every exported entry carries its priority as its order, insertion order
/// and weight, and its depth and probability in its extensions; there is
/// one under each uid of the library, and nothing else.
pub proof fn law_export_stamps_priority(es: Seq<WorldInfoEntry>, st: ExportState, k: Seq<char>)
    ensures
        export_map(es, st).contains_key(k) <==> exists|i: int|
            0 <= i < es.len() && decimal(#[trigger] es[i].uid as nat) == k,
        export_map(es, st).contains_key(k) ==> {
            let x = export_map(es, st)[k];
            &&& x.order == x.priority
            &&& x.insertion_order == x.priority
            &&& x.extensions.weight == x.priority
            &&& x.extensions.depth == x.depth
            &&& x.extensions.probability == x.probability
        },
    decreases es.len(),
{
    if es.len() > 0 {
        let init = es.drop_last();
        law_export_stamps_priority(init, st, k);
        if export_map(es, st).contains_key(k) && decimal(es.last().uid as nat) != k {
            assert(export_map(init, st).contains_key(k));
            let i = choose|i: int| 0 <= i < init.len() && decimal(#[trigger] init[i].uid as nat) == k;
            assert(es[i] == init[i]);
        }
        if exists|i: int| 0 <= i < es.len() && decimal(#[trigger] es[i].uid as nat) == k {
            let i = choose|i: int| 0 <= i < es.len() && decimal(#[trigger] es[i].uid as nat) == k;
            if i < es.len() - 1 {
                assert(init[i] == es[i]);
            }
        }
    }
}

} // verus!
