//! The state of the Library tab: the entries on show, the selection, the
//! search, and what adding, duplicating and deleting do to them.

use vstd::prelude::*;

use crate::entry::{clone_strings, EntryExtensions, WorldInfoEntry};
use crate::pages::owned;
use crate::text::{
    ascii_lower, chars_of, contains, contains_seq, decimal, push_all, push_decimal,
    string_from_chars, to_ascii_lower, trim,
};
use crate::wikitext::strings_view;

verus! {

/// How the Library tab shows its entries.
#[derive(Debug, Clone, Copy, PartialEq, Eq, Structural)]
pub enum ViewMode {
    Table,
    SideEdit,
}

/// What the Library tab shows and remembers.
pub struct LibraryState {
    pub entries: Vec<WorldInfoEntry>,
    pub selected: Option<u64>,
    pub search: String,
    pub view: ViewMode,
    pub new_entry_name: String,
    pub error: Option<String>,
}

/// `e` matches the lower-cased query `q`: its name, comment, content or
/// one of its keys holds `q`, ignoring ASCII case.
pub open spec fn entry_matches(e: WorldInfoEntry, q: Seq<char>) -> bool {
    ||| contains_seq(ascii_lower(e.name@), q)
    ||| contains_seq(ascii_lower(e.comment@), q)
    ||| contains_seq(ascii_lower(e.content@), q)
    ||| exists|k: int| 0 <= k < e.keys@.len() && contains_seq(ascii_lower(#[trigger] e.keys@[k]@), q)
}

/// The positions among the first `n` entries of those that match `q`.
pub open spec fn matching_upto(entries: Seq<WorldInfoEntry>, q: Seq<char>, n: int) -> Seq<int>
    decreases n,
{
    if n <= 0 {
        Seq::empty()
    } else {
        let init = matching_upto(entries, q, n - 1);
        if entry_matches(entries[n - 1], q) {
            init.push(n - 1)
        } else {
            init
        }
    }
}

proof fn lemma_matching_upto(entries: Seq<WorldInfoEntry>, q: Seq<char>, n: int)
    requires
        0 <= n <= entries.len(),
    ensures
        forall|i: int|
            matching_upto(entries, q, n).contains(i) <==> (0 <= i < n && entry_matches(entries[i], q)),
        forall|a: int, b: int|
            0 <= a < b < matching_upto(entries, q, n).len() ==> (#[trigger] matching_upto(
                entries,
                q,
                n,
            )[a]) < (#[trigger] matching_upto(entries, q, n)[b]),
    decreases n,
{
    if n > 0 {
        lemma_matching_upto(entries, q, n - 1);
        let init = matching_upto(entries, q, n - 1);
        let r = matching_upto(entries, q, n);
        assert forall|i: int| r.contains(i) <==> (0 <= i < n && entry_matches(entries[i], q)) by {
            assert(init.contains(i) <==> (0 <= i < n - 1 && entry_matches(entries[i], q)));
            if entry_matches(entries[n - 1], q) {
                assert(r == init.push(n - 1));
                if r.contains(i) {
                    let x = choose|x: int| 0 <= x < r.len() && r[x] == i;
                    if x < init.len() {
                        assert(init[x] == i);
                    }
                }
                if 0 <= i < n - 1 && entry_matches(entries[i], q) {
                    let x = choose|x: int| 0 <= x < init.len() && init[x] == i;
                    assert(r[x] == i);
                }
                if i == n - 1 {
                    assert(r[init.len() as int] == i);
                }
            } else {
                assert(r == init);
            }
        }
        if entry_matches(entries[n - 1], q) {
            assert forall|a: int, b: int| 0 <= a < b < r.len() implies (#[trigger] r[a]) < (
            #[trigger] r[b]) by {
                if b == init.len() {
                    assert(init.contains(r[a]));
                } else {
                    assert(r[a] == init[a] && r[b] == init[b]);
                }
            }
        }
    }
}

/// The search shows, in ascending order, exactly the entries whose name,
/// comment, content or one of whose keys holds the search text, ignoring
/// ASCII case.
pub proof fn law_search_finds(entries: Seq<WorldInfoEntry>, search: Seq<char>, i: int)
    ensures
        ({
            let q = ascii_lower(search);
            let r = matching_upto(entries, q, entries.len() as int);
            &&& 0 <= i < entries.len() && contains_seq(ascii_lower(entries[i].content@), q)
                ==> r.contains(i)
            &&& 0 <= i < entries.len() && contains_seq(ascii_lower(entries[i].name@), q)
                ==> r.contains(i)
            &&& 0 <= i < entries.len() && contains_seq(ascii_lower(entries[i].comment@), q)
                ==> r.contains(i)
            &&& 0 <= i < entries.len() && (exists|k: int|
                0 <= k < entries[i].keys@.len() && contains_seq(
                    ascii_lower(#[trigger] entries[i].keys@[k]@),
                    q,
                )) ==> r.contains(i)
            &&& r.contains(i) ==> 0 <= i < entries.len() && (contains_seq(
                ascii_lower(entries[i].name@),
                q,
            ) || contains_seq(ascii_lower(entries[i].comment@), q) || contains_seq(
                ascii_lower(entries[i].content@),
                q,
            ) || exists|k: int|
                0 <= k < entries[i].keys@.len() && contains_seq(
                    ascii_lower(#[trigger] entries[i].keys@[k]@),
                    q,
                ))
            &&& forall|a: int, b: int| 0 <= a < b < r.len() ==> (#[trigger] r[a]) < (#[trigger] r[b])
        }),
{
    lemma_matching_upto(entries, ascii_lower(search), entries.len() as int);
}

fn any_key_contains(keys: &Vec<String>, q: &[char]) -> (res: bool)
    ensures
        res == exists|k: int| 0 <= k < keys@.len() && contains_seq(ascii_lower(#[trigger] keys@[k]@), q@),
{
    let mut i: usize = 0;
    while i < keys.len()
        invariant
            i <= keys@.len(),
            forall|k: int| 0 <= k < i ==> !contains_seq(ascii_lower(#[trigger] keys@[k]@), q@),
        decreases keys@.len() - i,
    {
        let lower = to_ascii_lower(chars_of(keys[i].as_str()).as_slice());
        if contains(lower.as_slice(), q) {
            return true;
        }
        i = i + 1;
    }
    false
}

fn field_contains(s: &String, q: &[char]) -> (res: bool)
    ensures
        res == contains_seq(ascii_lower(s@), q@),
{
    let lower = to_ascii_lower(chars_of(s.as_str()).as_slice());
    contains(lower.as_slice(), q)
}

/// The name of a row added from the toolbar: the name typed for it, or
/// `New entry #` and its uid.
pub open spec fn new_entry_name_text(typed: Seq<char>, uid: u64) -> Seq<char> {
    if typed.len() == 0 {
        "New entry #"@ + decimal(uid as nat)
    } else {
        typed
    }
}

/// The duplicate of `src` with uid `uid`: the same values but for its uid,
/// its name (with ` (copy)` added), and its order and insertion order (the
/// uid's low 32 bits).
pub open spec fn is_duplicate(src: WorldInfoEntry, uid: u64, res: WorldInfoEntry) -> bool {
    &&& res.uid == uid
    &&& res.name@ == src.name@ + " (copy)"@
    &&& res.order == uid as u32
    &&& res.insertion_order == uid as u32
    &&& strings_view(res.key@) == strings_view(src.key@)
    &&& strings_view(res.keysecondary@) == strings_view(src.keysecondary@)
    &&& strings_view(res.secondary_keys@) == strings_view(src.secondary_keys@)
    &&& strings_view(res.keys@) == strings_view(src.keys@)
    &&& res.comment@ == src.comment@
    &&& res.content@ == src.content@
    &&& res.constant == src.constant
    &&& res.selective == src.selective
    &&& res.selective_logic == src.selective_logic
    &&& res.position == src.position
    &&& res.disable == src.disable
    &&& res.add_memo == src.add_memo
    &&& res.exclude_recursion == src.exclude_recursion
    &&& res.probability == src.probability
    &&& res.display_index == src.display_index
    &&& res.use_probability == src.use_probability
    &&& res.id == src.id
    &&& res.priority == src.priority
    &&& res.enabled == src.enabled
    &&& res.extensions.depth == src.extensions.depth
    &&& res.extensions.weight == src.extensions.weight
    &&& res.extensions.add_memo == src.extensions.add_memo
    &&& res.extensions.probability == src.extensions.probability
    &&& res.extensions.display_index == src.extensions.display_index
    &&& res.extensions.selective_logic == src.extensions.selective_logic
    &&& res.extensions.use_probability == src.extensions.use_probability
    &&& res.extensions.character_filter is Some == src.extensions.character_filter is Some
    &&& res.extensions.exclude_recursion == src.extensions.exclude_recursion
    &&& res.case_sensitive == src.case_sensitive
    &&& res.depth == src.depth
    &&& res.character_filter is Some == src.character_filter is Some
}

/// `Value::clone`: a copy of a JSON value. The value is opaque here, so
/// nothing is stated of the copy.
#[verifier::external_body]
fn clone_json(v: &serde_json::Value) -> serde_json::Value {
    v.clone()
}

fn clone_filter(v: &Option<serde_json::Value>) -> (res: Option<serde_json::Value>)
    ensures
        res is Some == v is Some,
{
    match v {
        Some(x) => Some(clone_json(x)),
        None => None,
    }
}

impl LibraryState {
    /// An empty library tab showing the table.
    pub fn new() -> (res: Self)
        ensures
            res.entries@.len() == 0,
            res.selected is None,
            res.search@.len() == 0,
            res.view == ViewMode::Table,
            res.new_entry_name@.len() == 0,
            res.error is None,
    {
        LibraryState {
            entries: Vec::new(),
            selected: None,
            search: String::new(),
            view: ViewMode::Table,
            new_entry_name: String::new(),
            error: None,
        }
    }

    /// Shows the entries loaded from the library, or says why they could
    /// not be loaded (keeping those on show).
    pub fn reload_from(&mut self, loaded: Result<Vec<WorldInfoEntry>, String>)
        ensures
            match loaded {
                Ok(v) => final(self).entries == v && final(self).error is None,
                Err(m) => final(self).entries == old(self).entries && match final(self).error {
                    Some(e) => e@ == "load: "@ + m@,
                    None => false,
                },
            },
            final(self).selected == old(self).selected,
            final(self).search == old(self).search,
            final(self).view == old(self).view,
            final(self).new_entry_name == old(self).new_entry_name,
    {
        match loaded {
            Ok(v) => {
                self.entries = v;
                self.error = None;
            },
            Err(m) => {
                let mut t = chars_of("load: ");
                push_all(&mut t, chars_of(m.as_str()).as_slice());
                self.error = Some(string_from_chars(t.as_slice()));
            },
        }
    }

    /// The positions of the entries that the search shows: those whose
    /// name, comment, content or a key holds the search text, ignoring
    /// ASCII case (all of them for an empty search).
    pub fn matching(&self) -> (res: Vec<usize>)
        ensures
            res@.map_values(|i: usize| i as int) == matching_upto(
                self.entries@,
                ascii_lower(self.search@),
                self.entries@.len() as int,
            ),
    {
        let q = to_ascii_lower(chars_of(self.search.as_str()).as_slice());
        let mut out: Vec<usize> = Vec::new();
        let mut i: usize = 0;
        while i < self.entries.len()
            invariant
                i <= self.entries@.len(),
                q@ == ascii_lower(self.search@),
                out@.map_values(|i: usize| i as int) == matching_upto(self.entries@, q@, i as int),
            decreases self.entries@.len() - i,
        {
            let e = &self.entries[i];
            let hit = field_contains(&e.name, q.as_slice()) || field_contains(&e.comment, q.as_slice())
                || field_contains(&e.content, q.as_slice()) || any_key_contains(&e.keys, q.as_slice());
            if hit {
                let ghost before = out@.map_values(|i: usize| i as int);
                out.push(i);
                assert(out@.map_values(|i: usize| i as int) =~= before.push(i as int));
            }
            i = i + 1;
        }
        out
    }

    /// The entry for a row added from the toolbar with uid `uid`: named as
    /// typed (or `New entry #uid`), no keys, no content or comment,
    /// priority 50 and position 1.
    pub fn new_entry(&self, uid: u64) -> (res: WorldInfoEntry)
        ensures
            res.is_fresh(
                uid,
                new_entry_name_text(self.new_entry_name@, uid),
                Seq::empty(),
                Seq::empty(),
                Seq::empty(),
                50,
                1,
            ),
    {
        let typed = chars_of(self.new_entry_name.as_str());
        let name = if typed.len() == 0 {
            let mut t = chars_of("New entry #");
            push_decimal(&mut t, uid);
            string_from_chars(t.as_slice())
        } else {
            self.new_entry_name.clone()
        };
        let keys: Vec<String> = Vec::new();
        assert(strings_view(keys@) =~= Seq::<Seq<char>>::empty());
        WorldInfoEntry::new(uid, name, keys, String::new(), String::new(), 50, 1)
    }

    /// The position of the selected entry, if one is selected and shown.
    pub fn selected_index(&self) -> (res: Option<usize>)
        ensures
            match res {
                Some(i) => self.selected == Some(self.entries@[i as int].uid) && i < self.entries@.len()
                    && forall|k: int| 0 <= k < i ==> self.entries@[k].uid != self.entries@[i as int].uid,
                None => match self.selected {
                    Some(u) => forall|k: int| 0 <= k < self.entries@.len() ==> self.entries@[k].uid != u,
                    None => true,
                },
            },
    {
        match self.selected {
            None => None,
            Some(uid) => {
                let mut i: usize = 0;
                while i < self.entries.len()
                    invariant
                        i <= self.entries@.len(),
                        self.selected == Some(uid),
                        forall|k: int| 0 <= k < i ==> self.entries@[k].uid != uid,
                    decreases self.entries@.len() - i,
                {
                    if self.entries[i].uid == uid {
                        return Some(i);
                    }
                    i = i + 1;
                }
                None
            },
        }
    }

    /// The name of the selected entry, or nothing.
    pub fn selected_name(&self) -> (res: String)
        ensures
            match self.selected {
                Some(u) => (exists|k: int| 0 <= k < self.entries@.len() && self.entries@[k].uid == u)
                    ==> exists|k: int| 0 <= k < self.entries@.len() && self.entries@[k].uid == u
                    && res@ == self.entries@[k].name@
                    && forall|j: int| 0 <= j < k ==> self.entries@[j].uid != u,
                None => res@.len() == 0,
            },
            (match self.selected {
                Some(u) => forall|k: int| 0 <= k < self.entries@.len() ==> self.entries@[k].uid != u,
                None => true,
            }) ==> res@.len() == 0,
    {
        match self.selected_index() {
            Some(i) => self.entries[i].name.clone(),
            None => String::new(),
        }
    }

    /// Shows `copy` as a new entry and selects it.
    pub fn add_selected(&mut self, copy: WorldInfoEntry)
        ensures
            final(self).entries@ == old(self).entries@.push(copy),
            final(self).selected == Some(copy.uid),
            final(self).search == old(self).search,
            final(self).view == old(self).view,
            final(self).new_entry_name == old(self).new_entry_name,
            final(self).error == old(self).error,
    {
        let uid = copy.uid;
        self.entries.push(copy);
        self.selected = Some(uid);
    }

    /// Stops showing the entry with uid `uid` and clears the selection.
    pub fn remove_entry(&mut self, uid: u64)
        ensures
            final(self).entries@ == without_uid(old(self).entries@, uid),
            final(self).selected is None,
            final(self).search == old(self).search,
            final(self).view == old(self).view,
            final(self).new_entry_name == old(self).new_entry_name,
            final(self).error == old(self).error,
    {
        let mut rest: Vec<WorldInfoEntry> = Vec::new();
        std::mem::swap(&mut rest, &mut self.entries);
        let ghost all = rest@;
        let mut rev: Vec<WorldInfoEntry> = Vec::new();
        while rest.len() > 0
            invariant
                rest@.len() + rev@.len() == all.len(),
                forall|k: int| 0 <= k < rest@.len() ==> rest@[k] == all[k],
                forall|k: int| 0 <= k < rev@.len() ==> rev@[k] == all[all.len() - 1 - k],
            decreases rest@.len(),
        {
            let e = rest.pop().unwrap();
            rev.push(e);
        }
        let mut kept: Vec<WorldInfoEntry> = Vec::new();
        let mut j: usize = rev.len();
        while j > 0
            invariant
                j == rev@.len(),
                j <= all.len(),
                forall|k: int| 0 <= k < rev@.len() ==> rev@[k] == all[all.len() - 1 - k],
                kept@ == all.take(all.len() - j).filter(|e: WorldInfoEntry| e.uid != uid),
            decreases j,
        {
            let e = rev.pop().unwrap();
            j = j - 1;
            let ghost prev = all.take(all.len() - (j + 1));
            assert(all.take(all.len() - j) =~= prev.push(e));
            proof {
                prev.lemma_filter_push(e, |e: WorldInfoEntry| e.uid != uid);
            }
            if e.uid != uid {
                kept.push(e);
            }
        }
        assert(all.take(all.len() as int) =~= all);
        self.entries = kept;
        self.selected = None;
    }

    /// Stops showing every entry and clears the selection.
    pub fn clear_entries(&mut self)
        ensures
            final(self).entries@.len() == 0,
            final(self).selected is None,
            final(self).search == old(self).search,
            final(self).view == old(self).view,
            final(self).new_entry_name == old(self).new_entry_name,
            final(self).error == old(self).error,
    {
        self.entries = Vec::new();
        self.selected = None;
    }
}

/// A copy of `src` under a new uid (see `is_duplicate`).
pub fn duplicate_of(src: &WorldInfoEntry, new_uid: u64) -> (res: WorldInfoEntry)
    ensures
        is_duplicate(*src, new_uid, res),
{
    let mut name = chars_of(src.name.as_str());
    push_all(&mut name, chars_of(" (copy)").as_slice());
    let order = new_uid as u32;
    WorldInfoEntry {
        uid: new_uid,
        key: clone_strings(&src.key),
        keysecondary: clone_strings(&src.keysecondary),
        comment: src.comment.clone(),
        content: src.content.clone(),
        constant: src.constant,
        selective: src.selective,
        selective_logic: src.selective_logic,
        order,
        position: src.position,
        disable: src.disable,
        add_memo: src.add_memo,
        exclude_recursion: src.exclude_recursion,
        probability: src.probability,
        display_index: src.display_index,
        use_probability: src.use_probability,
        secondary_keys: clone_strings(&src.secondary_keys),
        keys: clone_strings(&src.keys),
        id: src.id,
        priority: src.priority,
        insertion_order: order,
        enabled: src.enabled,
        name: string_from_chars(name.as_slice()),
        extensions: EntryExtensions {
            depth: src.extensions.depth,
            weight: src.extensions.weight,
            add_memo: src.extensions.add_memo,
            probability: src.extensions.probability,
            display_index: src.extensions.display_index,
            selective_logic: src.extensions.selective_logic,
            use_probability: src.extensions.use_probability,
            character_filter: clone_filter(&src.extensions.character_filter),
            exclude_recursion: src.extensions.exclude_recursion,
        },
        case_sensitive: src.case_sensitive,
        depth: src.depth,
        character_filter: clone_filter(&src.character_filter),
    }
}


/// The entries left when those with uid `uid` are removed, in order.
pub open spec fn without_uid(entries: Seq<WorldInfoEntry>, uid: u64) -> Seq<WorldInfoEntry> {
    entries.filter(|e: WorldInfoEntry| e.uid != uid)
}

/// Once an entry is removed, no entry with its uid is on show, and every
/// entry with another uid still is.
pub proof fn law_removed_entry_gone(entries: Seq<WorldInfoEntry>, uid: u64)
    ensures
        forall|k: int|
            0 <= k < without_uid(entries, uid).len() ==> (#[trigger] without_uid(entries, uid)[k]).uid
                != uid,
        forall|k: int|
            0 <= k < entries.len() && (#[trigger] entries[k]).uid != uid ==> without_uid(
                entries,
                uid,
            ).contains(entries[k]),
{
    assert forall|k: int| 0 <= k < without_uid(entries, uid).len() implies (#[trigger] without_uid(
        entries,
        uid,
    )[k]).uid != uid by {
        entries.lemma_filter_pred(|e: WorldInfoEntry| e.uid != uid, k);
    }
    assert forall|k: int| 0 <= k < entries.len() && (#[trigger] entries[k]).uid != uid implies without_uid(
        entries,
        uid,
    ).contains(entries[k]) by {
        entries.lemma_filter_contains(|e: WorldInfoEntry| e.uid != uid, k);
    }
}


// ---------------------------------------------------------------------------
// Editing an entry
// ---------------------------------------------------------------------------

/// The pieces of `s` between commas, from the `k`-th comma-separated piece
/// on: each trimmed, empty ones dropped.
pub open spec fn key_list_from(s: Seq<char>, i: int) -> Seq<Seq<char>>
    decreases s.len() - i,
{
    if i < 0 || i > s.len() {
        Seq::empty()
    } else {
        let e = crate::text::find_char(s, ',', i);
        proof {
            crate::text::lemma_find_char(s, ',', i);
        }
        let piece = trim(s.subrange(i, e));
        let rest = if e < s.len() { key_list_from(s, e + 1) } else { Seq::empty() };
        if piece.len() == 0 {
            rest
        } else {
            seq![piece] + rest
        }
    }
}

/// The keys typed into an editor as comma-separated text.
pub open spec fn key_list(s: Seq<char>) -> Seq<Seq<char>> {
    key_list_from(s, 0)
}

/// Comma-separated keys as the editors read them: split at each comma,
/// trimmed, empty pieces dropped.
pub fn parse_key_list(s: &str) -> (res: Vec<String>)
    ensures
        strings_view(res@) == key_list(s@),
{
    let c = chars_of(s);
    let n = c.len();
    let mut out: Vec<String> = Vec::new();
    let mut i: usize = 0;
    let mut more = true;
    while more
        invariant
            n == c@.len(),
            c@ == s@,
            i <= n,
            more ==> strings_view(out@) + key_list_from(c@, i as int) == key_list(c@),
            !more ==> strings_view(out@) == key_list(c@),
        decreases n - i + if more { 1int } else { 0int },
    {
        proof {
            crate::text::lemma_find_char(c@, ',', i as int);
        }
        let e = crate::text::find_char_exec(c.as_slice(), ',', i);
        let piece = crate::text::trimmed(crate::text::copy_range(c.as_slice(), i, e).as_slice());
        let ghost before = strings_view(out@);
        if piece.len() > 0 {
            out.push(string_from_chars(piece.as_slice()));
            assert(strings_view(out@) =~= before.push(piece@));
        }
        if e < n {
            assert(strings_view(out@) + key_list_from(c@, e + 1) =~= before + key_list_from(c@, i as int));
            i = e + 1;
        } else {
            assert(strings_view(out@) =~= before + key_list_from(c@, i as int));
            more = false;
        }
    }
    out
}


/// Keys shown for editing: joined by `, `.
pub open spec fn keys_text(keys: Seq<Seq<char>>) -> Seq<char>
    decreases keys.len(),
{
    if keys.len() == 0 {
        Seq::empty()
    } else if keys.len() == 1 {
        keys[0]
    } else {
        keys_text(keys.drop_last()) + ", "@ + keys.last()
    }
}

pub fn join_keys(keys: &Vec<String>) -> (res: String)
    ensures
        res@ == keys_text(strings_view(keys@)),
{
    let mut v: Vec<char> = Vec::new();
    let mut i: usize = 0;
    while i < keys.len()
        invariant
            i <= keys@.len(),
            v@ == keys_text(strings_view(keys@).take(i as int)),
        decreases keys@.len() - i,
    {
        let ghost taken = strings_view(keys@).take(i + 1);
        assert(taken.drop_last() =~= strings_view(keys@).take(i as int));
        if i > 0 {
            push_all(&mut v, chars_of(", ").as_slice());
        } else {
            assert(strings_view(keys@).take(0) =~= Seq::<Seq<char>>::empty());
        }
        push_all(&mut v, chars_of(keys[i].as_str()).as_slice());
        i = i + 1;
    }
    assert(strings_view(keys@).take(i as int) =~= strings_view(keys@));
    string_from_chars(v.as_slice())
}

/// An edited priority: negative values are 0; the order, insertion order
/// and weight follow it.
pub fn set_priority(e: &mut WorldInfoEntry, p: i32)
    ensures
        final(e).priority == (if p < 0 { 0 } else { p }) as u32,
        *final(e) == (WorldInfoEntry {
            priority: final(e).priority,
            order: final(e).priority,
            insertion_order: final(e).priority,
            extensions: EntryExtensions { weight: final(e).priority, ..old(e).extensions },
            ..*old(e)
        }),
{
    let v: u32 = if p < 0 { 0 } else { p as u32 };
    e.priority = v;
    e.order = v;
    e.insertion_order = v;
    e.extensions.weight = v;
}

/// An edited position, clamped into `0..=255`.
pub fn set_position(e: &mut WorldInfoEntry, p: i32)
    ensures
        final(e).position == (if p < 0 { 0 } else if p > 255 { 255 } else { p }) as u8,
        *final(e) == (WorldInfoEntry { position: final(e).position, ..*old(e) }),
{
    let v: u8 = if p < 0 { 0 } else if p > 255 { 255 } else { p as u8 };
    e.position = v;
}

/// An edited probability, clamped into `0..=255`; the extensions repeat it.
pub fn set_probability(e: &mut WorldInfoEntry, p: i32)
    ensures
        final(e).probability == (if p < 0 { 0 } else if p > 255 { 255 } else { p }) as u8,
        *final(e) == (WorldInfoEntry {
            probability: final(e).probability,
            extensions: EntryExtensions { probability: final(e).probability, ..old(e).extensions },
            ..*old(e)
        }),
{
    let v: u8 = if p < 0 { 0 } else if p > 255 { 255 } else { p as u8 };
    e.probability = v;
    e.extensions.probability = v;
}

/// An edited scan depth: negative values are 0; the extensions repeat it.
pub fn set_depth(e: &mut WorldInfoEntry, d: i32)
    ensures
        final(e).depth == (if d < 0 { 0 } else { d }) as u32,
        *final(e) == (WorldInfoEntry {
            depth: final(e).depth,
            extensions: EntryExtensions { depth: final(e).depth, ..old(e).extensions },
            ..*old(e)
        }),
{
    let v: u32 = if d < 0 { 0 } else { d as u32 };
    e.depth = v;
    e.extensions.depth = v;
}

/// The start of an entry's content shown in the table: its first 120
/// characters, and `…` when there are more.
pub open spec fn preview_text(content: Seq<char>) -> Seq<char> {
    if content.len() > 120 {
        content.take(120).push('…')
    } else {
        content
    }
}

pub fn content_preview(content: &str) -> (res: String)
    ensures
        res@ == preview_text(content@),
{
    let c = chars_of(content);
    if c.len() > 120 {
        let mut v = crate::text::copy_range(c.as_slice(), 0, 120);
        v.push('…');
        string_from_chars(v.as_slice())
    } else {
        string_from_chars(c.as_slice())
    }
}


proof fn lemma_find_char_shift(p: Seq<char>, q: Seq<char>, c: char, j: int)
    requires
        0 <= j <= q.len(),
    ensures
        crate::text::find_char(p + q, c, p.len() + j) == p.len() + crate::text::find_char(q, c, j),
    decreases q.len() - j,
{
    if j < q.len() && q[j] != c {
        lemma_find_char_shift(p, q, c, j + 1);
    }
}

proof fn lemma_key_list_shift(p: Seq<char>, q: Seq<char>, j: int)
    requires
        0 <= j <= q.len(),
    ensures
        key_list_from(p + q, p.len() + j) == key_list_from(q, j),
    decreases q.len() - j,
{
    let s = p + q;
    lemma_find_char_shift(p, q, ',', j);
    crate::text::lemma_find_char(q, ',', j);
    let e = crate::text::find_char(q, ',', j);
    assert(s.subrange(p.len() + j, p.len() + e) =~= q.subrange(j, e));
    if e < q.len() {
        lemma_key_list_shift(p, q, e + 1);
    }
}

/// Splitting at every comma: the pieces of `a`, `,`, `b` are those of `a`
/// followed by those of `b`.
proof fn lemma_key_list_concat(a: Seq<char>, b: Seq<char>, i: int)
    requires
        0 <= i <= a.len(),
    ensures
        key_list_from(a + seq![','] + b, i) == key_list_from(a, i) + key_list(b),
    decreases a.len() - i,
{
    let s = a + seq![','] + b;
    crate::text::lemma_find_char(a, ',', i);
    crate::text::lemma_find_char(s, ',', i);
    let ea = crate::text::find_char(a, ',', i);
    let es = crate::text::find_char(s, ',', i);
    if ea < a.len() {
        if es != ea {
            if es < ea {
                assert(s[es] == a[es]);
            } else {
                assert(s[ea] == a[ea]);
            }
        }
        assert(s.subrange(i, es) =~= a.subrange(i, ea));
        lemma_key_list_concat(a, b, ea + 1);
    } else {
        assert(s[a.len() as int] == ',');
        if es != a.len() {
            assert(s[es] == a[es]);
        }
        assert(s.subrange(i, es) =~= a.subrange(i, ea));
        lemma_key_list_shift(a + seq![','], b, 0);
        assert(s =~= (a + seq![',']) + b);
    }
}

/// A key that is not empty, holds no comma and has no whitespace at its
/// ends.
pub open spec fn is_plain_key(k: Seq<char>) -> bool {
    &&& k.len() > 0
    &&& forall|i: int| 0 <= i < k.len() ==> #[trigger] k[i] != ','
    &&& trim(k) == k
}

proof fn lemma_spaced_key(k: Seq<char>)
    requires
        is_plain_key(k),
    ensures
        key_list(seq![' '] + k) == seq![k],
{
    let s = seq![' '] + k;
    crate::text::lemma_trim_ends(k);
    assert(!crate::text::is_ws(k[0]));
    assert(!crate::text::is_ws(k[k.len() - 1]));
    assert(crate::text::is_ws(' '));
    assert(crate::text::skip_ws(s, 1) == 1);
    assert(crate::text::skip_ws(s, 0) == 1);
    assert(crate::text::skip_ws_back(s, s.len() as int) == s.len());
    assert(trim(s) =~= k);
    crate::text::lemma_find_char(s, ',', 0);
    let e = crate::text::find_char(s, ',', 0);
    if e < s.len() {
        if e > 0 {
            assert(s[e] == k[e - 1]);
        }
    }
    assert(s.subrange(0, s.len() as int) =~= s);
}

/// Keys shown for editing read back as the same keys, as long as each is
/// non-empty, holds no comma and has no whitespace at its ends.
pub proof fn law_keys_text_round_trip(keys: Seq<Seq<char>>)
    requires
        forall|i: int| 0 <= i < keys.len() ==> is_plain_key(#[trigger] keys[i]),
    ensures
        key_list(keys_text(keys)) == keys,
    decreases keys.len(),
{
    if keys.len() == 0 {
        assert(key_list(Seq::<char>::empty()) =~= Seq::<Seq<char>>::empty());
        assert(keys =~= Seq::<Seq<char>>::empty());
    } else if keys.len() == 1 {
        let k = keys[0];
        crate::text::lemma_find_char(k, ',', 0);
        let e = crate::text::find_char(k, ',', 0);
        assert(e == k.len());
        assert(k.subrange(0, e) =~= k);
        assert(keys =~= seq![k]);
    } else {
        let init = keys.drop_last();
        let k = keys.last();
        assert forall|i: int| 0 <= i < init.len() implies is_plain_key(#[trigger] init[i]) by {
            assert(init[i] == keys[i]);
        }
        law_keys_text_round_trip(init);
        let a = keys_text(init);
        assert(keys_text(keys) =~= a + seq![','] + (seq![' '] + k)) by {
            reveal_strlit(", ");
        }
        lemma_key_list_concat(a, seq![' '] + k, 0);
        assert(is_plain_key(keys[keys.len() - 1]));
        lemma_spaced_key(k);
        assert(keys =~= init + seq![k]);
    }
}

} // verus!
