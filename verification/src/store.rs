//! How the library's entries become database rows and come back.
//!
//! The `entries` table holds one row per entry with every column stored as
//! an integer or as text; the `entry_keys` table holds one row per key,
//! with its kind (`primary` or `secondary`).

use vstd::prelude::*;

use crate::entry::{clone_strings, EntryExtensions, WorldInfoEntry};
use crate::text::{chars_of, push_all, same_chars, string_from_chars};
use crate::wikitext::strings_view;

verus! {

/// One row of the `entries` table.
pub struct EntryRow {
    pub uid: i64,
    pub name: String,
    pub comment: String,
    pub content: String,
    pub priority: i64,
    pub position: i64,
    pub depth: i64,
    pub probability: i64,
    pub enabled: i64,
    pub constant: i64,
    pub selective: i64,
    pub selective_logic: i64,
    pub disable: i64,
    pub add_memo: i64,
    pub exclude_recursion: i64,
    pub use_probability: i64,
    pub case_sensitive: i64,
    pub insertion_order: i64,
}

/// One row of the `entry_keys` table.
pub struct KeyRow {
    pub uid: i64,
    pub key: String,
    pub kind: String,
}

/// `b` as the integer the database stores.
pub open spec fn flag(b: bool) -> i64 {
    if b { 1 } else { 0 }
}

/// An unsigned value as the database's signed integer (values above
/// `i64::MAX` wrap around, as Rust's `as` does).
pub fn sql_int(x: u64) -> (res: i64)
    ensures
        res == x as i64,
        x <= i64::MAX ==> res == x,
{
    x as i64
}

fn flag_exec(b: bool) -> (res: i64)
    ensures
        res == flag(b),
{
    if b { 1 } else { 0 }
}

/// The `entries` row that stores `e`.
pub open spec fn row_of(e: WorldInfoEntry, r: EntryRow) -> bool {
    &&& r.uid == e.uid as i64
    &&& r.name@ == e.name@
    &&& r.comment@ == e.comment@
    &&& r.content@ == e.content@
    &&& r.priority == e.priority
    &&& r.position == e.position
    &&& r.depth == e.depth
    &&& r.probability == e.probability
    &&& r.enabled == flag(e.enabled)
    &&& r.constant == flag(e.constant)
    &&& r.selective == flag(e.selective)
    &&& r.selective_logic == e.selective_logic
    &&& r.disable == flag(e.disable)
    &&& r.add_memo == flag(e.add_memo)
    &&& r.exclude_recursion == flag(e.exclude_recursion)
    &&& r.use_probability == flag(e.use_probability)
    &&& r.case_sensitive == flag(e.case_sensitive)
    &&& r.insertion_order == e.insertion_order
}

/// The `entries` row for `e`.
pub fn entry_to_row(e: &WorldInfoEntry) -> (res: EntryRow)
    ensures
        row_of(*e, res),
{
    EntryRow {
        uid: sql_int(e.uid),
        name: e.name.clone(),
        comment: e.comment.clone(),
        content: e.content.clone(),
        priority: e.priority as i64,
        position: e.position as i64,
        depth: e.depth as i64,
        probability: e.probability as i64,
        enabled: flag_exec(e.enabled),
        constant: flag_exec(e.constant),
        selective: flag_exec(e.selective),
        selective_logic: e.selective_logic as i64,
        disable: flag_exec(e.disable),
        add_memo: flag_exec(e.add_memo),
        exclude_recursion: flag_exec(e.exclude_recursion),
        use_probability: flag_exec(e.use_probability),
        case_sensitive: flag_exec(e.case_sensitive),
        insertion_order: e.insertion_order as i64,
    }
}

/// `x`, or 0 where it is negative.
pub open spec fn non_negative(x: i64) -> int {
    if x < 0 { 0 } else { x as int }
}

/// `x` clamped into `0..=255`.
pub open spec fn byte_clamp(x: i64) -> u8 {
    if x < 0 { 0 } else if x > 255 { 255 } else { x as u8 }
}

fn non_negative_exec(x: i64) -> (res: u64)
    ensures
        res == non_negative(x),
{
    if x < 0 { 0 } else { x as u64 }
}

fn byte_clamp_exec(x: i64) -> (res: u8)
    ensures
        res == byte_clamp(x),
{
    if x < 0 { 0 } else if x > 255 { 255 } else { x as u8 }
}

/// `x.max(0) as u32`: negative values become 0, larger ones keep their
/// low 32 bits.
fn low_u32(x: i64) -> (res: u32)
    ensures
        res == non_negative(x) as u32,
{
    let n = non_negative_exec(x);
    n as u32
}

/// The entry that an `entries` row reads back as, before its keys are
/// attached: the uid also stands for `id` and `displayIndex`, the
/// priority also for `order` and the extensions' weight, negative numbers
/// read as 0, the byte-sized columns are clamped into `0..=255`, a
/// non-zero flag reads as `true`. (The keys are not in the row.)
pub open spec fn entry_of_row(r: EntryRow, e: WorldInfoEntry) -> bool {
    let uid = non_negative(r.uid) as u64;
    &&& e.uid == uid
    &&& e.comment@ == r.comment@
    &&& e.content@ == r.content@
    &&& e.constant == (r.constant != 0)
    &&& e.selective == (r.selective != 0)
    &&& e.selective_logic == byte_clamp(r.selective_logic)
    &&& e.order == non_negative(r.priority) as u32
    &&& e.position == byte_clamp(r.position)
    &&& e.disable == (r.disable != 0)
    &&& e.add_memo == (r.add_memo != 0)
    &&& e.exclude_recursion == (r.exclude_recursion != 0)
    &&& e.probability == byte_clamp(r.probability)
    &&& e.display_index == uid
    &&& e.use_probability == (r.use_probability != 0)
    &&& e.id == uid
    &&& e.priority == non_negative(r.priority) as u32
    &&& e.insertion_order == non_negative(r.insertion_order) as u32
    &&& e.enabled == (r.enabled != 0)
    &&& e.name@ == r.name@
    &&& e.extensions.depth == non_negative(r.depth) as u32
    &&& e.extensions.weight == non_negative(r.priority) as u32
    &&& e.extensions.add_memo == (r.add_memo != 0)
    &&& e.extensions.probability == byte_clamp(r.probability)
    &&& e.extensions.display_index == uid
    &&& e.extensions.selective_logic == byte_clamp(r.selective_logic)
    &&& e.extensions.use_probability == (r.use_probability != 0)
    &&& e.extensions.character_filter is None
    &&& e.extensions.exclude_recursion == (r.exclude_recursion != 0)
    &&& e.case_sensitive == (r.case_sensitive != 0)
    &&& e.depth == non_negative(r.depth) as u32
    &&& e.character_filter is None
}

/// `e` has no keys.
pub open spec fn no_keys(e: WorldInfoEntry) -> bool {
    &&& e.key@.len() == 0
    &&& e.keysecondary@.len() == 0
    &&& e.secondary_keys@.len() == 0
    &&& e.keys@.len() == 0
}

/// The entry an `entries` row reads back as (see `entry_of_row`), with no
/// keys yet.
pub fn entry_from_row(r: &EntryRow) -> (res: WorldInfoEntry)
    ensures
        entry_of_row(*r, res),
        no_keys(res),
{
    let uid = non_negative_exec(r.uid);
    let priority = low_u32(r.priority);
    let depth = low_u32(r.depth);
    let probability = byte_clamp_exec(r.probability);
    let selective_logic = byte_clamp_exec(r.selective_logic);
    WorldInfoEntry {
        uid,
        key: Vec::new(),
        keysecondary: Vec::new(),
        comment: r.comment.clone(),
        content: r.content.clone(),
        constant: r.constant != 0,
        selective: r.selective != 0,
        selective_logic,
        order: priority,
        position: byte_clamp_exec(r.position),
        disable: r.disable != 0,
        add_memo: r.add_memo != 0,
        exclude_recursion: r.exclude_recursion != 0,
        probability,
        display_index: uid,
        use_probability: r.use_probability != 0,
        secondary_keys: Vec::new(),
        keys: Vec::new(),
        id: uid,
        priority,
        insertion_order: low_u32(r.insertion_order),
        enabled: r.enabled != 0,
        name: r.name.clone(),
        extensions: EntryExtensions {
            depth,
            weight: priority,
            add_memo: r.add_memo != 0,
            probability,
            display_index: uid,
            selective_logic,
            use_probability: r.use_probability != 0,
            character_filter: None,
            exclude_recursion: r.exclude_recursion != 0,
        },
        case_sensitive: r.case_sensitive != 0,
        depth,
        character_filter: None,
    }
}

// ---------------------------------------------------------------------------
// Keys
// ---------------------------------------------------------------------------

/// The kind of a secondary key.
pub open spec fn secondary_kind() -> Seq<char> {
    seq!['s', 'e', 'c', 'o', 'n', 'd', 'a', 'r', 'y']
}

/// The kind of a primary key.
pub open spec fn primary_kind() -> Seq<char> {
    seq!['p', 'r', 'i', 'm', 'a', 'r', 'y']
}

pub open spec fn key_rows_view(rows: Seq<KeyRow>) -> Seq<(i64, Seq<char>, Seq<char>)> {
    rows.map_values(|r: KeyRow| (r.uid, r.key@, r.kind@))
}

/// The keys of `uid` among `rows`, in order: the secondary ones where
/// `secondary`, else those of any other kind.
pub open spec fn keys_of_kind(rows: Seq<(i64, Seq<char>, Seq<char>)>, uid: i64, secondary: bool) -> Seq<
    Seq<char>,
>
    decreases rows.len(),
{
    if rows.len() == 0 {
        Seq::empty()
    } else {
        let init = keys_of_kind(rows.drop_last(), uid, secondary);
        let r = rows.last();
        if r.0 == uid && (r.2 == secondary_kind()) == secondary {
            init.push(r.1)
        } else {
            init
        }
    }
}

fn is_secondary(kind: &str) -> (res: bool)
    ensures
        res == (kind@ == secondary_kind()),
{
    let k = chars_of(kind);
    let s = vec!['s', 'e', 'c', 'o', 'n', 'd', 'a', 'r', 'y'];
    assert(s@ =~= secondary_kind());
    same_chars(k.as_slice(), s.as_slice())
}

/// The primary and the secondary keys of `uid` among `rows`, each in the
/// order of the rows.
pub fn split_keys(rows: &Vec<KeyRow>, uid: i64) -> (res: (Vec<String>, Vec<String>))
    ensures
        strings_view(res.0@) == keys_of_kind(key_rows_view(rows@), uid, false),
        strings_view(res.1@) == keys_of_kind(key_rows_view(rows@), uid, true),
{
    let mut primary: Vec<String> = Vec::new();
    let mut secondary: Vec<String> = Vec::new();
    let mut i: usize = 0;
    while i < rows.len()
        invariant
            i <= rows@.len(),
            strings_view(primary@) == keys_of_kind(key_rows_view(rows@).take(i as int), uid, false),
            strings_view(secondary@) == keys_of_kind(key_rows_view(rows@).take(i as int), uid, true),
        decreases rows@.len() - i,
    {
        let ghost taken = key_rows_view(rows@).take(i + 1);
        assert(taken.drop_last() =~= key_rows_view(rows@).take(i as int));
        assert(taken.last() == (rows@[i as int].uid, rows@[i as int].key@, rows@[i as int].kind@));
        let r = &rows[i];
        if r.uid == uid {
            let k = r.key.clone();
            if is_secondary(r.kind.as_str()) {
                let ghost before = strings_view(secondary@);
                secondary.push(k);
                assert(strings_view(secondary@) =~= before.push(r.key@));
            } else {
                let ghost before = strings_view(primary@);
                primary.push(k);
                assert(strings_view(primary@) =~= before.push(r.key@));
            }
        }
        i = i + 1;
    }
    assert(key_rows_view(rows@).take(i as int) =~= key_rows_view(rows@));
    (primary, secondary)
}

/// The keys of `e` are those of its uid among `rows`: the primary ones as
/// `key` and `keys`, the secondary ones as `keysecondary` and
/// `secondary_keys`.
pub open spec fn keys_attached(e: WorldInfoEntry, rows: Seq<(i64, Seq<char>, Seq<char>)>) -> bool {
    let p = keys_of_kind(rows, e.uid as i64, false);
    let s = keys_of_kind(rows, e.uid as i64, true);
    &&& strings_view(e.key@) == p
    &&& strings_view(e.keys@) == p
    &&& strings_view(e.keysecondary@) == s
    &&& strings_view(e.secondary_keys@) == s
}

/// `res` is `e` with the keys of its uid among `rows` attached, and
/// everything else unchanged.
pub open spec fn hydrated(e: WorldInfoEntry, rows: Seq<(i64, Seq<char>, Seq<char>)>, res: WorldInfoEntry) -> bool {
    &&& keys_attached(res, rows)
    &&& res == WorldInfoEntry {
        key: res.key,
        keys: res.keys,
        keysecondary: res.keysecondary,
        secondary_keys: res.secondary_keys,
        ..e
    }
}

/// Attaches to `e` its keys from the `entry_keys` rows.
pub fn hydrate(e: WorldInfoEntry, rows: &Vec<KeyRow>) -> (res: WorldInfoEntry)
    ensures
        hydrated(e, key_rows_view(rows@), res),
{
    let uid = sql_int(e.uid);
    let (primary, secondary) = split_keys(rows, uid);
    let mut out = e;
    out.key = clone_strings(&primary);
    out.keys = primary;
    out.keysecondary = clone_strings(&secondary);
    out.secondary_keys = secondary;
    out
}

/// The `entry_keys` rows that store the keys of `e`: its primary keys,
/// then its secondary ones.
pub open spec fn key_rows_of(e: WorldInfoEntry) -> Seq<(i64, Seq<char>, Seq<char>)> {
    strings_view(e.keys@).map_values(|k: Seq<char>| (e.uid as i64, k, primary_kind()))
        + strings_view(e.secondary_keys@).map_values(|k: Seq<char>| (e.uid as i64, k, secondary_kind()))
}

fn push_key_rows(out: &mut Vec<KeyRow>, uid: i64, keys: &Vec<String>, kind: &str)
    ensures
        key_rows_view(final(out)@) == key_rows_view(old(out)@) + strings_view(keys@).map_values(
            |k: Seq<char>| (uid, k, kind@),
        ),
{
    let ghost start = key_rows_view(out@);
    let mut i: usize = 0;
    while i < keys.len()
        invariant
            i <= keys@.len(),
            key_rows_view(out@) == start + strings_view(keys@).take(i as int).map_values(
                |k: Seq<char>| (uid, k, kind@),
            ),
        decreases keys@.len() - i,
    {
        let ghost before = key_rows_view(out@);
        let kind_owned = string_from_chars(chars_of(kind).as_slice());
        out.push(KeyRow { uid, key: keys[i].clone(), kind: kind_owned });
        assert(key_rows_view(out@) =~= before.push((uid, keys@[i as int]@, kind@)));
        assert(strings_view(keys@).take(i + 1).map_values(|k: Seq<char>| (uid, k, kind@))
            =~= strings_view(keys@).take(i as int).map_values(|k: Seq<char>| (uid, k, kind@)).push(
            (uid, keys@[i as int]@, kind@),
        ));
        i = i + 1;
    }
    assert(strings_view(keys@).take(i as int) =~= strings_view(keys@));
}

/// The `entry_keys` rows for `e`.
pub fn entry_key_rows(e: &WorldInfoEntry) -> (res: Vec<KeyRow>)
    ensures
        key_rows_view(res@) == key_rows_of(*e),
{
    let uid = sql_int(e.uid);
    let mut out: Vec<KeyRow> = Vec::new();
    proof {
        reveal_strlit("primary");
        reveal_strlit("secondary");
        assert("primary"@ =~= primary_kind());
        assert("secondary"@ =~= secondary_kind());
    }
    push_key_rows(&mut out, uid, &e.keys, "primary");
    push_key_rows(&mut out, uid, &e.secondary_keys, "secondary");
    assert(key_rows_view(out@) =~= key_rows_of(*e));
    out
}

// ---------------------------------------------------------------------------
// Queries
// ---------------------------------------------------------------------------

/// The `LIKE` pattern that finds `q` anywhere in a column.
pub fn like_pattern(q: &str) -> (res: String)
    ensures
        res@ == seq!['%'] + q@ + seq!['%'],
{
    let mut v: Vec<char> = Vec::new();
    v.push('%');
    let c = chars_of(q);
    push_all(&mut v, c.as_slice());
    v.push('%');
    string_from_chars(v.as_slice())
}

/// The largest uid in the library, from `MAX(uid)` (`None` for an empty
/// table); 0 where there is none or it is negative.
pub fn max_uid_of(v: Option<i64>) -> (res: u64)
    ensures
        res == match v {
            Some(x) => non_negative(x),
            None => 0,
        },
{
    match v {
        Some(x) => non_negative_exec(x),
        None => 0,
    }
}

/// The number of entries, from `COUNT(*)`; 0 where it is negative.
pub fn count_of(v: i64) -> (res: u64)
    ensures
        res == non_negative(v),
{
    non_negative_exec(v)
}

/// The entries that the rows of the `entries` table read back as, each
/// with its keys from the `entry_keys` rows, in the order of the rows.
pub fn entries_from_rows(rows: &Vec<EntryRow>, keys: &Vec<KeyRow>) -> (res: Vec<WorldInfoEntry>)
    ensures
        res@.len() == rows@.len(),
        forall|i: int|
            0 <= i < rows@.len() ==> entry_of_row(#[trigger] rows@[i], res@[i]) && keys_attached(
                res@[i],
                key_rows_view(keys@),
            ),
{
    let mut out: Vec<WorldInfoEntry> = Vec::new();
    let mut i: usize = 0;
    while i < rows.len()
        invariant
            i <= rows@.len(),
            out@.len() == i,
            forall|k: int|
                0 <= k < i ==> entry_of_row(#[trigger] rows@[k], out@[k]) && keys_attached(
                    out@[k],
                    key_rows_view(keys@),
                ),
        decreases rows@.len() - i,
    {
        let e = entry_from_row(&rows[i]);
        let h = hydrate(e, keys);
        out.push(h);
        i = i + 1;
    }
    out
}

/// The fields of `e` that the tables keep apart agree with those they
/// store once: `id` and `displayIndex` are the uid, `order` and the
/// extensions' weight the priority, the other extensions repeat their
/// fields, `key` and `keysecondary` repeat `keys` and `secondary_keys`, no
/// character filter is set, and the uid fits in a signed 64-bit integer.
pub open spec fn stored_faithfully(e: WorldInfoEntry) -> bool {
    &&& e.uid <= i64::MAX
    &&& e.id == e.uid
    &&& e.display_index == e.uid
    &&& e.order == e.priority
    &&& strings_view(e.key@) == strings_view(e.keys@)
    &&& strings_view(e.keysecondary@) == strings_view(e.secondary_keys@)
    &&& e.extensions.depth == e.depth
    &&& e.extensions.weight == e.priority
    &&& e.extensions.add_memo == e.add_memo
    &&& e.extensions.probability == e.probability
    &&& e.extensions.display_index == e.uid
    &&& e.extensions.selective_logic == e.selective_logic
    &&& e.extensions.use_probability == e.use_probability
    &&& e.extensions.character_filter is None
    &&& e.extensions.exclude_recursion == e.exclude_recursion
    &&& e.character_filter is None
}

/// Two entries hold the same values.
pub open spec fn same_entry(a: WorldInfoEntry, b: WorldInfoEntry) -> bool {
    &&& a.uid == b.uid
    &&& strings_view(a.key@) == strings_view(b.key@)
    &&& strings_view(a.keysecondary@) == strings_view(b.keysecondary@)
    &&& a.comment@ == b.comment@
    &&& a.content@ == b.content@
    &&& a.constant == b.constant
    &&& a.selective == b.selective
    &&& a.selective_logic == b.selective_logic
    &&& a.order == b.order
    &&& a.position == b.position
    &&& a.disable == b.disable
    &&& a.add_memo == b.add_memo
    &&& a.exclude_recursion == b.exclude_recursion
    &&& a.probability == b.probability
    &&& a.display_index == b.display_index
    &&& a.use_probability == b.use_probability
    &&& strings_view(a.secondary_keys@) == strings_view(b.secondary_keys@)
    &&& strings_view(a.keys@) == strings_view(b.keys@)
    &&& a.id == b.id
    &&& a.priority == b.priority
    &&& a.insertion_order == b.insertion_order
    &&& a.enabled == b.enabled
    &&& a.name@ == b.name@
    &&& a.extensions.depth == b.extensions.depth
    &&& a.extensions.weight == b.extensions.weight
    &&& a.extensions.add_memo == b.extensions.add_memo
    &&& a.extensions.probability == b.extensions.probability
    &&& a.extensions.display_index == b.extensions.display_index
    &&& a.extensions.selective_logic == b.extensions.selective_logic
    &&& a.extensions.use_probability == b.extensions.use_probability
    &&& a.extensions.character_filter == b.extensions.character_filter
    &&& a.extensions.exclude_recursion == b.extensions.exclude_recursion
    &&& a.case_sensitive == b.case_sensitive
    &&& a.depth == b.depth
    &&& a.character_filter == b.character_filter
}

proof fn lemma_keys_of_own_rows(uid: i64, p: Seq<Seq<char>>, s: Seq<Seq<char>>, secondary: bool)
    ensures
        keys_of_kind(
            p.map_values(|k: Seq<char>| (uid, k, primary_kind())) + s.map_values(
                |k: Seq<char>| (uid, k, secondary_kind()),
            ),
            uid,
            secondary,
        ) == if secondary { s } else { p },
    decreases s.len(), p.len(),
{
    let rows = p.map_values(|k: Seq<char>| (uid, k, primary_kind())) + s.map_values(
        |k: Seq<char>| (uid, k, secondary_kind()),
    );
    assert(primary_kind() != secondary_kind()) by {
        assert(primary_kind().len() != secondary_kind().len());
    }
    if s.len() > 0 {
        lemma_keys_of_own_rows(uid, p, s.drop_last(), secondary);
        assert(rows.drop_last() =~= p.map_values(|k: Seq<char>| (uid, k, primary_kind()))
            + s.drop_last().map_values(|k: Seq<char>| (uid, k, secondary_kind())));
        if secondary {
            assert(s.drop_last().push(s.last()) =~= s);
        }
    } else if p.len() > 0 {
        lemma_keys_of_own_rows(uid, p.drop_last(), s, secondary);
        assert(rows.drop_last() =~= p.drop_last().map_values(|k: Seq<char>| (uid, k, primary_kind()))
            + s.map_values(|k: Seq<char>| (uid, k, secondary_kind())));
        if !secondary {
            assert(p.drop_last().push(p.last()) =~= p);
        }
    } else {
        assert(rows =~= Seq::<(i64, Seq<char>, Seq<char>)>::empty());
    }
}

/// An entry written to the tables reads back as the same entry: its row
/// read back, with the key rows written for it attached, holds the values
/// it had, as long as the fields the tables store once agree.
pub proof fn law_entry_row_round_trip(e: WorldInfoEntry, r: EntryRow, back: WorldInfoEntry, res: WorldInfoEntry)
    requires
        stored_faithfully(e),
        row_of(e, r),
        entry_of_row(r, back),
        hydrated(back, key_rows_of(e), res),
    ensures
        same_entry(res, e),
{
    assert(back.uid == e.uid);
    lemma_keys_of_own_rows(e.uid as i64, strings_view(e.keys@), strings_view(e.secondary_keys@), false);
    lemma_keys_of_own_rows(e.uid as i64, strings_view(e.keys@), strings_view(e.secondary_keys@), true);
}


/// An entry the crawler builds (see `WorldInfoEntry::new`) is read back
/// from the tables as it was written, keys included, as long as its uid
/// fits in a signed 64-bit integer.
pub proof fn law_fresh_entry_round_trip(
    e: WorldInfoEntry,
    uid: u64,
    name: Seq<char>,
    keys: Seq<Seq<char>>,
    content: Seq<char>,
    comment: Seq<char>,
    priority: u32,
    position: u8,
    r: EntryRow,
    back: WorldInfoEntry,
    res: WorldInfoEntry,
)
    requires
        e.is_fresh(uid, name, keys, content, comment, priority, position),
        uid <= i64::MAX,
        row_of(e, r),
        entry_of_row(r, back),
        hydrated(back, key_rows_of(e), res),
    ensures
        same_entry(res, e),
{
    assert(strings_view(e.keysecondary@) =~= strings_view(e.secondary_keys@));
    law_entry_row_round_trip(e, r, back, res);
}

} // verus!
