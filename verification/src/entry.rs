//! SillyTavern world-info entries.

use vstd::prelude::*;

use crate::wikitext::strings_view;

verus! {

/// A JSON value, as SillyTavern stores a character filter.
#[verifier::external_type_specification]
#[verifier::external_body]
pub struct ExJsonValue(serde_json::Value);

/// The per-entry `extensions` block that SillyTavern writes.
pub struct EntryExtensions {
    pub depth: u32,
    pub weight: u32,
    pub add_memo: bool,
    pub probability: u8,
    pub display_index: u64,
    pub selective_logic: u8,
    pub use_probability: bool,
    pub character_filter: Option<serde_json::Value>,
    pub exclude_recursion: bool,
}

/// A single SillyTavern world-info entry.
///
/// Field names follow the on-disk format used by SillyTavern, including the
/// `key` / `keys` / `keysecondary` / `secondary_keys` duplication that it
/// writes itself.
pub struct WorldInfoEntry {
    pub uid: u64,
    pub key: Vec<String>,
    pub keysecondary: Vec<String>,
    pub comment: String,
    pub content: String,
    pub constant: bool,
    pub selective: bool,
    pub selective_logic: u8,
    pub order: u32,
    pub position: u8,
    pub disable: bool,
    pub add_memo: bool,
    pub exclude_recursion: bool,
    pub probability: u8,
    pub display_index: u64,
    pub use_probability: bool,
    pub secondary_keys: Vec<String>,
    pub keys: Vec<String>,
    pub id: u64,
    pub priority: u32,
    pub insertion_order: u32,
    pub enabled: bool,
    pub name: String,
    pub extensions: EntryExtensions,
    pub case_sensitive: bool,
    pub depth: u32,
    pub character_filter: Option<serde_json::Value>,
}

/// A copy of a list of strings.
pub fn clone_strings(v: &Vec<String>) -> (res: Vec<String>)
    ensures
        strings_view(res@) == strings_view(v@),
{
    let mut out: Vec<String> = Vec::new();
    let mut i: usize = 0;
    while i < v.len()
        invariant
            i <= v@.len(),
            strings_view(out@) == strings_view(v@).take(i as int),
        decreases v@.len() - i,
    {
        let s = v[i].clone();
        let ghost before = strings_view(out@);
        out.push(s);
        assert(strings_view(out@) =~= before.push(v@[i as int]@));
        assert(strings_view(v@).take(i + 1) =~= strings_view(v@).take(i as int).push(
            v@[i as int]@,
        ));
        i = i + 1;
    }
    assert(strings_view(v@).take(i as int) =~= strings_view(v@));
    out
}

impl WorldInfoEntry {
    /// The entry as `new` builds it: the given values, and the defaults for
    /// the rest (selective, enabled, not constant, probability 100, depth 4,
    /// no secondary keys, no character filter; `uid`, `id` and
    /// `display_index` all equal; `order`, `insertion_order` and the
    /// extensions' weight all equal to the priority).
    pub open spec fn is_fresh(
        self,
        uid: u64,
        name: Seq<char>,
        keys: Seq<Seq<char>>,
        content: Seq<char>,
        comment: Seq<char>,
        priority: u32,
        position: u8,
    ) -> bool {
        &&& self.uid == uid
        &&& strings_view(self.key@) == keys
        &&& self.keysecondary@.len() == 0
        &&& self.comment@ == comment
        &&& self.content@ == content
        &&& !self.constant
        &&& self.selective
        &&& self.selective_logic == 0
        &&& self.order == priority
        &&& self.position == position
        &&& !self.disable
        &&& self.add_memo
        &&& self.exclude_recursion
        &&& self.probability == 100
        &&& self.display_index == uid
        &&& self.use_probability
        &&& self.secondary_keys@.len() == 0
        &&& strings_view(self.keys@) == keys
        &&& self.id == uid
        &&& self.priority == priority
        &&& self.insertion_order == priority
        &&& self.enabled
        &&& self.name@ == name
        &&& self.extensions.depth == 4
        &&& self.extensions.weight == priority
        &&& self.extensions.add_memo
        &&& self.extensions.probability == 100
        &&& self.extensions.display_index == uid
        &&& self.extensions.selective_logic == 0
        &&& self.extensions.use_probability
        &&& self.extensions.character_filter is None
        &&& self.extensions.exclude_recursion
        &&& !self.case_sensitive
        &&& self.depth == 4
        &&& self.character_filter is None
    }

    /// Build a fresh entry with sensible defaults.
    ///
    /// `uid` and `id` are populated from the supplied counter value. The
    /// caller is responsible for tracking it.
    pub fn new(
        uid: u64,
        name: String,
        keys: Vec<String>,
        content: String,
        comment: String,
        priority: u32,
        position: u8,
    ) -> (res: Self)
        ensures
            res.is_fresh(
                uid,
                name@,
                strings_view(keys@),
                content@,
                comment@,
                priority,
                position,
            ),
    {
        let key = clone_strings(&keys);
        WorldInfoEntry {
            uid,
            key,
            keysecondary: Vec::new(),
            comment,
            content,
            constant: false,
            selective: true,
            selective_logic: 0,
            order: priority,
            position,
            disable: false,
            add_memo: true,
            exclude_recursion: true,
            probability: 100,
            display_index: uid,
            use_probability: true,
            secondary_keys: Vec::new(),
            keys,
            id: uid,
            priority,
            insertion_order: priority,
            enabled: true,
            name,
            extensions: EntryExtensions {
                depth: 4,
                weight: priority,
                add_memo: true,
                probability: 100,
                display_index: uid,
                selective_logic: 0,
                use_probability: true,
                character_filter: None,
                exclude_recursion: true,
            },
            case_sensitive: false,
            depth: 4,
            character_filter: None,
        }
    }
}

} // verus!
