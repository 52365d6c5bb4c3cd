//! Turning crawled pages into world-info entries.

use vstd::prelude::*;

use crate::entry::WorldInfoEntry;
use crate::pages::PageData;
use crate::text::{
    ascii_lower, chars_of, contains, contains_seq, copy_range, eq_ignore_ascii_case, eq_ignore_case,
    less_chars, push_all, replace_all, replace_chars, seq_less, starts_with, string_from_chars,
    strictly_ascending, to_ascii_lower, trim, trim_bounds, utf8_len, utf8_len_below,
};
use crate::wikitext::{
    lines_view, strings_view, template_name_of, template_named_of, template_spans,
    template_spans_exec, underscores_to_spaces, NamedParams,
};

verus! {

/// Heuristically classify a page by scanning its categories + the first
/// few KB of wikitext for known templates.
#[derive(Debug, Clone, Copy, PartialEq, Eq, Structural)]
pub enum PageKind {
    Character,
    Location,
    Pathway,
    Item,
    Organization,
    Event,
    Terminology,
    Unknown,
}


/// Template names that mark a character page.
pub open spec fn character_templates() -> Seq<Seq<char>> {
    seq!["Char temp"@, "Character"@, "Infobox character"@, "Character_Tabs"@]
}

/// Template names that mark a location page.
pub open spec fn location_templates() -> Seq<Seq<char>> {
    seq!["Location"@, "Infobox location"@, "City"@, "Country"@, "Continent"@]
}

/// Template names that mark an item page.
pub open spec fn item_templates() -> Seq<Seq<char>> {
    seq![
        "Sealed_Artifact_Template"@,
        "Sealed Artifact Template"@,
        "Sealed_Artifact"@,
        "Item"@,
        "Mystical_Item"@,
    ]
}

fn character_template_list() -> (res: Vec<Vec<char>>)
    ensures
        lines_view(res@) == character_templates(),
{
    let v = vec![
        chars_of("Char temp"),
        chars_of("Character"),
        chars_of("Infobox character"),
        chars_of("Character_Tabs"),
    ];
    assert(lines_view(v@) =~= character_templates());
    v
}

fn location_template_list() -> (res: Vec<Vec<char>>)
    ensures
        lines_view(res@) == location_templates(),
{
    let v = vec![
        chars_of("Location"),
        chars_of("Infobox location"),
        chars_of("City"),
        chars_of("Country"),
        chars_of("Continent"),
    ];
    assert(lines_view(v@) =~= location_templates());
    v
}

fn item_template_list() -> (res: Vec<Vec<char>>)
    ensures
        lines_view(res@) == item_templates(),
{
    let v = vec![
        chars_of("Sealed_Artifact_Template"),
        chars_of("Sealed Artifact Template"),
        chars_of("Sealed_Artifact"),
        chars_of("Item"),
        chars_of("Mystical_Item"),
    ];
    assert(lines_view(v@) =~= item_templates());
    v
}

/// The body of the template spanning `span` (without `{{` and `}}`).
pub open spec fn template_inner(s: Seq<char>, span: (int, int)) -> Seq<char> {
    s.subrange(span.0 + 2, span.1 - 2)
}

/// `name`, lowercased, equals one of `names` ignoring ASCII case.
pub open spec fn is_one_of(name: Seq<char>, names: Seq<Seq<char>>) -> bool {
    exists|k: int| 0 <= k < names.len() && eq_ignore_ascii_case(#[trigger] names[k], ascii_lower(name))
}

/// Some template of `s` has one of the given names.
pub open spec fn has_named_template(s: Seq<char>, names: Seq<Seq<char>>) -> bool {
    exists|k: int|
        0 <= k < template_spans(s, 0).len() && is_one_of(
            template_name_of(template_inner(s, #[trigger] template_spans(s, 0)[k])),
            names,
        )
}

/// Number of bytes of a page's wikitext that are scanned for templates.
pub open spec fn head_bytes() -> nat {
    8192
}

/// The first prefix length of `w`, from `i` on, that holds at least
/// `head_bytes()` bytes (or the whole length).
pub open spec fn head_end_from(w: Seq<char>, i: int) -> int
    decreases w.len() - i,
{
    if i < 0 || i >= w.len() {
        w.len() as int
    } else if utf8_len(w.take(i)) >= head_bytes() {
        i
    } else {
        head_end_from(w, i + 1)
    }
}

/// The first `head_bytes()` bytes of `w`, as characters.
pub open spec fn head(w: Seq<char>) -> Seq<char> {
    w.take(head_end_from(w, 0))
}

/// The cut after `head_bytes()` bytes falls between two characters (or the
/// text is no longer than that); else taking the head panics.
pub open spec fn head_is_cut_cleanly(w: Seq<char>) -> bool {
    utf8_len(w) <= head_bytes() || utf8_len(head(w)) == head_bytes()
}

/// The head of `w` holds a template with one of the given names.
pub open spec fn head_has_template(w: Seq<char>, names: Seq<Seq<char>>) -> bool {
    has_named_template(head(w), names)
}

/// Categories lowercased and joined by single spaces, from the `k`-th on.
pub open spec fn joined_from(cats: Seq<Seq<char>>, k: int) -> Seq<char>
    decreases cats.len() - k,
{
    if k < 0 || k >= cats.len() {
        Seq::empty()
    } else if k == cats.len() - 1 {
        ascii_lower(cats[k])
    } else {
        ascii_lower(cats[k]) + seq![' '] + joined_from(cats, k + 1)
    }
}

pub open spec fn category_text(cats: Seq<Seq<char>>) -> Seq<char> {
    joined_from(cats, 0)
}

pub open spec fn cats_mention(cats: Seq<Seq<char>>, word: Seq<char>) -> bool {
    contains_seq(category_text(cats), word)
}

/// The page is an item by its categories.
pub open spec fn item_by_category(cats: Seq<Seq<char>>) -> bool {
    cats_mention(cats, "sealed_artifact"@) || cats_mention(cats, "mystical_item"@)
        || cats_mention(cats, "item"@)
}

pub open spec fn pathway_by_page(cats: Seq<Seq<char>>, w: Seq<char>) -> bool {
    cats_mention(cats, "pathway"@) || contains_seq(w, "Pathway_template"@)
}

/// Classification of a page from its categories and wikitext.
pub open spec fn classification(cats: Seq<Seq<char>>, w: Seq<char>) -> PageKind {
    if pathway_by_page(cats, w) {
        PageKind::Pathway
    } else if item_by_category(cats) || head_has_template(w, item_templates()) {
        PageKind::Item
    } else if cats_mention(cats, "characters"@) || cats_mention(cats, "beyonder"@)
        || head_has_template(w, character_templates()) {
        PageKind::Character
    } else if cats_mention(cats, "location"@) || cats_mention(cats, "cities"@) || cats_mention(
        cats,
        "countries"@,
    ) || cats_mention(cats, "continent"@) || cats_mention(cats, "realms"@) || head_has_template(
        w,
        location_templates(),
    ) {
        PageKind::Location
    } else if cats_mention(cats, "organization"@) || cats_mention(cats, "organisations"@)
        || cats_mention(cats, "churches"@) {
        PageKind::Organization
    } else if cats_mention(cats, "event"@) || cats_mention(cats, "battle"@) {
        PageKind::Event
    } else if cats_mention(cats, "terminology"@) {
        PageKind::Terminology
    } else {
        PageKind::Unknown
    }
}

/// What decides a page's kind, cue by cue: a pathway cue wins, then an
/// item cue; otherwise a page whose lower-cased categories mention
/// "characters" or "beyonder", or whose head holds a character template,
/// is a character; failing that, location, organization, event and
/// terminology cues decide in that order, and a page with none of them is
/// unknown.
pub proof fn law_classification_cues(cats: Seq<Seq<char>>, w: Seq<char>)
    ensures
        ({
            let text = category_text(cats);
            let k = classification(cats, w);
            let pathway = contains_seq(text, "pathway"@) || contains_seq(w, "Pathway_template"@);
            let item = contains_seq(text, "sealed_artifact"@) || contains_seq(text, "mystical_item"@)
                || contains_seq(text, "item"@) || head_has_template(w, item_templates());
            let character = contains_seq(text, "characters"@) || contains_seq(text, "beyonder"@)
                || head_has_template(w, character_templates());
            let location = contains_seq(text, "location"@) || contains_seq(text, "cities"@)
                || contains_seq(text, "countries"@) || contains_seq(text, "continent"@)
                || contains_seq(text, "realms"@) || head_has_template(w, location_templates());
            let organization = contains_seq(text, "organization"@) || contains_seq(
                text,
                "organisations"@,
            ) || contains_seq(text, "churches"@);
            let event = contains_seq(text, "event"@) || contains_seq(text, "battle"@);
            let terminology = contains_seq(text, "terminology"@);
            &&& pathway ==> k == PageKind::Pathway
            &&& !pathway && item ==> k == PageKind::Item
            &&& !pathway && !item && character ==> k == PageKind::Character
            &&& !pathway && !item && !character && location ==> k == PageKind::Location
            &&& !pathway && !item && !character && !location && organization ==> k
                == PageKind::Organization
            &&& !pathway && !item && !character && !location && !organization && event ==> k
                == PageKind::Event
            &&& !pathway && !item && !character && !location && !organization && !event
                && terminology ==> k == PageKind::Terminology
            &&& !pathway && !item && !character && !location && !organization && !event
                && !terminology ==> k == PageKind::Unknown
        }),
{
}

/// Classifying the page does not reach the template scan, or the scan's
/// cut of the wikitext falls between two characters.
pub open spec fn classify_is_defined(cats: Seq<Seq<char>>, w: Seq<char>) -> bool {
    pathway_by_page(cats, w) || item_by_category(cats) || head_is_cut_cleanly(w)
}

fn joined_categories(cats: &Vec<String>) -> (res: Vec<char>)
    ensures
        res@ == category_text(strings_view(cats@)),
{
    let ghost cv = strings_view(cats@);
    let n = cats.len();
    if n == 0 {
        return Vec::new();
    }
    let mut out: Vec<char> = Vec::new();
    let mut k: usize = 0;
    while k < n
        invariant
            n == cats@.len(),
            cv == strings_view(cats@),
            k <= n,
            n > 0,
            out@ + joined_from(cv, k as int) == category_text(cv),
        decreases n - k,
    {
        let ghost before = out@;
        let c = chars_of(cats[k].as_str());
        let low = to_ascii_lower(c.as_slice());
        assert(cv[k as int] == c@);
        push_all(&mut out, low.as_slice());
        if k + 1 < n {
            out.push(' ');
        }
        assert(out@ + joined_from(cv, k + 1) =~= before + joined_from(cv, k as int));
        k = k + 1;
    }
    assert(out@ =~= out@ + joined_from(cv, k as int));
    out
}

/// The number of leading characters of `w` that make up its head, and
/// their length in bytes.
fn head_extent(w: &[char]) -> (res: (usize, usize))
    ensures
        res.0 as int == head_end_from(w@, 0),
        res.0 <= w@.len(),
        res.1 == utf8_len(w@.take(res.0 as int)),
        res.1 < 8192 ==> res.0 == w@.len(),
{
    let mut acc: usize = 0;
    let mut i: usize = 0;
    assert(w@.take(0) =~= Seq::<char>::empty());
    assert(vstd::utf8::encode_utf8(Seq::<char>::empty()) =~= Seq::<u8>::empty());
    while i < w.len() && acc < 8192
        invariant
            i <= w@.len(),
            acc == utf8_len(w@.take(i as int)),
            head_end_from(w@, i as int) == head_end_from(w@, 0),
            acc <= 8192 + 4,
        decreases w@.len() - i,
    {
        let c = crate::text::char_utf8_width(w[i]);
        proof {
            crate::text::lemma_utf8_prefix_step(w@, i as int);
        }
        acc = acc + c;
        i = i + 1;
    }
    (i, acc)
}

/// Number of leading characters of `w` that make up its head.
fn head_len(w: &[char]) -> (res: usize)
    ensures
        res as int == head_end_from(w@, 0),
        res <= w@.len(),
{
    head_extent(w).0
}

/// Whether the cut after `head_bytes()` bytes falls between two characters.
fn head_is_cut_cleanly_exec(w: &[char]) -> (res: bool)
    ensures
        res == head_is_cut_cleanly(w@),
{
    let (i, acc) = head_extent(w);
    proof {
        assert(head(w@) == w@.take(i as int));
        assert(w@.take(w@.len() as int) =~= w@);
        if i < w.len() {
            crate::text::lemma_utf8_prefix_monotone(w@, i as int, w@.len() as int);
        }
    }
    acc <= 8192
}

/// Whether `classify` can be asked about `page`: the answer does not need
/// the template scan, or the scan's cut of the wikitext falls between two
/// characters.
pub fn can_classify(page: &PageData) -> (res: bool)
    ensures
        res == classify_is_defined(page.cats(), page.wikitext@),
{
    let cats = joined_categories(&page.categories);
    let w = chars_of(page.wikitext.as_str());
    let c = cats.as_slice();
    mentions(c, "pathway") || mentions(w.as_slice(), "Pathway_template") || mentions(
        c,
        "sealed_artifact",
    ) || mentions(c, "mystical_item") || mentions(c, "item") || head_is_cut_cleanly_exec(
        w.as_slice(),
    )
}

fn is_one_of_exec(name: &[char], names: &Vec<Vec<char>>) -> (res: bool)
    ensures
        res == is_one_of(name@, lines_view(names@)),
{
    let low = to_ascii_lower(name);
    let mut k: usize = 0;
    while k < names.len()
        invariant
            k <= names@.len(),
            low@ == ascii_lower(name@),
            forall|j: int|
                0 <= j < k ==> !eq_ignore_ascii_case(#[trigger] lines_view(names@)[j], low@),
        decreases names@.len() - k,
    {
        if eq_ignore_case(names[k].as_slice(), low.as_slice()) {
            assert(lines_view(names@)[k as int] == names@[k as int]@);
            return true;
        }
        k = k + 1;
    }
    false
}

/// Whether some template of `s` has one of the given names.
fn has_named_template_exec(s: &[char], names: &Vec<Vec<char>>) -> (res: bool)
    ensures
        res == has_named_template(s@, lines_view(names@)),
{
    let spans = template_spans_exec(s);
    let ghost sv = template_spans(s@, 0);
    let mut k: usize = 0;
    while k < spans.len()
        invariant
            crate::wikitext::spans_view(spans@) == sv,
            sv == template_spans(s@, 0),
            forall|j: int|
                0 <= j < spans@.len() ==> #[trigger] spans@[j].0 + 4 <= spans@[j].1 && spans@[j].1
                    <= s@.len(),
            k <= spans@.len(),
            forall|j: int|
                0 <= j < k ==> !is_one_of(
                    template_name_of(template_inner(s@, #[trigger] sv[j])),
                    lines_view(names@),
                ),
        decreases spans@.len() - k,
    {
        let (a, b) = spans[k];
        assert(sv[k as int] == (a as int, b as int));
        let inner = copy_range(s, a + 2, b - 2);
        let t = crate::wikitext::parse_template_chars(inner.as_slice());
        let name = chars_of(t.name.as_str());
        if is_one_of_exec(name.as_slice(), names) {
            return true;
        }
        k = k + 1;
    }
    false
}

fn head_has_template_exec(w: &[char], names: &Vec<Vec<char>>) -> (res: bool)
    requires
        head_is_cut_cleanly(w@),
    ensures
        res == head_has_template(w@, lines_view(names@)),
{
    let h = head_len(w);
    let hv = copy_range(w, 0, h);
    assert(hv@ =~= head(w@));
    has_named_template_exec(hv.as_slice(), names)
}

fn mentions(text: &[char], word: &str) -> (res: bool)
    ensures
        res == contains_seq(text@, word@),
{
    let wv = chars_of(word);
    contains(text, wv.as_slice())
}

/// Heuristically classify a page by scanning its categories + the first
/// few KB of wikitext for known templates.
pub fn classify(page: &PageData) -> (res: PageKind)
    requires
        classify_is_defined(page.cats(), page.wikitext@),
    ensures
        res == classification(page.cats(), page.wikitext@),
{
    let cats = joined_categories(&page.categories);
    let w = chars_of(page.wikitext.as_str());
    let c = cats.as_slice();
    if mentions(c, "pathway") || mentions(w.as_slice(), "Pathway_template") {
        return PageKind::Pathway;
    }
    if mentions(c, "sealed_artifact") || mentions(c, "mystical_item") || mentions(c, "item")
        || head_has_template_exec(w.as_slice(), &item_template_list()) {
        return PageKind::Item;
    }
    if mentions(c, "characters") || mentions(c, "beyonder") || head_has_template_exec(
        w.as_slice(),
        &character_template_list(),
    ) {
        return PageKind::Character;
    }
    if mentions(c, "location") || mentions(c, "cities") || mentions(c, "countries") || mentions(
        c,
        "continent",
    ) || mentions(c, "realms") || head_has_template_exec(w.as_slice(), &location_template_list()) {
        return PageKind::Location;
    }
    if mentions(c, "organization") || mentions(c, "organisations") || mentions(c, "churches") {
        return PageKind::Organization;
    }
    if mentions(c, "event") || mentions(c, "battle") {
        return PageKind::Event;
    }
    if mentions(c, "terminology") {
        return PageKind::Terminology;
    }
    PageKind::Unknown
}

/// Default insertion priority by kind.
pub open spec fn priority_of(kind: PageKind) -> u32 {
    match kind {
        PageKind::Character => 100,
        PageKind::Pathway => 80,
        PageKind::Location => 60,
        PageKind::Item => 60,
        PageKind::Organization => 60,
        PageKind::Event => 40,
        PageKind::Terminology => 40,
        PageKind::Unknown => 30,
    }
}

pub fn default_priority(kind: PageKind) -> (res: u32)
    ensures
        res == priority_of(kind),
{
    match kind {
        PageKind::Character => 100,
        PageKind::Pathway => 80,
        PageKind::Location => 60,
        PageKind::Item => 60,
        PageKind::Organization => 60,
        PageKind::Event => 40,
        PageKind::Terminology => 40,
        PageKind::Unknown => 30,
    }
}

/// Insertion position: 0 is before, 1 after (SillyTavern's default).
pub fn default_position() -> (res: u8)
    ensures
        res == 1,
{
    1
}


// ---------------------------------------------------------------------------
// Sorted sets of keys (the order of `BTreeSet<String>`)
// ---------------------------------------------------------------------------

/// Adds `x` to a strictly ascending list of keys, keeping it so.
fn insert_sorted(set: &mut Vec<Vec<char>>, x: Vec<char>)
    requires
        strictly_ascending(lines_view(old(set)@)),
    ensures
        strictly_ascending(lines_view(final(set)@)),
        forall|y: Seq<char>|
            lines_view(final(set)@).contains(y) <==> (lines_view(old(set)@).contains(y) || y
                == x@),
{
    let ghost old_v = lines_view(set@);
    let mut p: usize = 0;
    while p < set.len() && less_chars(set[p].as_slice(), x.as_slice())
        invariant
            p <= set@.len(),
            lines_view(set@) == old_v,
            forall|j: int| 0 <= j < p ==> seq_less(#[trigger] old_v[j], x@),
        decreases set@.len() - p,
    {
        assert(old_v[p as int] == set@[p as int]@);
        p = p + 1;
    }
    if p < set.len() && crate::text::same_chars(set[p].as_slice(), x.as_slice()) {
        assert(old_v[p as int] == x@);
        assert(old_v.contains(x@));
        return;
    }
    proof {
        if p < old_v.len() {
            assert(old_v[p as int] == set@[p as int]@);
            crate::text::lemma_seq_less_total(old_v[p as int], x@);
            assert(seq_less(x@, old_v[p as int]));
            assert forall|j: int| p < j < old_v.len() implies seq_less(x@, #[trigger] old_v[j]) by {
                assert(seq_less(old_v[p as int], old_v[j]));
                crate::text::lemma_seq_less_transitive(x@, old_v[p as int], old_v[j]);
            }
        }
    }
    let ghost xv = x@;
    set.insert(p, x);
    let ghost new_v = lines_view(set@);
    assert(new_v =~= old_v.insert(p as int, xv));
    assert forall|i: int, j: int| 0 <= i < j < new_v.len() implies seq_less(
        #[trigger] new_v[i],
        #[trigger] new_v[j],
    ) by {
        if j < p {
        } else if j == p {
        } else if i < p {
            assert(new_v[j] == old_v[j - 1]);
            if p < old_v.len() {
                assert(seq_less(old_v[i], xv));
                assert(seq_less(xv, old_v[j - 1]) || j - 1 == p);
                if j - 1 == p {
                    assert(seq_less(xv, old_v[p as int]));
                }
                crate::text::lemma_seq_less_transitive(old_v[i], xv, old_v[j - 1]);
            }
        } else if i == p {
            assert(new_v[j] == old_v[j - 1]);
        } else {
            assert(new_v[i] == old_v[i - 1]);
            assert(new_v[j] == old_v[j - 1]);
        }
    }
    assert forall|y: Seq<char>| new_v.contains(y) <==> (old_v.contains(y) || y == xv) by {
        if new_v.contains(y) {
            let i = choose|i: int| 0 <= i < new_v.len() && new_v[i] == y;
            if i < p {
                assert(old_v[i] == y);
            } else if i > p {
                assert(old_v[i - 1] == y);
            }
        }
        if old_v.contains(y) {
            let i = choose|i: int| 0 <= i < old_v.len() && old_v[i] == y;
            if i < p {
                assert(new_v[i] == y);
            } else {
                assert(new_v[i + 1] == y);
            }
        }
        if y == xv {
            assert(new_v[p as int] == y);
        }
    }
}

/// The distinct elements of `v`, in ascending order.
pub fn sorted_unique(v: &Vec<Vec<char>>) -> (res: Vec<Vec<char>>)
    ensures
        strictly_ascending(lines_view(res@)),
        forall|y: Seq<char>| lines_view(res@).contains(y) <==> lines_view(v@).contains(y),
{
    let mut set: Vec<Vec<char>> = Vec::new();
    let mut i: usize = 0;
    while i < v.len()
        invariant
            i <= v@.len(),
            strictly_ascending(lines_view(set@)),
            forall|y: Seq<char>|
                lines_view(set@).contains(y) <==> lines_view(v@).take(i as int).contains(y),
        decreases v@.len() - i,
    {
        let x = copy_range(v[i].as_slice(), 0, v[i].len());
        assert(v@[i as int]@.subrange(0, v@[i as int]@.len() as int) =~= v@[i as int]@);
        insert_sorted(&mut set, x);
        proof {
            let t = lines_view(v@).take(i + 1);
            assert(t =~= lines_view(v@).take(i as int).push(v@[i as int]@));
            assert forall|y: Seq<char>| t.contains(y) <==> (lines_view(v@).take(i as int).contains(
                y,
            ) || y == v@[i as int]@) by {
                if t.contains(y) {
                    let k = choose|k: int| 0 <= k < t.len() && t[k] == y;
                    if k < i {
                        assert(lines_view(v@).take(i as int)[k] == y);
                    }
                }
                if lines_view(v@).take(i as int).contains(y) {
                    let k = choose|k: int|
                        0 <= k < i && lines_view(v@).take(i as int)[k] == y;
                    assert(t[k] == y);
                }
                if y == v@[i as int]@ {
                    assert(t[i as int] == y);
                }
            }
        }
        i = i + 1;
    }
    assert(lines_view(v@).take(i as int) =~= lines_view(v@));
    set
}


// ---------------------------------------------------------------------------
// Keys
// ---------------------------------------------------------------------------

/// Template parameters that hold other names of the subject.
pub open spec fn alias_params() -> Seq<Seq<char>> {
    seq![
        "aliases"@,
        "alias"@,
        "other_names"@,
        "other_name"@,
        "other_aliases"@,
        "also_known_as"@,
        "aka"@,
        "alt_name"@,
        "alt_names"@,
        "names"@,
        "title"@,
        "titles"@,
        "honorific_name"@,
        "honorific names"@,
        "epithet"@,
        "epithets"@,
    ]
}

/// Template parameters that hold the kind of the subject.
pub open spec fn type_params() -> Seq<Seq<char>> {
    seq!["type"@, "kind"@, "category"@, "species"@, "class"@]
}

fn alias_param_list() -> (res: Vec<Vec<char>>)
    ensures
        lines_view(res@) == alias_params(),
{
    let v = vec![
        chars_of("aliases"),
        chars_of("alias"),
        chars_of("other_names"),
        chars_of("other_name"),
        chars_of("other_aliases"),
        chars_of("also_known_as"),
        chars_of("aka"),
        chars_of("alt_name"),
        chars_of("alt_names"),
        chars_of("names"),
        chars_of("title"),
        chars_of("titles"),
        chars_of("honorific_name"),
        chars_of("honorific names"),
        chars_of("epithet"),
        chars_of("epithets"),
    ];
    assert(lines_view(v@) =~= alias_params());
    v
}

fn type_param_list() -> (res: Vec<Vec<char>>)
    ensures
        lines_view(res@) == type_params(),
{
    let v = vec![
        chars_of("type"),
        chars_of("kind"),
        chars_of("category"),
        chars_of("species"),
        chars_of("class"),
    ];
    assert(lines_view(v@) =~= type_params());
    v
}

pub open spec fn is_alias_separator(c: char) -> bool {
    c == ',' || c == ';' || c == '|' || c == '\n'
}

/// A piece of an alias list, trimmed; kept when non-empty and under 80 bytes.
pub open spec fn alias_piece(p: Seq<char>) -> Seq<Seq<char>> {
    let t = trim(p);
    if t.len() > 0 && utf8_len(t) < 80 {
        seq![t]
    } else {
        Seq::empty()
    }
}

pub open spec fn alias_pieces_from(s: Seq<char>, i: int, start: int) -> Seq<Seq<char>>
    decreases s.len() - i,
{
    if i < 0 || i >= s.len() {
        alias_piece(s.subrange(start, s.len() as int))
    } else if is_alias_separator(s[i]) {
        alias_piece(s.subrange(start, i)) + alias_pieces_from(s, i + 1, i + 1)
    } else {
        alias_pieces_from(s, i + 1, start)
    }
}

/// An alias list split at `,`, `;`, `|` and newlines.
pub open spec fn alias_pieces(s: Seq<char>) -> Seq<Seq<char>> {
    alias_pieces_from(s, 0, 0)
}

/// Characters allowed in a key: ASCII letters and digits, space and `.-',:()/`.
pub open spec fn is_key_char(c: char) -> bool {
    ||| ('A' <= c && c <= 'Z')
    ||| ('a' <= c && c <= 'z')
    ||| ('0' <= c && c <= '9')
    ||| c == ' '
    ||| c == '.'
    ||| c == '-'
    ||| c == '\''
    ||| c == ','
    ||| c == ':'
    ||| c == '('
    ||| c == ')'
    ||| c == '/'
}

/// Rejects pieces that look like template markup, interwiki, or
/// `{{Language|...}}` non-English names: only English alphanumerics and a
/// small set of punctuation, 1 to 80 bytes.
pub open spec fn is_english_friendly(s: Seq<char>) -> bool {
    &&& s.len() > 0
    &&& utf8_len(s) <= 80
    &&& !starts_with(s, "{{"@)
    &&& !starts_with(s, "[["@)
    &&& !contains_seq(s, "lang="@)
    &&& !contains_seq(s, "zh:"@)
    &&& !contains_seq(s, "Category:"@)
    &&& forall|i: int| 0 <= i < s.len() ==> is_key_char(#[trigger] s[i])
}

pub open spec fn friendly_from(ps: Seq<Seq<char>>, k: int) -> Seq<Seq<char>>
    decreases ps.len() - k,
{
    if k < 0 || k >= ps.len() {
        Seq::empty()
    } else if is_english_friendly(ps[k]) {
        seq![ps[k]] + friendly_from(ps, k + 1)
    } else {
        friendly_from(ps, k + 1)
    }
}

/// The English-friendly pieces of an alias list.
pub open spec fn friendly_pieces(v: Seq<char>) -> Seq<Seq<char>> {
    friendly_from(alias_pieces(v), 0)
}

/// Keys from the named parameters `names[k..]` that are present.
pub open spec fn param_keys_from(
    named: Map<Seq<char>, Seq<char>>,
    names: Seq<Seq<char>>,
    k: int,
) -> Seq<Seq<char>>
    decreases names.len() - k,
{
    if k < 0 || k >= names.len() {
        Seq::empty()
    } else {
        (if named.contains_key(names[k]) {
            friendly_pieces(named[names[k]])
        } else {
            Seq::empty()
        }) + param_keys_from(named, names, k + 1)
    }
}

/// Keys from the templates `spans[k..]` of `w`.
pub open spec fn template_keys_from(w: Seq<char>, spans: Seq<(int, int)>, k: int) -> Seq<
    Seq<char>,
>
    decreases spans.len() - k,
{
    if k < 0 || k >= spans.len() {
        Seq::empty()
    } else {
        let m = template_named_of(template_inner(w, spans[k]));
        param_keys_from(m, alias_params(), 0) + param_keys_from(m, type_params(), 0)
            + template_keys_from(w, spans, k + 1)
    }
}

/// For pathway pages, the title without " Pathway" and with it.
pub open spec fn pathway_keys(title: Seq<char>, kind: PageKind) -> Seq<Seq<char>> {
    if kind == PageKind::Pathway {
        let stem = underscores_to_spaces(replace_all(title, " Pathway"@, Seq::empty()));
        (if stem.len() > 0 {
            seq![stem]
        } else {
            Seq::empty()
        }) + seq![stem + " Pathway"@]
    } else {
        Seq::empty()
    }
}

/// Every key that a page contributes, before sorting and dedup: the title
/// (underscores as spaces), alias-like and type-like template parameters,
/// and the pathway synonyms.
pub open spec fn key_candidates(title: Seq<char>, w: Seq<char>, kind: PageKind) -> Seq<
    Seq<char>,
> {
    seq![underscores_to_spaces(title)] + template_keys_from(w, template_spans(w, 0), 0)
        + pathway_keys(title, kind)
}

fn push_alias_piece(out: &mut Vec<Vec<char>>, s: &[char], lo: usize, hi: usize)
    requires
        lo <= hi <= s@.len(),
    ensures
        lines_view(final(out)@) == lines_view(old(out)@) + alias_piece(
            s@.subrange(lo as int, hi as int),
        ),
{
    let ghost before = lines_view(out@);
    let (a, b) = trim_bounds(s, lo, hi);
    let t = copy_range(s, a, b);
    if a < b && utf8_len_below(t.as_slice(), 80) {
        out.push(t);
        assert(lines_view(out@) =~= before.push(t@));
    } else {
        assert(lines_view(out@) =~= before);
    }
}

fn split_aliases(s: &[char]) -> (res: Vec<Vec<char>>)
    ensures
        lines_view(res@) == alias_pieces(s@),
{
    let n = s.len();
    let mut out: Vec<Vec<char>> = Vec::new();
    let mut start: usize = 0;
    let mut i: usize = 0;
    while i < n
        invariant
            n == s@.len(),
            start <= i <= n,
            lines_view(out@) + alias_pieces_from(s@, i as int, start as int) == alias_pieces(s@),
        decreases n - i,
    {
        let c = s[i];
        if c == ',' || c == ';' || c == '|' || c == '\n' {
            let ghost before = lines_view(out@);
            push_alias_piece(&mut out, s, start, i);
            assert(lines_view(out@) + alias_pieces_from(s@, i + 1, i + 1) =~= before
                + alias_pieces_from(s@, i as int, start as int));
            start = i + 1;
        }
        i = i + 1;
    }
    let ghost before = lines_view(out@);
    push_alias_piece(&mut out, s, start, n);
    assert(lines_view(out@) =~= before + alias_pieces_from(s@, i as int, start as int));
    out
}

fn is_key_char_exec(c: char) -> (res: bool)
    ensures
        res == is_key_char(c),
{
    ('A' <= c && c <= 'Z') || ('a' <= c && c <= 'z') || ('0' <= c && c <= '9') || c == ' ' || c
        == '.' || c == '-' || c == '\'' || c == ',' || c == ':' || c == '(' || c == ')' || c == '/'
}

fn is_english_friendly_exec(s: &[char]) -> (res: bool)
    ensures
        res == is_english_friendly(s@),
{
    if s.len() == 0 || !utf8_len_below(s, 81) {
        return false;
    }
    let open_t = chars_of("{{");
    let open_l = chars_of("[[");
    if crate::text::matches_at(s, open_t.as_slice(), 0) || crate::text::matches_at(
        s,
        open_l.as_slice(),
        0,
    ) {
        return false;
    }
    if mentions(s, "lang=") || mentions(s, "zh:") || mentions(s, "Category:") {
        return false;
    }
    let mut i: usize = 0;
    while i < s.len()
        invariant
            i <= s@.len(),
            forall|k: int| 0 <= k < i ==> is_key_char(#[trigger] s@[k]),
        decreases s@.len() - i,
    {
        if !is_key_char_exec(s[i]) {
            return false;
        }
        i = i + 1;
    }
    true
}

fn friendly_pieces_exec(v: &[char]) -> (res: Vec<Vec<char>>)
    ensures
        lines_view(res@) == friendly_pieces(v@),
{
    let ps = split_aliases(v);
    let ghost pv = alias_pieces(v@);
    let mut out: Vec<Vec<char>> = Vec::new();
    let mut k: usize = 0;
    while k < ps.len()
        invariant
            lines_view(ps@) == pv,
            k <= ps@.len(),
            lines_view(out@) + friendly_from(pv, k as int) == friendly_from(pv, 0),
        decreases ps@.len() - k,
    {
        let ghost before = lines_view(out@);
        assert(pv[k as int] == ps@[k as int]@);
        if is_english_friendly_exec(ps[k].as_slice()) {
            let p = copy_range(ps[k].as_slice(), 0, ps[k].len());
            assert(ps@[k as int]@.subrange(0, ps@[k as int]@.len() as int) =~= ps@[k as int]@);
            out.push(p);
            assert(lines_view(out@) =~= before.push(pv[k as int]));
            assert(lines_view(out@) + friendly_from(pv, k + 1) =~= before + friendly_from(
                pv,
                k as int,
            ));
        }
        k = k + 1;
    }
    assert(lines_view(out@) =~= lines_view(out@) + friendly_from(pv, k as int));
    out
}

fn push_param_keys(out: &mut Vec<Vec<char>>, named: &NamedParams, names: &Vec<Vec<char>>)
    ensures
        lines_view(final(out)@) == lines_view(old(out)@) + param_keys_from(
            named.view(),
            lines_view(names@),
            0,
        ),
{
    let ghost start = lines_view(out@);
    let ghost nv = lines_view(names@);
    let mut k: usize = 0;
    while k < names.len()
        invariant
            nv == lines_view(names@),
            k <= names@.len(),
            lines_view(out@) + param_keys_from(named.view(), nv, k as int) == start
                + param_keys_from(named.view(), nv, 0),
        decreases names@.len() - k,
    {
        let ghost before = lines_view(out@);
        assert(nv[k as int] == names@[k as int]@);
        match named.get_chars(names[k].as_slice()) {
            Some(v) => {
                let vc = chars_of(v.as_str());
                let pieces = friendly_pieces_exec(vc.as_slice());
                let mut j: usize = 0;
                while j < pieces.len()
                    invariant
                        j <= pieces@.len(),
                        lines_view(out@) == before + lines_view(pieces@).take(j as int),
                    decreases pieces@.len() - j,
                {
                    let p = copy_range(pieces[j].as_slice(), 0, pieces[j].len());
                    assert(pieces@[j as int]@.subrange(0, pieces@[j as int]@.len() as int)
                        =~= pieces@[j as int]@);
                    let ghost mid = lines_view(out@);
                    out.push(p);
                    assert(lines_view(out@) =~= mid.push(pieces@[j as int]@));
                    assert(lines_view(pieces@).take(j + 1) =~= lines_view(pieces@).take(
                        j as int,
                    ).push(pieces@[j as int]@));
                    j = j + 1;
                }
                assert(lines_view(pieces@).take(j as int) =~= lines_view(pieces@));
                assert(lines_view(out@) + param_keys_from(named.view(), nv, k + 1) =~= before
                    + param_keys_from(named.view(), nv, k as int));
            },
            None => {
                assert(lines_view(out@) + param_keys_from(named.view(), nv, k + 1) =~= before
                    + param_keys_from(named.view(), nv, k as int));
            },
        }
        k = k + 1;
    }
    assert(lines_view(out@) =~= lines_view(out@) + param_keys_from(named.view(), nv, k as int));
}

/// All candidate keys of a page, in the order they are found.
fn key_candidates_exec(title: &[char], w: &[char], kind: PageKind) -> (res: Vec<Vec<char>>)
    ensures
        lines_view(res@) == key_candidates(title@, w@, kind),
{
    let mut out: Vec<Vec<char>> = Vec::new();
    let mut t: Vec<char> = Vec::new();
    let mut i: usize = 0;
    while i < title.len()
        invariant
            i <= title@.len(),
            t@ == underscores_to_spaces(title@.take(i as int)),
        decreases title@.len() - i,
    {
        let c = title[i];
        t.push(if c == '_' { ' ' } else { c });
        assert(underscores_to_spaces(title@.take(i + 1)) =~= underscores_to_spaces(
            title@.take(i as int),
        ).push(if c == '_' { ' ' } else { c }));
        i = i + 1;
    }
    assert(title@.take(i as int) =~= title@);
    let ghost tv = t@;
    out.push(t);
    assert(lines_view(out@) =~= seq![tv]);
    let spans = template_spans_exec(w);
    let ghost sv = template_spans(w@, 0);
    let aliases = alias_param_list();
    let types = type_param_list();
    let mut k: usize = 0;
    while k < spans.len()
        invariant
            crate::wikitext::spans_view(spans@) == sv,
            sv == template_spans(w@, 0),
            lines_view(aliases@) == alias_params(),
            lines_view(types@) == type_params(),
            forall|j: int|
                0 <= j < spans@.len() ==> #[trigger] spans@[j].0 + 4 <= spans@[j].1 && spans@[j].1
                    <= w@.len(),
            k <= spans@.len(),
            lines_view(out@) + template_keys_from(w@, sv, k as int) == seq![tv]
                + template_keys_from(w@, sv, 0),
        decreases spans@.len() - k,
    {
        let ghost before = lines_view(out@);
        let (a, b) = spans[k];
        assert(sv[k as int] == (a as int, b as int));
        let inner = copy_range(w, a + 2, b - 2);
        let tpl = crate::wikitext::parse_template_chars(inner.as_slice());
        push_param_keys(&mut out, &tpl.named, &aliases);
        push_param_keys(&mut out, &tpl.named, &types);
        assert(lines_view(out@) + template_keys_from(w@, sv, k + 1) =~= before
            + template_keys_from(w@, sv, k as int));
        k = k + 1;
    }
    assert(lines_view(out@) =~= seq![tv] + template_keys_from(w@, sv, 0));
    if kind == PageKind::Pathway {
        let suffix = chars_of(" Pathway");
        proof {
            reveal_strlit(" Pathway");
        }
        let nothing: Vec<char> = Vec::new();
        let no_suffix = replace_chars(title, suffix.as_slice(), nothing.as_slice());
        let us = chars_of("_");
        let sp = chars_of(" ");
        proof {
            reveal_strlit("_");
            reveal_strlit(" ");
        }
        let stem = replace_chars(no_suffix.as_slice(), us.as_slice(), sp.as_slice());
        proof {
            lemma_replace_underscores(no_suffix@);
        }
        let ghost before = lines_view(out@);
        if stem.len() > 0 {
            let s2 = copy_range(stem.as_slice(), 0, stem.len());
            assert(stem@.subrange(0, stem@.len() as int) =~= stem@);
            out.push(s2);
        }
        let mut with_suffix = copy_range(stem.as_slice(), 0, stem.len());
        assert(stem@.subrange(0, stem@.len() as int) =~= stem@);
        push_all(&mut with_suffix, suffix.as_slice());
        out.push(with_suffix);
        assert(lines_view(out@) =~= before + pathway_keys(title@, kind));
    }
    out
}

/// Replacing the pattern `_` by ` ` maps underscores to spaces.
pub proof fn lemma_replace_underscores(s: Seq<char>)
    ensures
        replace_all(s, "_"@, " "@) == underscores_to_spaces(s),
{
    reveal_strlit("_");
    reveal_strlit(" ");
    assert("_"@ =~= seq!['_']);
    assert(" "@ =~= seq![' ']);
    lemma_replace_underscores_from(s, 0);
    assert(s.subrange(0, s.len() as int) =~= s);
}

proof fn lemma_replace_underscores_from(s: Seq<char>, i: int)
    requires
        0 <= i <= s.len(),
        "_"@ == seq!['_'],
        " "@ == seq![' '],
    ensures
        crate::text::replace_from(s, "_"@, " "@, i) == underscores_to_spaces(
            s.subrange(i, s.len() as int),
        ),
    decreases s.len() - i,
{
    if i < s.len() {
        lemma_replace_underscores_from(s, i + 1);
        let u = seq!['_'];
        if s[i] == '_' {
            assert(s.subrange(i, i + 1) =~= u);
        } else {
            assert(s.subrange(i, i + 1)[0] == s[i]);
        }
        assert(underscores_to_spaces(s.subrange(i, s.len() as int)) =~= seq![
            if s[i] == '_' { ' ' } else { s[i] },
        ] + underscores_to_spaces(s.subrange(i + 1, s.len() as int)));
    } else {
        assert(underscores_to_spaces(s.subrange(i, s.len() as int)) =~= Seq::<char>::empty());
    }
}


/// `keys` holds every candidate key of the page exactly once, in ascending
/// order.
pub open spec fn are_page_keys(keys: Seq<Seq<char>>, title: Seq<char>, w: Seq<char>, kind: PageKind) -> bool {
    &&& strictly_ascending(keys)
    &&& forall|y: Seq<char>| keys.contains(y) <==> key_candidates(title, w, kind).contains(y)
}

proof fn lemma_param_keys_hold(
    named: Map<Seq<char>, Seq<char>>,
    names: Seq<Seq<char>>,
    k: int,
    j: int,
    p: Seq<char>,
)
    requires
        0 <= k <= j < names.len(),
        named.contains_key(names[j]),
        friendly_pieces(named[names[j]]).contains(p),
    ensures
        param_keys_from(named, names, k).contains(p),
    decreases j - k,
{
    let here = if named.contains_key(names[k]) {
        friendly_pieces(named[names[k]])
    } else {
        Seq::empty()
    };
    let rest = param_keys_from(named, names, k + 1);
    assert(param_keys_from(named, names, k) == here + rest);
    if k == j {
        let i = choose|i: int| 0 <= i < here.len() && here[i] == p;
        assert((here + rest)[i] == p);
    } else {
        lemma_param_keys_hold(named, names, k + 1, j, p);
        let i = choose|i: int| 0 <= i < rest.len() && rest[i] == p;
        assert((here + rest)[here.len() + i] == p);
    }
}

proof fn lemma_template_keys_hold(w: Seq<char>, spans: Seq<(int, int)>, k: int, j: int, p: Seq<char>)
    requires
        0 <= k <= j < spans.len(),
        ({
            let m = template_named_of(template_inner(w, spans[j]));
            (param_keys_from(m, alias_params(), 0) + param_keys_from(m, type_params(), 0)).contains(
                p,
            )
        }),
    ensures
        template_keys_from(w, spans, k).contains(p),
    decreases j - k,
{
    let m = template_named_of(template_inner(w, spans[k]));
    let here = param_keys_from(m, alias_params(), 0) + param_keys_from(m, type_params(), 0);
    let rest = template_keys_from(w, spans, k + 1);
    assert(template_keys_from(w, spans, k) == here + rest);
    if k == j {
        let i = choose|i: int| 0 <= i < here.len() && here[i] == p;
        assert((here + rest)[i] == p);
    } else {
        lemma_template_keys_hold(w, spans, k + 1, j, p);
        let i = choose|i: int| 0 <= i < rest.len() && rest[i] == p;
        assert((here + rest)[here.len() + i] == p);
    }
}

/// The keys of a page hold its title (underscores as spaces) and, for
/// every template of the page and every alias-like or type-like parameter
/// that it sets, every English-friendly piece of that parameter's value,
/// whatever other such parameters the template sets.
pub proof fn law_template_params_give_keys(
    keys: Seq<Seq<char>>,
    title: Seq<char>,
    w: Seq<char>,
    kind: PageKind,
    j: int,
    name: Seq<char>,
    p: Seq<char>,
)
    requires
        are_page_keys(keys, title, w, kind),
        0 <= j < template_spans(w, 0).len(),
        alias_params().contains(name) || type_params().contains(name),
        template_named_of(template_inner(w, template_spans(w, 0)[j])).contains_key(name),
        friendly_pieces(template_named_of(template_inner(w, template_spans(w, 0)[j]))[name]).contains(
            p,
        ),
    ensures
        keys.contains(underscores_to_spaces(title)),
        keys.contains(p),
{
    let spans = template_spans(w, 0);
    let m = template_named_of(template_inner(w, spans[j]));
    let a = param_keys_from(m, alias_params(), 0);
    let b = param_keys_from(m, type_params(), 0);
    if alias_params().contains(name) {
        let i = choose|i: int| 0 <= i < alias_params().len() && alias_params()[i] == name;
        lemma_param_keys_hold(m, alias_params(), 0, i, p);
        let x = choose|x: int| 0 <= x < a.len() && a[x] == p;
        assert((a + b)[x] == p);
    } else {
        let i = choose|i: int| 0 <= i < type_params().len() && type_params()[i] == name;
        lemma_param_keys_hold(m, type_params(), 0, i, p);
        let x = choose|x: int| 0 <= x < b.len() && b[x] == p;
        assert((a + b)[a.len() + x] == p);
    }
    lemma_template_keys_hold(w, spans, 0, j, p);
    let tk = template_keys_from(w, spans, 0);
    let c = key_candidates(title, w, kind);
    let head = seq![underscores_to_spaces(title)];
    assert(c == head + tk + pathway_keys(title, kind));
    assert(c[0] == underscores_to_spaces(title));
    let y = choose|y: int| 0 <= y < tk.len() && tk[y] == p;
    assert(c[1 + y] == p);
}

/// A pathway page has among its keys its title without " Pathway"
/// (underscores as spaces) followed by " Pathway", and the title without
/// it where that is not empty.
pub proof fn law_pathway_keys(keys: Seq<Seq<char>>, title: Seq<char>, w: Seq<char>)
    requires
        are_page_keys(keys, title, w, PageKind::Pathway),
    ensures
        ({
            let stem = underscores_to_spaces(replace_all(title, " Pathway"@, Seq::empty()));
            &&& keys.contains(stem + " Pathway"@)
            &&& stem.len() > 0 ==> keys.contains(stem)
        }),
{
    let stem = underscores_to_spaces(replace_all(title, " Pathway"@, Seq::empty()));
    let head = seq![underscores_to_spaces(title)];
    let tk = template_keys_from(w, template_spans(w, 0), 0);
    let pk = pathway_keys(title, PageKind::Pathway);
    let c = key_candidates(title, w, PageKind::Pathway);
    assert(c == head + tk + pk);
    let first = if stem.len() > 0 { seq![stem] } else { Seq::empty() };
    assert(pk == first + seq![stem + " Pathway"@]);
    assert(c[1 + tk.len() + first.len() as int] == stem + " Pathway"@);
    if stem.len() > 0 {
        assert(c[1 + tk.len() as int] == stem);
    }
}


/// The lookup keys of a page: the title, alias-like and type-like template
/// parameters, and for pathways their stem, deduplicated and sorted.
pub fn extract_keys(page: &PageData, kind: PageKind) -> (res: Vec<String>)
    ensures
        are_page_keys(strings_view(res@), page.title@, page.wikitext@, kind),
{
    let title = chars_of(page.title.as_str());
    let w = chars_of(page.wikitext.as_str());
    let cands = key_candidates_exec(title.as_slice(), w.as_slice(), kind);
    let sorted = sorted_unique(&cands);
    let mut out: Vec<String> = Vec::new();
    let mut i: usize = 0;
    while i < sorted.len()
        invariant
            i <= sorted@.len(),
            strings_view(out@) == lines_view(sorted@).take(i as int),
        decreases sorted@.len() - i,
    {
        let s = string_from_chars(sorted[i].as_slice());
        let ghost before = strings_view(out@);
        out.push(s);
        assert(strings_view(out@) =~= before.push(sorted@[i as int]@));
        assert(lines_view(sorted@).take(i + 1) =~= lines_view(sorted@).take(i as int).push(
            sorted@[i as int]@,
        ));
        i = i + 1;
    }
    assert(lines_view(sorted@).take(i as int) =~= lines_view(sorted@));
    out
}

// ---------------------------------------------------------------------------
// Content and entries
// ---------------------------------------------------------------------------

/// The entry content: the first paragraph, a blank line, then the prose
/// (either alone when the other is empty).
pub open spec fn content_text(w: Seq<char>) -> Seq<char> {
    let intro = crate::wikitext::first_paragraph_text(w);
    let body = crate::wikitext::clean_prose_text(w);
    if body.len() == 0 {
        intro
    } else if intro.len() == 0 {
        body
    } else {
        intro + seq!['\n', '\n'] + body
    }
}

pub fn extract_content(page: &PageData, _kind: PageKind) -> (res: String)
    ensures
        res@ == content_text(page.wikitext@),
{
    let w = chars_of(page.wikitext.as_str());
    let intro = crate::wikitext::first_paragraph_chars(w.as_slice());
    let body = crate::wikitext::clean_prose_chars(w.as_slice());
    if body.len() == 0 {
        return string_from_chars(intro.as_slice());
    }
    if intro.len() == 0 {
        return string_from_chars(body.as_slice());
    }
    let mut out = intro;
    out.push('\n');
    out.push('\n');
    push_all(&mut out, body.as_slice());
    string_from_chars(out.as_slice())
}

/// The entry comment: the title, and the first category when there is one.
pub open spec fn comment_text(title: Seq<char>, cats: Seq<Seq<char>>) -> Seq<char> {
    if cats.len() > 0 {
        title + " — Category:"@ + cats[0]
    } else {
        title
    }
}

/// `e` is the entry built from `page` with the given uid.
pub open spec fn is_entry_for(e: WorldInfoEntry, page: PageData, uid: u64) -> bool {
    let kind = classification(page.cats(), page.wikitext@);
    &&& e.is_fresh(
        uid,
        page.title@,
        strings_view(e.keys@),
        content_text(page.wikitext@),
        comment_text(page.title@, page.cats()),
        priority_of(kind),
        1,
    )
    &&& are_page_keys(strings_view(e.keys@), page.title@, page.wikitext@, kind)
}

/// Build a single world-info entry from a crawled page.
///
/// The page title is always among the keys, so an entry is always built.
pub fn build_entry_from_page(page: &PageData, uid: u64, include_subpages: bool) -> (res: Option<
    WorldInfoEntry,
>)
    requires
        classify_is_defined(page.cats(), page.wikitext@),
    ensures
        match res {
            Some(e) => is_entry_for(e, *page, uid),
            None => false,
        },
{
    let kind = classify(page);
    let priority = default_priority(kind);
    let position = default_position();
    let keys = extract_keys(page, kind);
    let content = extract_content(page, kind);
    proof {
        let t = underscores_to_spaces(page.title@);
        assert(key_candidates(page.title@, page.wikitext@, kind)[0] == t);
        assert(key_candidates(page.title@, page.wikitext@, kind).contains(t));
        assert(strings_view(keys@).contains(t));
    }
    if keys.len() == 0 {
        let c = chars_of(content.as_str());
        let (a, b) = trim_bounds(c.as_slice(), 0, c.len());
        if a == b {
            return None;
        }
    }
    let comment = if page.categories.len() > 0 {
        let mut v = chars_of(page.title.as_str());
        let sep = chars_of(" — Category:");
        push_all(&mut v, sep.as_slice());
        let cat = chars_of(page.categories[0].as_str());
        push_all(&mut v, cat.as_slice());
        string_from_chars(v.as_slice())
    } else {
        page.title.clone()
    };
    let entry = WorldInfoEntry::new(
        uid,
        page.title.clone(),
        keys,
        content,
        comment,
        priority,
        position,
    );
    if !include_subpages {
        return Some(entry);
    }
    Some(entry)
}

/// Every page can be classified.
pub open spec fn all_classifiable(pages: Seq<PageData>) -> bool {
    forall|i: int| 0 <= i < pages.len() ==> classify_is_defined(#[trigger] pages[i].cats(), pages[i].wikitext@)
}

/// `entries[i]` is built from `pages[i]` with uid `start_uid + i`.
pub open spec fn are_entries_for(entries: Seq<WorldInfoEntry>, pages: Seq<PageData>, start_uid: u64) -> bool {
    &&& entries.len() == pages.len()
    &&& forall|i: int| 0 <= i < pages.len() ==> is_entry_for(#[trigger] entries[i], pages[i], (start_uid + i) as u64)
}

/// Build a Vec<WorldInfoEntry> from a slice of pages, with stable
/// monotonic UIDs starting at `start_uid`.
pub fn build_entries(pages: &[PageData], start_uid: u64, include_subpages: bool) -> (res: Vec<WorldInfoEntry>)
    requires
        start_uid + pages@.len() <= u64::MAX,
        all_classifiable(pages@),
    ensures
        are_entries_for(res@, pages@, start_uid),
{
    let mut out: Vec<WorldInfoEntry> = Vec::new();
    let mut uid = start_uid;
    let mut i: usize = 0;
    while i < pages.len()
        invariant
            i <= pages@.len(),
            start_uid + pages@.len() <= u64::MAX,
            all_classifiable(pages@),
            uid == start_uid + i,
            out@.len() == i,
            forall|k: int| 0 <= k < i ==> is_entry_for(#[trigger] out@[k], pages@[k], (start_uid + k) as u64),
        decreases pages@.len() - i,
    {
        let p = &pages[i];
        assert(classify_is_defined(pages@[i as int].cats(), pages@[i as int].wikitext@));
        if let Some(e) = build_entry_from_page(p, uid, include_subpages) {
            out.push(e);
            uid = uid + 1;
        }
        i = i + 1;
    }
    out
}


/// An entry built from a page always has the page's title, with
/// underscores as spaces, among its keys.
pub proof fn law_title_is_a_key(e: WorldInfoEntry, page: PageData, uid: u64)
    requires
        is_entry_for(e, page, uid),
    ensures
        strings_view(e.keys@).contains(underscores_to_spaces(page.title@)),
{
    let kind = classification(page.cats(), page.wikitext@);
    let t = underscores_to_spaces(page.title@);
    assert(key_candidates(page.title@, page.wikitext@, kind)[0] == t);
    assert(key_candidates(page.title@, page.wikitext@, kind).contains(t));
}

} // verus!
