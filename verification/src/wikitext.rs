//! MediaWiki wikitext processing.
//!
//! The goals here are narrow:
//! 1. Detect and extract a few specific templates' parameters
//!    (`{{Char temp}}`, `{{Pathway_template}}`, `{{Location}}`,
//!    `{{Sealed_Artifact_Template}}`).
//! 2. Clean the prose by stripping navigation, references, image
//!    galleries, interwiki links, and inline template noise.
//! 3. Decode MediaWiki's `[[link|display]]` and `[[link]]` syntax.
//!
//! There is no full MediaWiki parser here. Each piece of markup that the
//! pipeline recognises is a small grammar, given below as a spec function
//! that says where a match starting at a position ends (the leftmost-first,
//! non-overlapping matching of a regular expression), together with an
//! executable scanner proved against it.

use vstd::prelude::*;

use crate::text::{
    char_is_ws, copy_range, is_ws, lemma_skip_ws, lemma_skip_ws_back, matches_at, occurs_at,
    push_all, push_range, same_chars, skip_ws, skip_ws_back, string_from_chars, trim, trimmed,
    chars_of,
};

verus! {

// ---------------------------------------------------------------------------
// Templates: `{{ ... }}` holding text and templates of one level inside
// (the pattern `\{\{([^{}]|\{\{[^{}]*?\}\})*\}\}`).
// ---------------------------------------------------------------------------

pub open spec fn is_brace(c: char) -> bool {
    c == '{' || c == '}'
}

/// Scanning a template body from `i`. `inner` is true inside a nested
/// template. Returns the end of the outer template, or -1 if there is none.
pub open spec fn template_scan(s: Seq<char>, i: int, inner: bool) -> int
    decreases s.len() - i,
{
    if i < 0 || i >= s.len() {
        -1
    } else if !is_brace(s[i]) {
        template_scan(s, i + 1, inner)
    } else if inner {
        if occurs_at(s, seq!['}', '}'], i) {
            template_scan(s, i + 2, false)
        } else {
            -1
        }
    } else if occurs_at(s, seq!['}', '}'], i) {
        i + 2
    } else if occurs_at(s, seq!['{', '{'], i) {
        template_scan(s, i + 2, true)
    } else {
        -1
    }
}

/// End of the template that starts at `p`, or -1 when none starts there.
pub open spec fn template_end(s: Seq<char>, p: int) -> int {
    if occurs_at(s, seq!['{', '{'], p) {
        template_scan(s, p + 2, false)
    } else {
        -1
    }
}

pub proof fn lemma_template_scan_bounds(s: Seq<char>, i: int, inner: bool)
    requires
        0 <= i,
    ensures
        template_scan(s, i, inner) == -1 || (i + 2 <= template_scan(s, i, inner) <= s.len()),
    decreases s.len() - i,
{
    if i < s.len() {
        if !is_brace(s[i]) {
            lemma_template_scan_bounds(s, i + 1, inner);
        } else if inner {
            if occurs_at(s, seq!['}', '}'], i) {
                lemma_template_scan_bounds(s, i + 2, false);
            }
        } else if occurs_at(s, seq!['}', '}'], i) {
        } else if occurs_at(s, seq!['{', '{'], i) {
            lemma_template_scan_bounds(s, i + 2, true);
        }
    }
}

pub proof fn lemma_template_end_bounds(s: Seq<char>, p: int)
    requires
        0 <= p,
    ensures
        template_end(s, p) == -1 || (p + 4 <= template_end(s, p) <= s.len()),
{
    if occurs_at(s, seq!['{', '{'], p) {
        lemma_template_scan_bounds(s, p + 2, false);
    }
}

/// The templates of `s` from `i` on, as `(start, end)` pairs, leftmost first
/// and without overlap.
pub open spec fn template_spans(s: Seq<char>, i: int) -> Seq<(int, int)>
    decreases s.len() - i,
{
    if i < 0 || i >= s.len() {
        Seq::empty()
    } else if template_end(s, i) > i && template_end(s, i) <= s.len() {
        seq![(i, template_end(s, i))] + template_spans(s, template_end(s, i))
    } else {
        template_spans(s, i + 1)
    }
}

/// `s` from `i` on with every template removed (one pass).
pub open spec fn strip_templates_from(s: Seq<char>, i: int) -> Seq<char>
    decreases s.len() - i,
{
    if i < 0 || i >= s.len() {
        Seq::empty()
    } else if template_end(s, i) > i && template_end(s, i) <= s.len() {
        strip_templates_from(s, template_end(s, i))
    } else {
        seq![s[i]] + strip_templates_from(s, i + 1)
    }
}

pub open spec fn strip_templates_once(s: Seq<char>) -> Seq<char> {
    strip_templates_from(s, 0)
}

/// The end of the template that starts at `p`, if one does.
pub fn template_end_at(s: &[char], p: usize) -> (res: Option<usize>)
    ensures
        match res {
            Some(e) => e as int == template_end(s@, p as int),
            None => template_end(s@, p as int) == -1,
        },
{
    let n = s.len();
    if p >= n || n - p < 2 || s[p] != '{' || s[p + 1] != '{' {
        proof {
            if occurs_at(s@, seq!['{', '{'], p as int) {
                assert(s@.subrange(p as int, p + 2)[0] == s@[p as int]);
                assert(s@.subrange(p as int, p + 2)[1] == s@[p + 1]);
            }
        }
        return None;
    }
    assert(s@.subrange(p as int, p + 2) =~= seq!['{', '{']);
    let mut i = p + 2;
    let mut inner = false;
    while i < n
        invariant
            n == s@.len(),
            p + 2 <= i <= n,
            template_scan(s@, i as int, inner) == template_end(s@, p as int),
        decreases n - i,
    {
        let c = s[i];
        if c != '{' && c != '}' {
            i = i + 1;
        } else {
            let close = i + 1 < n && c == '}' && s[i + 1] == '}';
            let open = i + 1 < n && c == '{' && s[i + 1] == '{';
            proof {
                let ghost w = s@.subrange(i as int, i + 2);
                if close {
                    assert(w =~= seq!['}', '}']);
                } else if occurs_at(s@, seq!['}', '}'], i as int) {
                    assert(w[0] == s@[i as int] && w[1] == s@[i + 1]);
                }
                if open {
                    assert(w =~= seq!['{', '{']);
                } else if occurs_at(s@, seq!['{', '{'], i as int) {
                    assert(w[0] == s@[i as int] && w[1] == s@[i + 1]);
                }
            }
            if inner {
                if close {
                    i = i + 2;
                    inner = false;
                } else {
                    return None;
                }
            } else if close {
                return Some(i + 2);
            } else if open {
                i = i + 2;
                inner = true;
            } else {
                return None;
            }
        }
    }
    None
}

// ---------------------------------------------------------------------------
// HTML comments: `<!-- ... -->` (the pattern `(?s)<!--.*?-->`).
// ---------------------------------------------------------------------------

/// End of the first `-->` at or after `i`, or -1.
pub open spec fn comment_close(s: Seq<char>, i: int) -> int
    decreases s.len() - i,
{
    if i < 0 || i + 3 > s.len() {
        -1
    } else if occurs_at(s, seq!['-', '-', '>'], i) {
        i + 3
    } else {
        comment_close(s, i + 1)
    }
}

pub open spec fn comment_end(s: Seq<char>, p: int) -> int {
    if occurs_at(s, seq!['<', '!', '-', '-'], p) {
        comment_close(s, p + 4)
    } else {
        -1
    }
}

pub open spec fn strip_comments_from(s: Seq<char>, i: int) -> Seq<char>
    decreases s.len() - i,
{
    if i < 0 || i >= s.len() {
        Seq::empty()
    } else if comment_end(s, i) > i && comment_end(s, i) <= s.len() {
        strip_comments_from(s, comment_end(s, i))
    } else {
        seq![s[i]] + strip_comments_from(s, i + 1)
    }
}

pub open spec fn strip_comments(s: Seq<char>) -> Seq<char> {
    strip_comments_from(s, 0)
}

fn comment_end_at(s: &[char], p: usize) -> (res: Option<usize>)
    ensures
        match res {
            Some(e) => e as int == comment_end(s@, p as int) && p < e <= s@.len(),
            None => comment_end(s@, p as int) == -1,
        },
{
    let open: Vec<char> = vec!['<', '!', '-', '-'];
    let close: Vec<char> = vec!['-', '-', '>'];
    assert(open@ =~= seq!['<', '!', '-', '-']);
    assert(close@ =~= seq!['-', '-', '>']);
    if !matches_at(s, open.as_slice(), p) {
        return None;
    }
    let n = s.len();
    let mut i = p + 4;
    while i < n && n - i >= 3
        invariant
            n == s@.len(),
            p + 4 <= i <= n,
            close@ == seq!['-', '-', '>'],
            comment_close(s@, i as int) == comment_end(s@, p as int),
        decreases n - i,
    {
        if matches_at(s, close.as_slice(), i) {
            return Some(i + 3);
        }
        i = i + 1;
    }
    None
}

// ---------------------------------------------------------------------------
// Tables: `{| ... \n|}` (the pattern `(?s)\{\|[^|]*?(?:\n.*?)*?\n\|\}`):
// after `{|`, the first `|` or newline must be a newline, and the table
// ends at the first `\n|}` from there on.
// ---------------------------------------------------------------------------

pub open spec fn table_scan(s: Seq<char>, i: int, seen_newline: bool) -> int
    decreases s.len() - i,
{
    if i < 0 || i >= s.len() {
        -1
    } else if seen_newline || s[i] == '\n' {
        if occurs_at(s, seq!['\n', '|', '}'], i) {
            i + 3
        } else {
            table_scan(s, i + 1, true)
        }
    } else if s[i] == '|' {
        -1
    } else {
        table_scan(s, i + 1, false)
    }
}

pub open spec fn table_end(s: Seq<char>, p: int) -> int {
    if occurs_at(s, seq!['{', '|'], p) {
        table_scan(s, p + 2, false)
    } else {
        -1
    }
}

pub open spec fn strip_tables_from(s: Seq<char>, i: int) -> Seq<char>
    decreases s.len() - i,
{
    if i < 0 || i >= s.len() {
        Seq::empty()
    } else if table_end(s, i) > i && table_end(s, i) <= s.len() {
        strip_tables_from(s, table_end(s, i))
    } else {
        seq![s[i]] + strip_tables_from(s, i + 1)
    }
}

pub open spec fn strip_tables(s: Seq<char>) -> Seq<char> {
    strip_tables_from(s, 0)
}

fn table_end_at(s: &[char], p: usize) -> (res: Option<usize>)
    ensures
        match res {
            Some(e) => e as int == table_end(s@, p as int) && p < e <= s@.len(),
            None => table_end(s@, p as int) == -1,
        },
{
    let open: Vec<char> = vec!['{', '|'];
    let close: Vec<char> = vec!['\n', '|', '}'];
    assert(open@ =~= seq!['{', '|']);
    assert(close@ =~= seq!['\n', '|', '}']);
    if !matches_at(s, open.as_slice(), p) {
        return None;
    }
    let n = s.len();
    let mut i = p + 2;
    let mut seen = false;
    while i < n
        invariant
            n == s@.len(),
            p + 2 <= i <= n,
            table_scan(s@, i as int, seen) == table_end(s@, p as int),
            close@ == seq!['\n', '|', '}'],
        decreases n - i,
    {
        if seen || s[i] == '\n' {
            if matches_at(s, close.as_slice(), i) {
                return Some(i + 3);
            }
            seen = true;
        } else if s[i] == '|' {
            return None;
        }
        i = i + 1;
    }
    None
}

// ---------------------------------------------------------------------------
// Removal passes
// ---------------------------------------------------------------------------

/// Which markup a removal pass takes out.
pub enum Markup {
    Template,
    Comment,
    Table,
}

pub open spec fn markup_end(m: Markup, s: Seq<char>, p: int) -> int {
    match m {
        Markup::Template => template_end(s, p),
        Markup::Comment => comment_end(s, p),
        Markup::Table => table_end(s, p),
    }
}

pub open spec fn strip_markup_from(m: Markup, s: Seq<char>, i: int) -> Seq<char> {
    match m {
        Markup::Template => strip_templates_from(s, i),
        Markup::Comment => strip_comments_from(s, i),
        Markup::Table => strip_tables_from(s, i),
    }
}

fn markup_end_at(m: &Markup, s: &[char], p: usize) -> (res: Option<usize>)
    requires
        p < s@.len(),
    ensures
        match res {
            Some(e) => e as int == markup_end(*m, s@, p as int) && p < e <= s@.len(),
            None => !(markup_end(*m, s@, p as int) > p && markup_end(*m, s@, p as int)
                <= s@.len()),
        },
{
    match m {
        Markup::Template => {
            proof {
                lemma_template_end_bounds(s@, p as int);
            }
            template_end_at(s, p)
        },
        Markup::Comment => comment_end_at(s, p),
        Markup::Table => table_end_at(s, p),
    }
}

/// One left-to-right pass that deletes every occurrence of the markup.
fn strip_markup(m: Markup, s: &[char]) -> (res: Vec<char>)
    ensures
        res@ == strip_markup_from(m, s@, 0),
{
    let n = s.len();
    let mut out: Vec<char> = Vec::new();
    let mut i: usize = 0;
    while i < n
        invariant
            n == s@.len(),
            i <= n,
            out@ + strip_markup_from(m, s@, i as int) == strip_markup_from(m, s@, 0),
        decreases n - i,
    {
        match markup_end_at(&m, s, i) {
            Some(e) => {
                i = e;
            },
            None => {
                let ghost before = out@;
                out.push(s[i]);
                assert(out@ + strip_markup_from(m, s@, i + 1) =~= before
                    + strip_markup_from(m, s@, i as int));
                i = i + 1;
            },
        }
    }
    assert(out@ =~= out@ + strip_markup_from(m, s@, i as int));
    out
}

pub fn remove_comments(s: &[char]) -> (res: Vec<char>)
    ensures
        res@ == strip_comments(s@),
{
    strip_markup(Markup::Comment, s)
}

pub fn remove_tables(s: &[char]) -> (res: Vec<char>)
    ensures
        res@ == strip_tables(s@),
{
    strip_markup(Markup::Table, s)
}

pub fn remove_templates_once(s: &[char]) -> (res: Vec<char>)
    ensures
        res@ == strip_templates_once(s@),
{
    strip_markup(Markup::Template, s)
}

} // verus!

verus! {

// ---------------------------------------------------------------------------
// Removing templates until none is left
// ---------------------------------------------------------------------------

pub proof fn lemma_strip_templates_len(s: Seq<char>, i: int)
    requires
        0 <= i <= s.len(),
    ensures
        strip_templates_from(s, i).len() <= s.len() - i,
        strip_templates_from(s, i).len() == s.len() - i ==> strip_templates_from(s, i)
            == s.subrange(i, s.len() as int),
    decreases s.len() - i,
{
    if i < s.len() {
        if template_end(s, i) > i && template_end(s, i) <= s.len() {
            lemma_strip_templates_len(s, template_end(s, i));
        } else {
            lemma_strip_templates_len(s, i + 1);
            assert(seq![s[i]] + s.subrange(i + 1, s.len() as int) =~= s.subrange(
                i,
                s.len() as int,
            ));
        }
    } else {
        assert(s.subrange(i, s.len() as int) =~= Seq::<char>::empty());
    }
}

/// Removes templates pass after pass until a pass changes nothing, so that
/// templates nested at any depth go.
pub open spec fn strip_all_templates(s: Seq<char>) -> Seq<char>
    decreases s.len(),
{
    let t = strip_templates_once(s);
    if t.len() < s.len() {
        strip_all_templates(t)
    } else {
        s
    }
}

/// A pass that leaves the length unchanged leaves the text unchanged.
pub proof fn lemma_strip_once_fixpoint(s: Seq<char>)
    ensures
        strip_templates_once(s).len() <= s.len(),
        strip_templates_once(s).len() == s.len() ==> strip_templates_once(s) == s,
{
    lemma_strip_templates_len(s, 0);
    assert(s.subrange(0, s.len() as int) =~= s);
}

pub fn remove_all_templates(s: &[char]) -> (res: Vec<char>)
    ensures
        res@ == strip_all_templates(s@),
{
    let mut prev = copy_range(s, 0, s.len());
    assert(s@.subrange(0, s@.len() as int) =~= s@);
    loop
        invariant
            strip_all_templates(prev@) == strip_all_templates(s@),
        decreases prev@.len(),
    {
        let next = remove_templates_once(prev.as_slice());
        proof {
            lemma_strip_once_fixpoint(prev@);
        }
        if next.len() >= prev.len() {
            return prev;
        }
        prev = next;
    }
}

// ---------------------------------------------------------------------------
// Links: `[[target]]` and `[[target|shown text]]`
// (the pattern `\[\[([^\[\]\|]+)(?:\|([^\[\]]+))?\]\]`).
// ---------------------------------------------------------------------------

/// First index at or after `i` holding `[`, `]` or `|` (or the length).
pub open spec fn link_target_end(s: Seq<char>, i: int) -> int
    decreases s.len() - i,
{
    if i < 0 || i >= s.len() {
        if i < 0 { 0 } else { s.len() as int }
    } else if s[i] == '[' || s[i] == ']' || s[i] == '|' {
        i
    } else {
        link_target_end(s, i + 1)
    }
}

/// First index at or after `i` holding `[` or `]` (or the length).
pub open spec fn link_text_end(s: Seq<char>, i: int) -> int
    decreases s.len() - i,
{
    if i < 0 || i >= s.len() {
        if i < 0 { 0 } else { s.len() as int }
    } else if s[i] == '[' || s[i] == ']' {
        i
    } else {
        link_text_end(s, i + 1)
    }
}

/// A link at `p`: `(g, h, end)` where the target is `s[p+2..g]`, the shown
/// text (when `h > g`) is `s[g+1..h]`, and the link ends at `end`.
pub open spec fn link_at(s: Seq<char>, p: int) -> Option<(int, int, int)> {
    if !occurs_at(s, seq!['[', '['], p) {
        None
    } else {
        let g = link_target_end(s, p + 2);
        if g <= p + 2 {
            None
        } else if g < s.len() && s[g] == '|' {
            let h = link_text_end(s, g + 1);
            if h > g + 1 && occurs_at(s, seq![']', ']'], h) {
                Some((g, h, h + 2))
            } else {
                None
            }
        } else if occurs_at(s, seq![']', ']'], g) {
            Some((g, g, g + 2))
        } else {
            None
        }
    }
}

/// The part of `t` before the first `c` (all of `t` when there is none).
pub open spec fn before_char(t: Seq<char>, c: char) -> Seq<char>
    decreases t.len(),
{
    if t.len() == 0 {
        t
    } else if t[0] == c {
        Seq::empty()
    } else {
        seq![t[0]] + before_char(t.drop_first(), c)
    }
}

/// Underscores read as spaces.
pub open spec fn underscores_to_spaces(t: Seq<char>) -> Seq<char> {
    t.map_values(|c: char| if c == '_' { ' ' } else { c })
}

/// What a link shows: its text when it has one, else its target without
/// any `#section` or `/subpage` part and with underscores as spaces.
pub open spec fn link_shown(s: Seq<char>, p: int, g: int, h: int) -> Seq<char> {
    if h > g {
        s.subrange(g + 1, h)
    } else {
        underscores_to_spaces(before_char(before_char(s.subrange(p + 2, g), '#'), '/'))
    }
}

pub open spec fn decode_links_from(s: Seq<char>, i: int) -> Seq<char>
    decreases s.len() - i,
{
    if i < 0 || i >= s.len() {
        Seq::empty()
    } else {
        match link_at(s, i) {
            Some((g, h, e)) => if i < e <= s.len() {
                link_shown(s, i, g, h) + decode_links_from(s, e)
            } else {
                seq![s[i]] + decode_links_from(s, i + 1)
            },
            None => seq![s[i]] + decode_links_from(s, i + 1),
        }
    }
}

pub open spec fn decode_links(s: Seq<char>) -> Seq<char> {
    decode_links_from(s, 0)
}

fn find_target_end(s: &[char], i: usize) -> (res: usize)
    requires
        i <= s@.len(),
    ensures
        res as int == link_target_end(s@, i as int),
        i <= res <= s@.len(),
{
    let mut k = i;
    while k < s.len() && s[k] != '[' && s[k] != ']' && s[k] != '|'
        invariant
            i <= k <= s@.len(),
            link_target_end(s@, k as int) == link_target_end(s@, i as int),
        decreases s@.len() - k,
    {
        k = k + 1;
    }
    k
}

fn find_text_end(s: &[char], i: usize) -> (res: usize)
    requires
        i <= s@.len(),
    ensures
        res as int == link_text_end(s@, i as int),
        i <= res <= s@.len(),
{
    let mut k = i;
    while k < s.len() && s[k] != '[' && s[k] != ']'
        invariant
            i <= k <= s@.len(),
            link_text_end(s@, k as int) == link_text_end(s@, i as int),
        decreases s@.len() - k,
    {
        k = k + 1;
    }
    k
}

fn pair_at(s: &[char], i: usize, a: char, b: char) -> (res: bool)
    ensures
        res == occurs_at(s@, seq![a, b], i as int),
        res ==> i + 2 <= s@.len(),
{
    if i < s.len() && s.len() - i >= 2 && s[i] == a && s[i + 1] == b {
        assert(s@.subrange(i as int, i + 2) =~= seq![a, b]);
        true
    } else {
        proof {
            if occurs_at(s@, seq![a, b], i as int) {
                assert(s@.subrange(i as int, i + 2)[0] == s@[i as int]);
                assert(s@.subrange(i as int, i + 2)[1] == s@[i + 1]);
            }
        }
        false
    }
}

fn link_at_exec(s: &[char], p: usize) -> (res: Option<(usize, usize, usize)>)
    requires
        p < s@.len(),
    ensures
        match res {
            Some((g, h, e)) => link_at(s@, p as int) == Some((g as int, h as int, e as int)) && p < e
                <= s@.len() && p + 2 < g <= h && (h > g ==> g + 1 < h) && h + 2 == e,
            None => link_at(s@, p as int) is None,
        },
{
    let opens = pair_at(s, p, '[', '[');
    if !opens {
        return None;
    }
    assert(p + 2 <= s.len());
    let g = find_target_end(s, p + 2);
    if g <= p + 2 {
        return None;
    }
    if g < s.len() && s[g] == '|' {
        let h = find_text_end(s, g + 1);
        if h > g + 1 && pair_at(s, h, ']', ']') {
            Some((g, h, h + 2))
        } else {
            None
        }
    } else if pair_at(s, g, ']', ']') {
        Some((g, g, g + 2))
    } else {
        None
    }
}

/// Appends `before_char(s[lo..hi], c)` and returns where it stops.
fn before_char_end(s: &[char], lo: usize, hi: usize, c: char) -> (res: usize)
    requires
        lo <= hi <= s@.len(),
    ensures
        lo <= res <= hi,
        s@.subrange(lo as int, res as int) == before_char(s@.subrange(lo as int, hi as int), c),
{
    let mut i = lo;
    while i < hi && s[i] != c
        invariant
            lo <= i <= hi <= s@.len(),
            forall|m: int| lo <= m < i ==> s@[m] != c,
        decreases hi - i,
    {
        i = i + 1;
    }
    proof {
        let t = s@.subrange(lo as int, hi as int);
        assert forall|m: int| 0 <= m < i - lo implies t[m] != c by {
            assert(t[m] == s@[lo + m]);
        }
        if i < hi {
            assert(t[i - lo] == s@[i as int]);
        }
        lemma_before_char(t, c, (i - lo) as int);
    }
    assert(s@.subrange(lo as int, hi as int).subrange(0, (i - lo) as int) =~= s@.subrange(
        lo as int,
        i as int,
    ));
    i
}

/// `before_char(t, c)` is the prefix of `t` up to the first `c`.
pub proof fn lemma_before_char(t: Seq<char>, c: char, k: int)
    requires
        0 <= k <= t.len(),
        forall|m: int| 0 <= m < k ==> t[m] != c,
        k == t.len() || t[k] == c,
    ensures
        before_char(t, c) == t.subrange(0, k),
    decreases t.len(),
{
    if t.len() == 0 {
        assert(t.subrange(0, k) =~= t);
    } else if t[0] == c {
        assert(t.subrange(0, k) =~= Seq::<char>::empty());
    } else {
        let d = t.drop_first();
        assert forall|m: int| 0 <= m < k - 1 implies d[m] != c by {
            assert(d[m] == t[m + 1]);
        }
        if k < t.len() {
            assert(d[k - 1] == t[k]);
        }
        lemma_before_char(d, c, k - 1);
        assert(seq![t[0]] + d.subrange(0, k - 1) =~= t.subrange(0, k));
    }
}

/// Appends what the link at `p` shows.
fn push_link_shown(out: &mut Vec<char>, s: &[char], p: usize, g: usize, h: usize)
    requires
        p + 2 < g <= h <= s@.len(),
        h > g ==> g + 1 < h,
    ensures
        final(out)@ == old(out)@ + link_shown(s@, p as int, g as int, h as int),
{
    if h > g {
        push_range(out, s, g + 1, h);
    } else {
        let a = before_char_end(s, p + 2, g, '#');
        let b = before_char_end(s, p + 2, a, '/');
        let ghost start = out@;
        let ghost raw = s@.subrange(p + 2, g as int);
        let mut i = p + 2;
        while i < b
            invariant
                p + 2 <= i <= b <= a <= g <= s@.len(),
                out@ == start + underscores_to_spaces(s@.subrange(p + 2, i as int)),
            decreases b - i,
        {
            let c = s[i];
            out.push(if c == '_' { ' ' } else { c });
            assert(underscores_to_spaces(s@.subrange(p + 2, i + 1)) =~= underscores_to_spaces(
                s@.subrange(p + 2, i as int),
            ).push(if c == '_' { ' ' } else { c }));
            i = i + 1;
        }
        assert(before_char(raw, '#') == s@.subrange(p + 2, a as int));
        assert(before_char(before_char(raw, '#'), '/') == s@.subrange(p + 2, b as int));
    }
}

/// Each link `[[target|text]]` shown as its text, and `[[target]]` as its
/// target (up to a `#` or `/`, underscores as spaces).
pub fn decode_wiki_links(s: &str) -> (res: String)
    ensures
        res@ == decode_links(s@),
{
    let c = chars_of(s);
    let d = decode_links_exec(c.as_slice());
    string_from_chars(d.as_slice())
}

pub fn decode_links_exec(s: &[char]) -> (res: Vec<char>)
    ensures
        res@ == decode_links(s@),
{
    let n = s.len();
    let mut out: Vec<char> = Vec::new();
    let mut i: usize = 0;
    while i < n
        invariant
            n == s@.len(),
            i <= n,
            out@ + decode_links_from(s@, i as int) == decode_links(s@),
        decreases n - i,
    {
        let ghost before = out@;
        match link_at_exec(s, i) {
            Some((g, h, e)) => {
                push_link_shown(&mut out, s, i, g, h);
                assert(out@ + decode_links_from(s@, e as int) =~= before + decode_links_from(
                    s@,
                    i as int,
                ));
                i = e;
            },
            None => {
                out.push(s[i]);
                assert(out@ + decode_links_from(s@, i + 1) =~= before + decode_links_from(
                    s@,
                    i as int,
                ));
                i = i + 1;
            },
        }
    }
    assert(out@ =~= out@ + decode_links_from(s@, i as int));
    out
}

} // verus!

verus! {

// ---------------------------------------------------------------------------
// Bold and italic: `'''text'''` and `''text''` on one line
// (the pattern `'''(.+?)'''|''(.+?)''`, replaced by the text).
// ---------------------------------------------------------------------------

/// The closing quotes: three when `bold`, else two.
pub open spec fn quote_run(bold: bool) -> Seq<char> {
    if bold {
        seq!['\'', '\'', '\'']
    } else {
        seq!['\'', '\'']
    }
}

/// First index at or after `j` where the closing quotes stand, reached
/// without crossing a newline; -1 when there is none.
pub open spec fn quote_close(s: Seq<char>, j: int, bold: bool) -> int
    decreases s.len() - j,
{
    if j < 0 || j > s.len() {
        -1
    } else if occurs_at(s, quote_run(bold), j) {
        j
    } else if j < s.len() && s[j] != '\n' {
        quote_close(s, j + 1, bold)
    } else {
        -1
    }
}

/// Emphasis at `p` with the given number of quotes: `(content_end, end)`,
/// the content starting right after the opening quotes.
pub open spec fn emphasis_with(s: Seq<char>, p: int, bold: bool) -> Option<(int, int)> {
    let q = quote_run(bold).len() as int;
    if occurs_at(s, quote_run(bold), p) && p + q < s.len() && s[p + q] != '\n' {
        let c = quote_close(s, p + q + 1, bold);
        if c >= 0 {
            Some((c, c + q))
        } else {
            None
        }
    } else {
        None
    }
}

/// Emphasis at `p`: `(content_start, content_end, end)`; bold is tried first.
pub open spec fn emphasis_at(s: Seq<char>, p: int) -> Option<(int, int, int)> {
    match emphasis_with(s, p, true) {
        Some((c, e)) => Some((p + 3, c, e)),
        None => match emphasis_with(s, p, false) {
            Some((c, e)) => Some((p + 2, c, e)),
            None => None,
        },
    }
}

pub open spec fn unemphasize_from(s: Seq<char>, i: int) -> Seq<char>
    decreases s.len() - i,
{
    if i < 0 || i >= s.len() {
        Seq::empty()
    } else {
        match emphasis_at(s, i) {
            Some((a, b, e)) => if i < e <= s.len() && 0 <= a <= b <= e {
                s.subrange(a, b) + unemphasize_from(s, e)
            } else {
                seq![s[i]] + unemphasize_from(s, i + 1)
            },
            None => seq![s[i]] + unemphasize_from(s, i + 1),
        }
    }
}

pub open spec fn unemphasize(s: Seq<char>) -> Seq<char> {
    unemphasize_from(s, 0)
}

fn emphasis_with_exec(s: &[char], p: usize, bold: bool) -> (res: Option<(usize, usize)>)
    requires
        p < s@.len(),
    ensures
        match res {
            Some((c, e)) => emphasis_with(s@, p as int, bold) == Some((c as int, e as int)) && p
                + quote_run(bold).len() < c && c + quote_run(bold).len() == e && e <= s@.len(),
            None => emphasis_with(s@, p as int, bold) is None,
        },
{
    let q: usize = if bold { 3 } else { 2 };
    let run: Vec<char> = if bold { vec!['\'', '\'', '\''] } else { vec!['\'', '\''] };
    assert(run@ =~= quote_run(bold));
    let opens = matches_at(s, run.as_slice(), p);
    if !opens {
        return None;
    }
    assert(p + q <= s.len());
    if p + q >= s.len() || s[p + q] == '\n' {
        return None;
    }
    let mut j = p + q + 1;
    while j <= s.len()
        invariant
            p + q + 1 <= j <= s@.len() + 1,
            q == quote_run(bold).len(),
            run@ == quote_run(bold),
            quote_close(s@, j as int, bold) == quote_close(s@, p + q + 1, bold),
            occurs_at(s@, quote_run(bold), p as int),
            p + q < s@.len(),
            s@[p + q] != '\n',
        decreases s@.len() + 1 - j,
    {
        if matches_at(s, run.as_slice(), j) {
            assert(j + q <= s.len());
            assert(quote_close(s@, j as int, bold) == j);
            assert(quote_run(bold).len() == q);
            assert(occurs_at(s@, quote_run(bold), p as int));
            assert(emphasis_with(s@, p as int, bold) == Some((j as int, j + q)));
            return Some((j, j + q));
        }
        if j < s.len() && s[j] != '\n' {
            j = j + 1;
        } else {
            return None;
        }
    }
    None
}

fn emphasis_at_exec(s: &[char], p: usize) -> (res: Option<(usize, usize, usize)>)
    requires
        p < s@.len(),
    ensures
        match res {
            Some((a, b, e)) => emphasis_at(s@, p as int) == Some((a as int, b as int, e as int))
                && p < a <= b <= e <= s@.len(),
            None => emphasis_at(s@, p as int) is None,
        },
{
    match emphasis_with_exec(s, p, true) {
        Some((c, e)) => Some((p + 3, c, e)),
        None => match emphasis_with_exec(s, p, false) {
            Some((c, e)) => Some((p + 2, c, e)),
            None => None,
        },
    }
}

pub fn unemphasize_exec(s: &[char]) -> (res: Vec<char>)
    ensures
        res@ == unemphasize(s@),
{
    let n = s.len();
    let mut out: Vec<char> = Vec::new();
    let mut i: usize = 0;
    while i < n
        invariant
            n == s@.len(),
            i <= n,
            out@ + unemphasize_from(s@, i as int) == unemphasize(s@),
        decreases n - i,
    {
        let ghost before = out@;
        match emphasis_at_exec(s, i) {
            Some((a, b, e)) => {
                push_range(&mut out, s, a, b);
                assert(out@ + unemphasize_from(s@, e as int) =~= before + unemphasize_from(
                    s@,
                    i as int,
                ));
                i = e;
            },
            None => {
                out.push(s[i]);
                assert(out@ + unemphasize_from(s@, i + 1) =~= before + unemphasize_from(
                    s@,
                    i as int,
                ));
                i = i + 1;
            },
        }
    }
    assert(out@ =~= out@ + unemphasize_from(s@, i as int));
    out
}

// ---------------------------------------------------------------------------
// List markers: at the start of a line, whitespace, then one or more of
// `*#:;`, then whitespace (the pattern `(?m)^\s*[\*#:;]+\s*`, removed).
// ---------------------------------------------------------------------------

pub open spec fn is_list_mark(c: char) -> bool {
    c == '*' || c == '#' || c == ':' || c == ';'
}

pub open spec fn skip_list_marks(s: Seq<char>, i: int) -> int
    decreases s.len() - i,
{
    if i < 0 || i >= s.len() {
        if i < 0 { 0 } else { s.len() as int }
    } else if is_list_mark(s[i]) {
        skip_list_marks(s, i + 1)
    } else {
        i
    }
}

pub open spec fn is_line_start(s: Seq<char>, p: int) -> bool {
    p == 0 || (0 < p <= s.len() && s[p - 1] == '\n')
}

/// End of the list marker that starts at `p`, or -1.
pub open spec fn list_mark_end(s: Seq<char>, p: int) -> int {
    if 0 <= p && is_line_start(s, p) {
        let a = skip_ws(s, p);
        if a < s.len() && is_list_mark(s[a]) {
            skip_ws(s, skip_list_marks(s, a))
        } else {
            -1
        }
    } else {
        -1
    }
}

pub open spec fn strip_list_marks_from(s: Seq<char>, i: int) -> Seq<char>
    decreases s.len() - i,
{
    if i < 0 || i >= s.len() {
        Seq::empty()
    } else if list_mark_end(s, i) > i && list_mark_end(s, i) <= s.len() {
        strip_list_marks_from(s, list_mark_end(s, i))
    } else {
        seq![s[i]] + strip_list_marks_from(s, i + 1)
    }
}

pub open spec fn strip_list_marks(s: Seq<char>) -> Seq<char> {
    strip_list_marks_from(s, 0)
}

pub fn skip_ws_exec(s: &[char], i: usize) -> (res: usize)
    requires
        i <= s@.len(),
    ensures
        res as int == skip_ws(s@, i as int),
        i <= res <= s@.len(),
{
    let mut k = i;
    while k < s.len() && char_is_ws(s[k])
        invariant
            i <= k <= s@.len(),
            skip_ws(s@, k as int) == skip_ws(s@, i as int),
        decreases s@.len() - k,
    {
        k = k + 1;
    }
    k
}

fn list_mark_end_at(s: &[char], p: usize) -> (res: Option<usize>)
    requires
        p < s@.len(),
    ensures
        match res {
            Some(e) => e as int == list_mark_end(s@, p as int) && p < e <= s@.len(),
            None => !(list_mark_end(s@, p as int) > p && list_mark_end(s@, p as int) <= s@.len()),
        },
{
    if !(p == 0 || s[p - 1] == '\n') {
        return None;
    }
    let a = skip_ws_exec(s, p);
    if a < s.len() && (s[a] == '*' || s[a] == '#' || s[a] == ':' || s[a] == ';') {
        let mut b = a;
        while b < s.len() && (s[b] == '*' || s[b] == '#' || s[b] == ':' || s[b] == ';')
            invariant
                a <= b <= s@.len(),
                skip_list_marks(s@, b as int) == skip_list_marks(s@, a as int),
            decreases s@.len() - b,
        {
            b = b + 1;
        }
        let e = skip_ws_exec(s, b);
        Some(e)
    } else {
        None
    }
}

pub fn strip_list_marks_exec(s: &[char]) -> (res: Vec<char>)
    ensures
        res@ == strip_list_marks(s@),
{
    let n = s.len();
    let mut out: Vec<char> = Vec::new();
    let mut i: usize = 0;
    while i < n
        invariant
            n == s@.len(),
            i <= n,
            out@ + strip_list_marks_from(s@, i as int) == strip_list_marks(s@),
        decreases n - i,
    {
        match list_mark_end_at(s, i) {
            Some(e) => {
                i = e;
            },
            None => {
                let ghost before = out@;
                out.push(s[i]);
                assert(out@ + strip_list_marks_from(s@, i + 1) =~= before + strip_list_marks_from(
                    s@,
                    i as int,
                ));
                i = i + 1;
            },
        }
    }
    assert(out@ =~= out@ + strip_list_marks_from(s@, i as int));
    out
}

// ---------------------------------------------------------------------------
// Whitespace normalisation
// ---------------------------------------------------------------------------

/// Runs of spaces and tabs become one space (`[ \t]+` replaced by " ").
pub open spec fn squeeze_spaces_from(s: Seq<char>, i: int, in_run: bool) -> Seq<char>
    decreases s.len() - i,
{
    if i < 0 || i >= s.len() {
        Seq::empty()
    } else if s[i] == ' ' || s[i] == '\t' {
        if in_run {
            squeeze_spaces_from(s, i + 1, true)
        } else {
            seq![' '] + squeeze_spaces_from(s, i + 1, true)
        }
    } else {
        seq![s[i]] + squeeze_spaces_from(s, i + 1, false)
    }
}

pub open spec fn squeeze_spaces(s: Seq<char>) -> Seq<char> {
    squeeze_spaces_from(s, 0, false)
}

/// End of the run of newlines that starts at `i`.
pub open spec fn newline_run_end(s: Seq<char>, i: int) -> int
    decreases s.len() - i,
{
    if i < 0 || i >= s.len() {
        if i < 0 { 0 } else { s.len() as int }
    } else if s[i] == '\n' {
        newline_run_end(s, i + 1)
    } else {
        i
    }
}

/// Three or more newlines in a row become two (`\n{3,}` replaced by "\n\n").
pub open spec fn squeeze_blank_lines_from(s: Seq<char>, i: int) -> Seq<char>
    decreases s.len() - i,
{
    if i < 0 || i >= s.len() {
        Seq::empty()
    } else if s[i] == '\n' && newline_run_end(s, i) - i >= 3 && newline_run_end(s, i) <= s.len() {
        seq!['\n', '\n'] + squeeze_blank_lines_from(s, newline_run_end(s, i))
    } else {
        seq![s[i]] + squeeze_blank_lines_from(s, i + 1)
    }
}

pub open spec fn squeeze_blank_lines(s: Seq<char>) -> Seq<char> {
    squeeze_blank_lines_from(s, 0)
}

/// Squeezed spaces and blank lines, then trimmed.
pub open spec fn collapse_ws(s: Seq<char>) -> Seq<char> {
    trim(squeeze_blank_lines(squeeze_spaces(s)))
}

/// No tab in `s` from `i` on.
pub open spec fn no_tab_from(s: Seq<char>, i: int) -> bool {
    forall|k: int| i <= k < s.len() ==> #[trigger] s[k] != '\t'
}

/// No two spaces in a row in `s` from `i` on.
pub open spec fn no_double_space_from(s: Seq<char>, i: int) -> bool {
    forall|k: int| i <= k < s.len() - 1 ==> !(#[trigger] s[k] == ' ' && s[k + 1] == ' ')
}

/// No three newlines in a row in `s` from `i` on.
pub open spec fn no_triple_newline_from(s: Seq<char>, i: int) -> bool {
    forall|k: int|
        i <= k < s.len() - 2 ==> !(#[trigger] s[k] == '\n' && s[k + 1] == '\n' && s[k + 2] == '\n')
}

proof fn lemma_squeeze_spaces_tidy(s: Seq<char>, i: int, in_run: bool)
    requires
        0 <= i,
    ensures
        no_tab_from(squeeze_spaces_from(s, i, in_run), 0),
        no_double_space_from(squeeze_spaces_from(s, i, in_run), 0),
        in_run && squeeze_spaces_from(s, i, in_run).len() > 0 ==> squeeze_spaces_from(s, i, in_run)[0]
            != ' ',
    decreases s.len() - i,
{
    if i < s.len() {
        let r = squeeze_spaces_from(s, i, in_run);
        if s[i] == ' ' || s[i] == '\t' {
            lemma_squeeze_spaces_tidy(s, i + 1, true);
            let rest = squeeze_spaces_from(s, i + 1, true);
            if !in_run {
                assert forall|k: int| 0 <= k < r.len() implies #[trigger] r[k] != '\t' by {
                    if k > 0 {
                        assert(r[k] == rest[k - 1]);
                    }
                }
                assert forall|k: int| 0 <= k < r.len() - 1 implies !(#[trigger] r[k] == ' ' && r[k
                    + 1] == ' ') by {
                    if k > 0 {
                        assert(r[k] == rest[k - 1]);
                        assert(r[k + 1] == rest[k]);
                    } else {
                        assert(r[1] == rest[0]);
                    }
                }
            }
        } else {
            lemma_squeeze_spaces_tidy(s, i + 1, false);
            let rest = squeeze_spaces_from(s, i + 1, false);
            assert forall|k: int| 0 <= k < r.len() implies #[trigger] r[k] != '\t' by {
                if k > 0 {
                    assert(r[k] == rest[k - 1]);
                }
            }
            assert forall|k: int| 0 <= k < r.len() - 1 implies !(#[trigger] r[k] == ' ' && r[k + 1]
                == ' ') by {
                if k > 0 {
                    assert(r[k] == rest[k - 1]);
                    assert(r[k + 1] == rest[k]);
                }
            }
        }
    }
}

proof fn lemma_squeeze_spaces_identity(s: Seq<char>, i: int, in_run: bool)
    requires
        0 <= i <= s.len(),
        no_tab_from(s, i),
        no_double_space_from(s, i),
        in_run && i < s.len() ==> s[i] != ' ',
    ensures
        squeeze_spaces_from(s, i, in_run) == s.skip(i),
    decreases s.len() - i,
{
    if i < s.len() {
        assert(s[i] != '\t');
        if i + 1 < s.len() && s[i] == ' ' {
            assert(!(s[i] == ' ' && s[i + 1] == ' '));
        }
        lemma_squeeze_spaces_identity(s, i + 1, s[i] == ' ');
        assert(s.skip(i) =~= seq![s[i]] + s.skip(i + 1));
    } else {
        assert(s.skip(i) =~= Seq::<char>::empty());
    }
}

proof fn lemma_newline_run(s: Seq<char>, i: int)
    requires
        0 <= i <= s.len(),
    ensures
        i <= newline_run_end(s, i) <= s.len(),
        forall|k: int| i <= k < newline_run_end(s, i) ==> #[trigger] s[k] == '\n',
        newline_run_end(s, i) < s.len() ==> s[newline_run_end(s, i)] != '\n',
    decreases s.len() - i,
{
    if i < s.len() && s[i] == '\n' {
        lemma_newline_run(s, i + 1);
    }
}

proof fn lemma_squeeze_blank_tidy(y: Seq<char>, i: int)
    requires
        0 <= i <= y.len(),
    ensures
        ({
            let x = squeeze_blank_lines_from(y, i);
            &&& no_triple_newline_from(x, 0)
            &&& no_tab_from(y, i) ==> no_tab_from(x, 0)
            &&& no_double_space_from(y, i) ==> no_double_space_from(x, 0)
            &&& x.len() > 0 ==> i < y.len() && x[0] == y[i]
            &&& newline_run_end(y, i) - i < 2 ==> !(x.len() >= 2 && x[0] == '\n' && x[1] == '\n')
            &&& newline_run_end(y, i) == i ==> !(x.len() >= 1 && x[0] == '\n')
        }),
    decreases y.len() - i,
{
    let x = squeeze_blank_lines_from(y, i);
    lemma_newline_run(y, i);
    if i < y.len() {
        let e = newline_run_end(y, i);
        if y[i] == '\n' && e - i >= 3 && e <= y.len() {
            lemma_squeeze_blank_tidy(y, e);
            let rest = squeeze_blank_lines_from(y, e);
            lemma_newline_run(y, e);
            assert(newline_run_end(y, e) == e);
            assert(x =~= seq!['\n', '\n'] + rest);
            assert forall|k: int| 0 <= k < x.len() - 2 implies !(#[trigger] x[k] == '\n' && x[k + 1]
                == '\n' && x[k + 2] == '\n') by {
                if k >= 2 {
                    assert(x[k] == rest[k - 2] && x[k + 1] == rest[k - 1] && x[k + 2] == rest[k]);
                } else if k == 1 {
                    assert(x[k + 1] == rest[0]);
                } else {
                    assert(x[2] == rest[0]);
                }
            }
            if no_tab_from(y, i) {
                assert forall|k: int| e <= k < y.len() implies #[trigger] y[k] != '\t' by {}
                assert forall|k: int| 0 <= k < x.len() implies #[trigger] x[k] != '\t' by {
                    if k >= 2 {
                        assert(x[k] == rest[k - 2]);
                    }
                }
            }
            if no_double_space_from(y, i) {
                assert forall|k: int| e <= k < y.len() - 1 implies !(#[trigger] y[k] == ' ' && y[k
                    + 1] == ' ') by {}
                assert forall|k: int| 0 <= k < x.len() - 1 implies !(#[trigger] x[k] == ' ' && x[k
                    + 1] == ' ') by {
                    if k >= 2 {
                        assert(x[k] == rest[k - 2] && x[k + 1] == rest[k - 1]);
                    }
                }
            }
        } else {
            lemma_squeeze_blank_tidy(y, i + 1);
            let rest = squeeze_blank_lines_from(y, i + 1);
            assert(x =~= seq![y[i]] + rest);
            lemma_newline_run(y, i + 1);
            if y[i] == '\n' {
                assert(newline_run_end(y, i) == newline_run_end(y, i + 1));
            }
            assert forall|k: int| 0 <= k < x.len() - 2 implies !(#[trigger] x[k] == '\n' && x[k + 1]
                == '\n' && x[k + 2] == '\n') by {
                if k >= 1 {
                    assert(x[k] == rest[k - 1] && x[k + 1] == rest[k] && x[k + 2] == rest[k + 1]);
                } else {
                    assert(x[1] == rest[0] && x[2] == rest[1]);
                }
            }
            if no_tab_from(y, i) {
                assert forall|k: int| i + 1 <= k < y.len() implies #[trigger] y[k] != '\t' by {}
                assert forall|k: int| 0 <= k < x.len() implies #[trigger] x[k] != '\t' by {
                    if k >= 1 {
                        assert(x[k] == rest[k - 1]);
                    }
                }
            }
            if no_double_space_from(y, i) {
                assert forall|k: int| i + 1 <= k < y.len() - 1 implies !(#[trigger] y[k] == ' ' && y[k
                    + 1] == ' ') by {}
                assert forall|k: int| 0 <= k < x.len() - 1 implies !(#[trigger] x[k] == ' ' && x[k
                    + 1] == ' ') by {
                    if k >= 1 {
                        assert(x[k] == rest[k - 1] && x[k + 1] == rest[k]);
                    } else {
                        assert(x[1] == rest[0]);
                        assert(x[0] == y[i]);
                        if y[i] == ' ' {
                            assert(!(y[i] == ' ' && y[i + 1] == ' '));
                        }
                    }
                }
            }
        }
    }
}

proof fn lemma_squeeze_blank_identity(y: Seq<char>, i: int)
    requires
        0 <= i <= y.len(),
        no_triple_newline_from(y, i),
    ensures
        squeeze_blank_lines_from(y, i) == y.skip(i),
    decreases y.len() - i,
{
    lemma_newline_run(y, i);
    if i < y.len() {
        let e = newline_run_end(y, i);
        if y[i] == '\n' && e - i >= 3 {
            assert(y[i + 1] == '\n' && y[i + 2] == '\n');
            assert(!(y[i] == '\n' && y[i + 1] == '\n' && y[i + 2] == '\n'));
        }
        lemma_squeeze_blank_identity(y, i + 1);
        assert(y.skip(i) =~= seq![y[i]] + y.skip(i + 1));
    } else {
        assert(y.skip(i) =~= Seq::<char>::empty());
    }
}

/// Text in the normal form that collapsing whitespace gives: no tab, no
/// two spaces in a row, no three line breaks in a row, and no whitespace at
/// either end.
pub open spec fn ws_normal(t: Seq<char>) -> bool {
    &&& no_tab_from(t, 0)
    &&& no_double_space_from(t, 0)
    &&& no_triple_newline_from(t, 0)
    &&& t.len() > 0 ==> !is_ws(t[0]) && !is_ws(t[t.len() - 1])
}

/// Collapsed whitespace is in normal form.
pub proof fn law_collapse_ws_normal(s: Seq<char>)
    ensures
        ws_normal(collapse_ws(s)),
{
    let y = squeeze_spaces(s);
    lemma_squeeze_spaces_tidy(s, 0, false);
    let x = squeeze_blank_lines(y);
    lemma_squeeze_blank_tidy(y, 0);
    let t = trim(x);
    crate::text::lemma_skip_ws(x, 0);
    crate::text::lemma_skip_ws_back(x, x.len() as int);
    crate::text::lemma_trim_ends(x);
    let a = skip_ws(x, 0);
    let b = skip_ws_back(x, x.len() as int);
    if a < b {
        assert(t =~= x.subrange(a, b));
        assert forall|k: int| 0 <= k < t.len() implies #[trigger] t[k] != '\t' by {
            assert(t[k] == x[a + k]);
        }
        assert forall|k: int| 0 <= k < t.len() - 1 implies !(#[trigger] t[k] == ' ' && t[k + 1]
            == ' ') by {
            assert(t[k] == x[a + k] && t[k + 1] == x[a + k + 1]);
        }
        assert forall|k: int| 0 <= k < t.len() - 2 implies !(#[trigger] t[k] == '\n' && t[k + 1]
            == '\n' && t[k + 2] == '\n') by {
            assert(t[k] == x[a + k] && t[k + 1] == x[a + k + 1] && t[k + 2] == x[a + k + 2]);
        }
    }
}

/// Collapsing whitespace a second time changes nothing.
pub proof fn law_collapse_ws_idempotent(s: Seq<char>)
    ensures
        collapse_ws(collapse_ws(s)) == collapse_ws(s),
{
    let t = collapse_ws(s);
    law_collapse_ws_normal(s);
    lemma_squeeze_spaces_identity(t, 0, false);
    assert(t.skip(0) =~= t);
    lemma_squeeze_blank_identity(t, 0);
    crate::text::lemma_trim_ends(t);
    crate::text::lemma_skip_ws(t, 0);
    crate::text::lemma_skip_ws_back(t, t.len() as int);
    if t.len() > 0 {
        assert(skip_ws(t, 0) == 0);
        assert(skip_ws_back(t, t.len() as int) == t.len());
    }
    assert(trim(t) =~= t);
}

fn squeeze_spaces_exec(s: &[char]) -> (res: Vec<char>)
    ensures
        res@ == squeeze_spaces(s@),
{
    let n = s.len();
    let mut out: Vec<char> = Vec::new();
    let mut i: usize = 0;
    let mut in_run = false;
    while i < n
        invariant
            n == s@.len(),
            i <= n,
            out@ + squeeze_spaces_from(s@, i as int, in_run) == squeeze_spaces(s@),
        decreases n - i,
    {
        let ghost before = out@;
        let c = s[i];
        if c == ' ' || c == '\t' {
            if !in_run {
                out.push(' ');
            }
            in_run = true;
        } else {
            out.push(c);
            in_run = false;
        }
        i = i + 1;
    }
    assert(out@ =~= out@ + squeeze_spaces_from(s@, i as int, in_run));
    out
}

fn squeeze_blank_lines_exec(s: &[char]) -> (res: Vec<char>)
    ensures
        res@ == squeeze_blank_lines(s@),
{
    let n = s.len();
    let mut out: Vec<char> = Vec::new();
    let mut i: usize = 0;
    while i < n
        invariant
            n == s@.len(),
            i <= n,
            out@ + squeeze_blank_lines_from(s@, i as int) == squeeze_blank_lines(s@),
        decreases n - i,
    {
        let ghost before = out@;
        if s[i] == '\n' {
            let mut r = i;
            while r < n && s[r] == '\n'
                invariant
                    n == s@.len(),
                    i <= r <= n,
                    newline_run_end(s@, r as int) == newline_run_end(s@, i as int),
                decreases n - r,
            {
                r = r + 1;
            }
            if r - i >= 3 {
                out.push('\n');
                out.push('\n');
                assert(out@ + squeeze_blank_lines_from(s@, r as int) =~= before
                    + squeeze_blank_lines_from(s@, i as int));
                i = r;
            } else {
                out.push('\n');
                assert(out@ + squeeze_blank_lines_from(s@, i + 1) =~= before
                    + squeeze_blank_lines_from(s@, i as int));
                i = i + 1;
            }
        } else {
            out.push(s[i]);
            assert(out@ + squeeze_blank_lines_from(s@, i + 1) =~= before
                + squeeze_blank_lines_from(s@, i as int));
            i = i + 1;
        }
    }
    assert(out@ =~= out@ + squeeze_blank_lines_from(s@, i as int));
    out
}

/// `collapse_ws` as a new vector.
pub fn collapse_ws_exec(s: &[char]) -> (res: Vec<char>)
    ensures
        res@ == collapse_ws(s@),
{
    let a = squeeze_spaces_exec(s);
    let b = squeeze_blank_lines_exec(a.as_slice());
    trimmed(b.as_slice())
}

// ---------------------------------------------------------------------------
// Cleaning a section body
// ---------------------------------------------------------------------------

/// Templates, tables, link markup, emphasis and list markers removed, then
/// whitespace normalised.
pub open spec fn clean_body(s: Seq<char>) -> Seq<char> {
    collapse_ws(
        strip_list_marks(unemphasize(decode_links(strip_tables(strip_all_templates(s))))),
    )
}

pub fn clean_body_exec(s: &[char]) -> (res: Vec<char>)
    ensures
        res@ == clean_body(s@),
{
    let t1 = remove_all_templates(s);
    let t2 = remove_tables(t1.as_slice());
    let t3 = decode_links_exec(t2.as_slice());
    let t4 = unemphasize_exec(t3.as_slice());
    let t5 = strip_list_marks_exec(t4.as_slice());
    collapse_ws_exec(t5.as_slice())
}

} // verus!

verus! {

// ---------------------------------------------------------------------------
// Lines (`str::lines`): split at `\n`, a `\r` right before a `\n` dropped,
// no empty line after a final `\n`.
// ---------------------------------------------------------------------------

/// Index of the first newline at or after `i` (or the length).
pub open spec fn line_end(s: Seq<char>, i: int) -> int
    decreases s.len() - i,
{
    if i < 0 || i >= s.len() {
        if i < 0 { 0 } else { s.len() as int }
    } else if s[i] == '\n' {
        i
    } else {
        line_end(s, i + 1)
    }
}

pub open spec fn lines_from(s: Seq<char>, i: int) -> Seq<Seq<char>>
    decreases s.len() - i,
{
    if i < 0 || i >= s.len() {
        Seq::empty()
    } else {
        let e = line_end(s, i);
        if i <= e < s.len() {
            let line = if e > i && s[e - 1] == '\r' {
                s.subrange(i, e - 1)
            } else {
                s.subrange(i, e)
            };
            seq![line] + lines_from(s, e + 1)
        } else {
            seq![s.subrange(i, s.len() as int)]
        }
    }
}

pub open spec fn lines(s: Seq<char>) -> Seq<Seq<char>> {
    lines_from(s, 0)
}

pub open spec fn lines_view(v: Seq<Vec<char>>) -> Seq<Seq<char>> {
    v.map_values(|l: Vec<char>| l@)
}

pub proof fn lemma_line_end(s: Seq<char>, i: int)
    requires
        0 <= i <= s.len(),
    ensures
        i <= line_end(s, i) <= s.len(),
        line_end(s, i) < s.len() ==> s[line_end(s, i)] == '\n',
    decreases s.len() - i,
{
    if i < s.len() && s[i] != '\n' {
        lemma_line_end(s, i + 1);
    }
}

pub fn split_lines(s: &[char]) -> (res: Vec<Vec<char>>)
    ensures
        lines_view(res@) == lines(s@),
{
    let n = s.len();
    let mut out: Vec<Vec<char>> = Vec::new();
    let mut i: usize = 0;
    while i < n
        invariant
            n == s@.len(),
            i <= n,
            lines_view(out@) + lines_from(s@, i as int) == lines(s@),
        decreases n - i,
    {
        let ghost before = lines_view(out@);
        let mut e = i;
        while e < n && s[e] != '\n'
            invariant
                n == s@.len(),
                i <= e <= n,
                line_end(s@, e as int) == line_end(s@, i as int),
            decreases n - e,
        {
            e = e + 1;
        }
        if e < n {
            let stop = if e > i && s[e - 1] == '\r' { e - 1 } else { e };
            let line = copy_range(s, i, stop);
            out.push(line);
            assert(lines_view(out@) =~= before.push(line@));
            assert(lines_view(out@) + lines_from(s@, e + 1) =~= before + lines_from(s@, i as int));
            i = e + 1;
        } else {
            let line = copy_range(s, i, n);
            out.push(line);
            assert(lines_view(out@) =~= before.push(line@));
            assert(lines_view(out@) + lines_from(s@, n as int) =~= before + lines_from(
                s@,
                i as int,
            ));
            i = n;
        }
    }
    assert(lines_view(out@) =~= lines_view(out@) + lines_from(s@, i as int));
    out
}

// ---------------------------------------------------------------------------
// Section headings: a line `== Title ==`
// (the pattern `(?m)^=+\s*([^=\n]+?)\s*=+\s*$`, matched against one line).
// ---------------------------------------------------------------------------

pub open spec fn skip_equals(s: Seq<char>, i: int) -> int
    decreases s.len() - i,
{
    if i < 0 || i >= s.len() {
        if i < 0 { 0 } else { s.len() as int }
    } else if s[i] == '=' {
        skip_equals(s, i + 1)
    } else {
        i
    }
}

pub open spec fn find_equals(s: Seq<char>, i: int) -> int
    decreases s.len() - i,
{
    if i < 0 || i >= s.len() {
        if i < 0 { 0 } else { s.len() as int }
    } else if s[i] == '=' {
        i
    } else {
        find_equals(s, i + 1)
    }
}

/// The title of a heading line, or `None` when the line is no heading.
///
/// The line is one or more `=`, text without `=`, one or more `=`, and
/// nothing but whitespace after. The title is the text without the
/// whitespace around it; when there is no text but whitespace, the title
/// is the last whitespace character before the closing `=`.
pub open spec fn heading_title(line: Seq<char>) -> Option<Seq<char>> {
    let a = skip_equals(line, 0);
    let e = find_equals(line, a);
    if a == 0 || e >= line.len() || skip_ws(line, skip_equals(line, e)) != line.len() {
        None
    } else {
        let q = skip_ws(line, a);
        if q < e {
            Some(line.subrange(q, skip_ws_back(line, e)))
        } else {
            Some(line.subrange(e - 1, e))
        }
    }
}

pub proof fn lemma_skip_equals(s: Seq<char>, i: int)
    requires
        0 <= i <= s.len(),
    ensures
        i <= skip_equals(s, i) <= s.len(),
        forall|k: int| i <= k < skip_equals(s, i) ==> s[k] == '=',
        skip_equals(s, i) < s.len() ==> s[skip_equals(s, i)] != '=',
    decreases s.len() - i,
{
    if i < s.len() && s[i] == '=' {
        lemma_skip_equals(s, i + 1);
    }
}

pub proof fn lemma_find_equals(s: Seq<char>, i: int)
    requires
        0 <= i <= s.len(),
    ensures
        i <= find_equals(s, i) <= s.len(),
        forall|k: int| i <= k < find_equals(s, i) ==> s[k] != '=',
        find_equals(s, i) < s.len() ==> s[find_equals(s, i)] == '=',
    decreases s.len() - i,
{
    if i < s.len() && s[i] != '=' {
        lemma_find_equals(s, i + 1);
    }
}

fn skip_equals_exec(s: &[char], i: usize) -> (res: usize)
    requires
        i <= s@.len(),
    ensures
        res as int == skip_equals(s@, i as int),
{
    let mut k = i;
    while k < s.len() && s[k] == '='
        invariant
            i <= k <= s@.len(),
            skip_equals(s@, k as int) == skip_equals(s@, i as int),
        decreases s@.len() - k,
    {
        k = k + 1;
    }
    k
}

fn find_equals_exec(s: &[char], i: usize) -> (res: usize)
    requires
        i <= s@.len(),
    ensures
        res as int == find_equals(s@, i as int),
{
    let mut k = i;
    while k < s.len() && s[k] != '='
        invariant
            i <= k <= s@.len(),
            find_equals(s@, k as int) == find_equals(s@, i as int),
        decreases s@.len() - k,
    {
        k = k + 1;
    }
    k
}

fn skip_ws_back_exec(s: &[char], j: usize) -> (res: usize)
    requires
        j <= s@.len(),
    ensures
        res as int == skip_ws_back(s@, j as int),
{
    let mut k = j;
    while k > 0 && char_is_ws(s[k - 1])
        invariant
            k <= j <= s@.len(),
            skip_ws_back(s@, k as int) == skip_ws_back(s@, j as int),
        decreases k,
    {
        k = k - 1;
    }
    k
}

pub fn heading_title_exec(line: &[char]) -> (res: Option<Vec<char>>)
    ensures
        match res {
            Some(t) => heading_title(line@) == Some(t@),
            None => heading_title(line@) is None,
        },
{
    let n = line.len();
    proof {
        lemma_skip_equals(line@, 0);
    }
    let a = skip_equals_exec(line, 0);
    proof {
        lemma_find_equals(line@, a as int);
    }
    let e = find_equals_exec(line, a);
    if a == 0 || e >= n {
        return None;
    }
    proof {
        lemma_skip_equals(line@, e as int);
    }
    let f = skip_equals_exec(line, e);
    let g = skip_ws_exec(line, f);
    if g != n {
        return None;
    }
    let q = skip_ws_exec(line, a);
    proof {
        lemma_skip_ws(line@, a as int);
    }
    if q < e {
        let t = skip_ws_back_exec(line, e);
        proof {
            lemma_skip_ws_back(line@, e as int);
            if t <= q {
                assert(!is_ws(line@[q as int]));
            }
        }
        Some(copy_range(line, q, t))
    } else {
        proof {
            assert(q == e);
            assert(line@[a as int] != '=');
        }
        Some(copy_range(line, e - 1, e))
    }
}

// ---------------------------------------------------------------------------
// Sections
// ---------------------------------------------------------------------------

/// The section being collected, if it has a heading or a body.
pub open spec fn flush(h: Seq<char>, b: Seq<char>) -> Seq<(Seq<char>, Seq<char>)> {
    if b.len() > 0 || h.len() > 0 {
        seq![(h, b)]
    } else {
        Seq::empty()
    }
}

/// Sections from line `k` on, given the heading `h` and the body `b` so far.
/// Each body line is followed by a newline.
pub open spec fn sections_from(
    ls: Seq<Seq<char>>,
    k: int,
    h: Seq<char>,
    b: Seq<char>,
) -> Seq<(Seq<char>, Seq<char>)>
    decreases ls.len() - k,
{
    if k < 0 || k >= ls.len() {
        flush(h, b)
    } else {
        match heading_title(ls[k]) {
            Some(t) => flush(h, b) + sections_from(ls, k + 1, t, Seq::empty()),
            None => sections_from(ls, k + 1, h, b + ls[k] + seq!['\n']),
        }
    }
}

/// `(heading, body)` pairs; the lead, before any heading, has an empty heading.
pub open spec fn sections(s: Seq<char>) -> Seq<(Seq<char>, Seq<char>)> {
    sections_from(lines(s), 0, Seq::empty(), Seq::empty())
}

proof fn lemma_skip_equals_run(s: Seq<char>, i: int, j: int)
    requires
        0 <= i <= j <= s.len(),
        forall|k: int| i <= k < j ==> s[k] == '=',
        j < s.len() ==> s[j] != '=',
    ensures
        skip_equals(s, i) == j,
    decreases j - i,
{
    if i < j {
        lemma_skip_equals_run(s, i + 1, j);
    }
}

proof fn lemma_find_equals_run(s: Seq<char>, i: int, j: int)
    requires
        0 <= i <= j < s.len(),
        forall|k: int| i <= k < j ==> s[k] != '=',
        s[j] == '=',
    ensures
        find_equals(s, i) == j,
    decreases j - i,
{
    if i < j {
        lemma_find_equals_run(s, i + 1, j);
    }
}

proof fn lemma_skip_ws_run(s: Seq<char>, i: int, j: int)
    requires
        0 <= i <= j <= s.len(),
        forall|k: int| i <= k < j ==> is_ws(s[k]),
        j < s.len() ==> !is_ws(s[j]),
    ensures
        skip_ws(s, i) == j,
    decreases j - i,
{
    if i < j {
        lemma_skip_ws_run(s, i + 1, j);
    }
}

proof fn lemma_skip_ws_back_run(s: Seq<char>, j: int, k: int)
    requires
        0 <= j <= k <= s.len(),
        forall|x: int| j <= x < k ==> is_ws(s[x]),
        j > 0 ==> !is_ws(s[j - 1]),
    ensures
        skip_ws_back(s, k) == j,
    decreases k - j,
{
    if j < k {
        lemma_skip_ws_back_run(s, j, k - 1);
    }
}

/// A run of `n` equals signs.
pub open spec fn equals_run(n: nat) -> Seq<char> {
    Seq::new(n, |i: int| '=')
}

/// Any line made of one or more `=`, a text without `=` or line break that
/// is not all whitespace, one or more `=`, and then only whitespace is a
/// heading, whatever the number of `=` on either side; its title is the
/// text without the whitespace around it.
pub proof fn law_heading_any_level(n: nat, t: Seq<char>, m: nat, tail: Seq<char>)
    requires
        n >= 1,
        m >= 1,
        forall|k: int| 0 <= k < t.len() ==> t[k] != '=' && t[k] != '\n',
        trim(t).len() > 0,
        forall|k: int| 0 <= k < tail.len() ==> is_ws(#[trigger] tail[k]),
    ensures
        heading_title(equals_run(n) + t + equals_run(m) + tail) == Some(trim(t)),
{
    let line = equals_run(n) + t + equals_run(m) + tail;
    let e: int = n as int + t.len();
    let f: int = e + m;
    assert(forall|k: int| 0 <= k < n ==> line[k] == '=');
    assert(forall|k: int| n <= k < e ==> line[k] == t[k - n]);
    assert(forall|k: int| e <= k < f ==> line[k] == '=');
    assert(forall|k: int| f <= k < line.len() ==> line[k] == tail[k - f]);
    lemma_skip_ws(t, 0);
    lemma_skip_ws_back(t, t.len() as int);
    let a0 = skip_ws(t, 0);
    let b0 = skip_ws_back(t, t.len() as int);
    assert(a0 < b0);
    assert(t.len() > 0);
    lemma_skip_equals_run(line, 0, n as int);
    assert(forall|k: int| n <= k < e ==> line[k] != '=');
    lemma_find_equals_run(line, n as int, e);
    lemma_skip_equals_run(line, e, f);
    assert forall|k: int| f <= k < line.len() implies is_ws(line[k]) by {
        assert(line[k] == tail[k - f]);
    }
    lemma_skip_ws_run(line, f, line.len() as int);
    assert forall|k: int| n <= k < n + a0 implies is_ws(line[k]) by {
        assert(line[k] == t[k - n]);
    }
    assert(line[n + a0] == t[a0]);
    lemma_skip_ws_run(line, n as int, n + a0);
    assert forall|k: int| n + b0 <= k < e implies is_ws(line[k]) by {
        assert(line[k] == t[k - n]);
    }
    assert(line[n + b0 - 1] == t[b0 - 1]);
    lemma_skip_ws_back_run(line, n + b0, e);
    assert(line.subrange(n + a0, n + b0) =~= t.subrange(a0, b0));
}

/// A heading line always has a title of at least one character.
pub proof fn lemma_heading_title_nonempty(line: Seq<char>)
    ensures
        heading_title(line) matches Some(t) ==> t.len() > 0,
{
    let a = skip_equals(line, 0);
    lemma_skip_equals(line, 0);
    lemma_find_equals(line, a);
    let e = find_equals(line, a);
    if heading_title(line) is Some && a < e {
        crate::text::lemma_skip_ws(line, a);
        let q = skip_ws(line, a);
        if q < e {
            crate::text::lemma_skip_ws_back(line, e);
            let b = skip_ws_back(line, e);
            if b <= q {
                assert(is_ws(line[q]));
            }
        }
    }
}

/// Only a line that opens with `=` is a heading, and its title is not
/// empty and holds no `=`.
pub proof fn law_heading_title_sound(line: Seq<char>)
    ensures
        heading_title(line) matches Some(t) ==> {
            &&& line.len() > 0 && line[0] == '='
            &&& t.len() > 0
            &&& forall|k: int| 0 <= k < t.len() ==> t[k] != '='
        },
{
    lemma_heading_title_nonempty(line);
    let a = skip_equals(line, 0);
    lemma_skip_equals(line, 0);
    lemma_find_equals(line, a);
    let e = find_equals(line, a);
    if heading_title(line) is Some {
        assert(line[0] == '=');
        let t = heading_title(line)->0;
        lemma_skip_ws(line, a);
        let q = skip_ws(line, a);
        if q < e {
            lemma_skip_ws_back(line, e);
            assert forall|k: int| 0 <= k < t.len() implies t[k] != '=' by {
                assert(t[k] == line[q + k]);
            }
        } else {
            assert(e > a);
            assert(t[0] == line[e - 1]);
        }
    }
}

/// Whether the sections have the shape `split_sections` gives: none is
/// both without heading and without body, only the first may be without a
/// heading (the lead), and each body is a run of lines, each ending in a
/// line break.
pub open spec fn sections_shaped(secs: Seq<(Seq<char>, Seq<char>)>) -> bool {
    &&& forall|k: int| 0 <= k < secs.len() ==> (#[trigger] secs[k]).0.len() > 0 || secs[k].1.len() > 0
    &&& forall|k: int| 0 < k < secs.len() ==> (#[trigger] secs[k]).0.len() > 0
    &&& forall|k: int|
        0 <= k < secs.len() ==> (#[trigger] secs[k]).1.len() == 0 || secs[k].1.last() == '\n'
}

proof fn lemma_sections_from_shaped(ls: Seq<Seq<char>>, k: int, h: Seq<char>, b: Seq<char>)
    requires
        0 <= k,
        b.len() == 0 || b.last() == '\n',
    ensures
        sections_shaped(sections_from(ls, k, h, b)),
        forall|i: int|
            0 < i < sections_from(ls, k, h, b).len() || (0 <= i < sections_from(ls, k, h, b).len()
                && h.len() > 0) ==> (#[trigger] sections_from(ls, k, h, b)[i]).0.len() > 0,
    decreases ls.len() - k,
{
    let r = sections_from(ls, k, h, b);
    if k < ls.len() {
        match heading_title(ls[k]) {
            Some(t) => {
                lemma_heading_title_nonempty(ls[k]);
                lemma_sections_from_shaped(ls, k + 1, t, Seq::empty());
                let f = flush(h, b);
                let rest = sections_from(ls, k + 1, t, Seq::empty());
                assert(r == f + rest);
                assert forall|i: int| 0 <= i < r.len() implies (#[trigger] r[i]).0.len() > 0
                    || r[i].1.len() > 0 by {
                    if i >= f.len() {
                        assert(r[i] == rest[i - f.len()]);
                    }
                }
                assert forall|i: int| 0 < i < r.len() || (0 <= i < r.len() && h.len() > 0) implies (
                #[trigger] r[i]).0.len() > 0 by {
                    if i >= f.len() {
                        assert(r[i] == rest[i - f.len()]);
                    }
                }
                assert forall|i: int| 0 <= i < r.len() implies (#[trigger] r[i]).1.len() == 0
                    || r[i].1.last() == '\n' by {
                    if i >= f.len() {
                        assert(r[i] == rest[i - f.len()]);
                    }
                }
            },
            None => {
                let nb = b + ls[k] + seq!['\n'];
                assert(nb.last() == '\n');
                lemma_sections_from_shaped(ls, k + 1, h, nb);
            },
        }
    }
}

/// `split_sections` gives sections of the right shape: none is both
/// without heading and without body, only the first (the lead) may be
/// without a heading, and every body is empty or ends in a line break.
pub proof fn law_sections_shaped(s: Seq<char>)
    ensures
        sections_shaped(sections(s)),
{
    lemma_sections_from_shaped(lines(s), 0, Seq::empty(), Seq::empty());
}

pub open spec fn pairs_view(v: Seq<(Vec<char>, Vec<char>)>) -> Seq<(Seq<char>, Seq<char>)> {
    v.map_values(|p: (Vec<char>, Vec<char>)| (p.0@, p.1@))
}

fn push_flush(out: &mut Vec<(Vec<char>, Vec<char>)>, h: Vec<char>, b: Vec<char>)
    ensures
        pairs_view(final(out)@) == pairs_view(old(out)@) + flush(h@, b@),
{
    let ghost before = pairs_view(out@);
    let ghost hv = h@;
    let ghost bv = b@;
    if b.len() > 0 || h.len() > 0 {
        out.push((h, b));
        assert(pairs_view(out@) =~= before + flush(hv, bv));
    } else {
        assert(pairs_view(out@) =~= before + flush(hv, bv));
    }
}

pub fn sections_exec(s: &[char]) -> (res: Vec<(Vec<char>, Vec<char>)>)
    ensures
        pairs_view(res@) == sections(s@),
{
    let ls = split_lines(s);
    let ghost lv = lines(s@);
    let mut out: Vec<(Vec<char>, Vec<char>)> = Vec::new();
    let mut heading: Vec<char> = Vec::new();
    let mut body: Vec<char> = Vec::new();
    let mut k: usize = 0;
    while k < ls.len()
        invariant
            lines_view(ls@) == lv,
            lv == lines(s@),
            k <= ls@.len(),
            pairs_view(out@) + sections_from(lv, k as int, heading@, body@) == sections(s@),
        decreases ls@.len() - k,
    {
        let line = &ls[k];
        assert(lv[k as int] == line@);
        match heading_title_exec(line.as_slice()) {
            Some(t) => {
                let ghost before = pairs_view(out@);
                let old_h = heading;
                let old_b = body;
                let ghost hv = old_h@;
                let ghost bv = old_b@;
                push_flush(&mut out, old_h, old_b);
                heading = t;
                body = Vec::new();
                assert(pairs_view(out@) + sections_from(lv, k + 1, heading@, body@) =~= before
                    + sections_from(lv, k as int, hv, bv));
            },
            None => {
                let ghost bv = body@;
                push_all(&mut body, line.as_slice());
                body.push('\n');
                assert(body@ =~= bv + lv[k as int] + seq!['\n']);
            },
        }
        k = k + 1;
    }
    push_flush(&mut out, heading, body);
    assert(pairs_view(out@) =~= pairs_view(out@) + Seq::<(Seq<char>, Seq<char>)>::empty());
    out
}

} // verus!

verus! {

// ---------------------------------------------------------------------------
// Splitting template parameters at `|` outside `[[ ]]`, `{{ }}` and quotes
// ---------------------------------------------------------------------------

/// Nesting after reading `c`: depth of `{`, depth of `[`, and whether a
/// quote (`'` or `"`) is open. Any quote closes an open one.
pub open spec fn nesting_step(c: char, braces: nat, brackets: nat, quoted: bool) -> (
    nat,
    nat,
    bool,
) {
    if c == '\'' || c == '"' {
        (braces, brackets, !quoted)
    } else if quoted {
        (braces, brackets, quoted)
    } else if c == '[' {
        (braces, brackets + 1, quoted)
    } else if c == ']' && brackets > 0 {
        (braces, (brackets - 1) as nat, quoted)
    } else if c == '{' {
        (braces + 1, brackets, quoted)
    } else if c == '}' && braces > 0 {
        ((braces - 1) as nat, brackets, quoted)
    } else {
        (braces, brackets, quoted)
    }
}

/// The parts of `s` from `start`, scanning from `i` with the given nesting.
pub open spec fn top_level_parts_from(
    s: Seq<char>,
    i: int,
    braces: nat,
    brackets: nat,
    quoted: bool,
    start: int,
) -> Seq<Seq<char>>
    decreases s.len() - i,
{
    if i < 0 || i >= s.len() {
        seq![s.subrange(start, s.len() as int)]
    } else {
        let (b2, k2, q2) = nesting_step(s[i], braces, brackets, quoted);
        if s[i] == '|' && b2 == 0 && k2 == 0 && !q2 {
            seq![s.subrange(start, i)] + top_level_parts_from(s, i + 1, b2, k2, q2, i + 1)
        } else {
            top_level_parts_from(s, i + 1, b2, k2, q2, start)
        }
    }
}

/// `s` split at every `|` that is not nested; never empty.
pub open spec fn top_level_parts(s: Seq<char>) -> Seq<Seq<char>> {
    top_level_parts_from(s, 0, 0, 0, false, 0)
}

pub proof fn lemma_top_level_parts_nonempty(
    s: Seq<char>,
    i: int,
    braces: nat,
    brackets: nat,
    quoted: bool,
    start: int,
)
    ensures
        top_level_parts_from(s, i, braces, brackets, quoted, start).len() >= 1,
    decreases s.len() - i,
{
    if 0 <= i < s.len() {
        let (b2, k2, q2) = nesting_step(s[i], braces, brackets, quoted);
        if s[i] == '|' && b2 == 0 && k2 == 0 && !q2 {
            lemma_top_level_parts_nonempty(s, i + 1, b2, k2, q2, i + 1);
        } else {
            lemma_top_level_parts_nonempty(s, i + 1, b2, k2, q2, start);
        }
    }
}

/// Parts joined again by `|`.
pub open spec fn join_parts(parts: Seq<Seq<char>>) -> Seq<char>
    decreases parts.len(),
{
    if parts.len() == 0 {
        Seq::empty()
    } else if parts.len() == 1 {
        parts[0]
    } else {
        parts[0] + seq!['|'] + join_parts(parts.drop_first())
    }
}

proof fn lemma_join_parts_from(
    s: Seq<char>,
    i: int,
    braces: nat,
    brackets: nat,
    quoted: bool,
    start: int,
)
    requires
        0 <= start <= i <= s.len(),
    ensures
        join_parts(top_level_parts_from(s, i, braces, brackets, quoted, start)) == s.subrange(
            start,
            s.len() as int,
        ),
    decreases s.len() - i,
{
    if i < s.len() {
        let (b2, k2, q2) = nesting_step(s[i], braces, brackets, quoted);
        if s[i] == '|' && b2 == 0 && k2 == 0 && !q2 {
            let rest = top_level_parts_from(s, i + 1, b2, k2, q2, i + 1);
            lemma_join_parts_from(s, i + 1, b2, k2, q2, i + 1);
            lemma_top_level_parts_nonempty(s, i + 1, b2, k2, q2, i + 1);
            let all = seq![s.subrange(start, i)] + rest;
            assert(all.drop_first() =~= rest);
            assert(s.subrange(start, s.len() as int) =~= s.subrange(start, i) + seq!['|']
                + s.subrange(i + 1, s.len() as int));
        } else {
            lemma_join_parts_from(s, i + 1, b2, k2, q2, start);
        }
    }
}

/// Splitting at the top-level bars loses nothing: the parts joined again
/// by `|` give the text back.
pub proof fn law_top_level_parts_join(s: Seq<char>)
    ensures
        top_level_parts(s).len() >= 1,
        join_parts(top_level_parts(s)) == s,
{
    lemma_top_level_parts_nonempty(s, 0, 0, 0, false, 0);
    lemma_join_parts_from(s, 0, 0, 0, false, 0);
    assert(s.subrange(0, s.len() as int) =~= s);
}

pub fn split_top_level(s: &[char]) -> (res: Vec<Vec<char>>)
    ensures
        lines_view(res@) == top_level_parts(s@),
        res@.len() >= 1,
{
    let n = s.len();
    let mut out: Vec<Vec<char>> = Vec::new();
    let mut braces: usize = 0;
    let mut brackets: usize = 0;
    let mut quoted = false;
    let mut start: usize = 0;
    let mut i: usize = 0;
    while i < n
        invariant
            n == s@.len(),
            start <= i <= n,
            braces <= i,
            brackets <= i,
            lines_view(out@) + top_level_parts_from(
                s@,
                i as int,
                braces as nat,
                brackets as nat,
                quoted,
                start as int,
            ) == top_level_parts(s@),
        decreases n - i,
    {
        let c = s[i];
        let ghost before = lines_view(out@);
        if c == '\'' || c == '"' {
            quoted = !quoted;
        } else if quoted {
        } else if c == '[' {
            brackets = brackets + 1;
        } else if c == ']' && brackets > 0 {
            brackets = brackets - 1;
        } else if c == '{' {
            braces = braces + 1;
        } else if c == '}' && braces > 0 {
            braces = braces - 1;
        }
        if c == '|' && braces == 0 && brackets == 0 && !quoted {
            let part = copy_range(s, start, i);
            out.push(part);
            assert(lines_view(out@) =~= before.push(part@));
            assert(lines_view(out@) + top_level_parts_from(s@, i + 1, 0, 0, false, i + 1)
                =~= before + seq![s@.subrange(start as int, i as int)] + top_level_parts_from(
                s@,
                i + 1,
                0,
                0,
                false,
                i + 1,
            ));
            start = i + 1;
        }
        i = i + 1;
    }
    let last = copy_range(s, start, n);
    let ghost before = lines_view(out@);
    out.push(last);
    assert(lines_view(out@) =~= before.push(last@));
    out
}

// ---------------------------------------------------------------------------
// Named template parameters
// ---------------------------------------------------------------------------

/// The value of the last entry with key `k`.
pub open spec fn lookup(e: Seq<(Seq<char>, Seq<char>)>, k: Seq<char>) -> Option<Seq<char>>
    decreases e.len(),
{
    if e.len() == 0 {
        None
    } else if e.last().0 == k {
        Some(e.last().1)
    } else {
        lookup(e.drop_last(), k)
    }
}

pub open spec fn entries_map(e: Seq<(Seq<char>, Seq<char>)>) -> Map<Seq<char>, Seq<char>> {
    Map::new(|k: Seq<char>| lookup(e, k) is Some, |k: Seq<char>| lookup(e, k)->0)
}

/// Named parameters of a template, keyed by name. A later value for a
/// name replaces the earlier one.
pub struct NamedParams {
    pairs: Vec<(Vec<char>, String)>,
}

impl NamedParams {
    pub closed spec fn entries(&self) -> Seq<(Seq<char>, Seq<char>)> {
        self.pairs@.map_values(|p: (Vec<char>, String)| (p.0@, p.1@))
    }

    pub open spec fn view(&self) -> Map<Seq<char>, Seq<char>> {
        entries_map(self.entries())
    }

    pub fn new() -> (res: Self)
        ensures
            res.view() == Map::<Seq<char>, Seq<char>>::empty(),
    {
        let res = NamedParams { pairs: Vec::new() };
        assert(res.entries() =~= Seq::<(Seq<char>, Seq<char>)>::empty());
        assert(res.view() =~= Map::<Seq<char>, Seq<char>>::empty());
        res
    }

    /// Sets the value of `key`.
    pub fn insert(&mut self, key: Vec<char>, value: String)
        ensures
            final(self).view() == old(self).view().insert(key@, value@),
    {
        let ghost e0 = self.entries();
        let ghost kv = key@;
        let ghost vv = value@;
        self.pairs.push((key, value));
        assert(self.entries() =~= e0.push((kv, vv)));
        assert(self.entries().drop_last() =~= e0);
        assert forall|k: Seq<char>| #[trigger] lookup(self.entries(), k) == if k == kv {
            Some(vv)
        } else {
            lookup(e0, k)
        } by {}
        assert(self.view() =~= old(self).view().insert(kv, vv));
    }

    /// The value of `key`, if it has one.
    pub fn get(&self, key: &str) -> (res: Option<&String>)
        ensures
            match res {
                Some(v) => self.view().contains_key(key@) && self.view()[key@] == v@,
                None => !self.view().contains_key(key@),
            },
    {
        let k = chars_of(key);
        self.get_chars(k.as_slice())
    }

    /// The value of the key given as characters, if it has one.
    pub fn get_chars(&self, key: &[char]) -> (res: Option<&String>)
        ensures
            match res {
                Some(v) => self.view().contains_key(key@) && self.view()[key@] == v@,
                None => !self.view().contains_key(key@),
            },
    {
        let mut i = self.pairs.len();
        assert(self.entries().take(i as int) =~= self.entries());
        while i > 0
            invariant
                i <= self.pairs@.len(),
                lookup(self.entries().take(i as int), key@) == lookup(self.entries(), key@),
            decreases i,
        {
            let ghost t = self.entries().take(i as int);
            assert(t.last() == self.entries()[i - 1]);
            assert(t.drop_last() =~= self.entries().take(i - 1));
            if same_chars(self.pairs[i - 1].0.as_slice(), key) {
                return Some(&self.pairs[i - 1].1);
            }
            i = i - 1;
        }
        assert(self.entries().take(0) =~= Seq::<(Seq<char>, Seq<char>)>::empty());
        None
    }
}

/// A template's name and its positional + named parameters.
pub struct Template {
    pub name: String,
    pub params: Vec<String>,
    pub named: NamedParams,
}

pub open spec fn strings_view(v: Seq<String>) -> Seq<Seq<char>> {
    v.map_values(|x: String| x@)
}

pub open spec fn skip_colons(s: Seq<char>, i: int) -> int
    decreases s.len() - i,
{
    if i < 0 || i >= s.len() {
        if i < 0 { 0 } else { s.len() as int }
    } else if s[i] == ':' {
        skip_colons(s, i + 1)
    } else {
        i
    }
}

/// `trim_start_matches(':')`.
pub open spec fn strip_leading_colons(s: Seq<char>) -> Seq<char> {
    s.subrange(skip_colons(s, 0), s.len() as int)
}

/// A parameter holds a name when it contains `=`; name and value are the
/// trimmed text before and after the first `=`.
pub open spec fn param_is_named(p: Seq<char>) -> bool {
    find_equals(trim(p), 0) < trim(p).len()
}

pub open spec fn param_name(p: Seq<char>) -> Seq<char> {
    trim(trim(p).subrange(0, find_equals(trim(p), 0)))
}

pub open spec fn param_value(p: Seq<char>) -> Seq<char> {
    trim(trim(p).subrange(find_equals(trim(p), 0) + 1, trim(p).len() as int))
}

pub open spec fn positional_from(parts: Seq<Seq<char>>, k: int) -> Seq<Seq<char>>
    decreases parts.len() - k,
{
    if k < 0 || k >= parts.len() {
        Seq::empty()
    } else if param_is_named(parts[k]) {
        positional_from(parts, k + 1)
    } else {
        seq![trim(parts[k])] + positional_from(parts, k + 1)
    }
}

pub open spec fn named_from(
    parts: Seq<Seq<char>>,
    k: int,
    m: Map<Seq<char>, Seq<char>>,
) -> Map<Seq<char>, Seq<char>>
    decreases parts.len() - k,
{
    if k < 0 || k >= parts.len() {
        m
    } else if param_is_named(parts[k]) {
        named_from(parts, k + 1, m.insert(param_name(parts[k]), param_value(parts[k])))
    } else {
        named_from(parts, k + 1, m)
    }
}

/// The parts of a template body: the trimmed body split at top-level `|`.
pub open spec fn template_parts(body: Seq<char>) -> Seq<Seq<char>> {
    top_level_parts(trim(body))
}

pub open spec fn template_name_of(body: Seq<char>) -> Seq<char> {
    strip_leading_colons(trim(template_parts(body)[0]))
}

pub open spec fn template_positional_of(body: Seq<char>) -> Seq<Seq<char>> {
    positional_from(template_parts(body), 1)
}

pub open spec fn template_named_of(body: Seq<char>) -> Map<Seq<char>, Seq<char>> {
    named_from(template_parts(body), 1, Map::empty())
}

/// Parses a template body (the text between `{{` and `}}`), as characters.
pub fn parse_template_chars(body: &[char]) -> (res: Template)
    ensures
        res.name@ == template_name_of(body@),
        strings_view(res.params@) == template_positional_of(body@),
        res.named.view() == template_named_of(body@),
{
    let b = trimmed(body);
    let parts = split_top_level(b.as_slice());
    let ghost pv = template_parts(body@);
    let first = trimmed(parts[0].as_slice());
    let mut c: usize = 0;
    while c < first.len() && first[c] == ':'
        invariant
            c <= first@.len(),
            skip_colons(first@, c as int) == skip_colons(first@, 0),
        decreases first@.len() - c,
    {
        c = c + 1;
    }
    let name = string_from_chars(copy_range(first.as_slice(), c, first.len()).as_slice());
    let mut params: Vec<String> = Vec::new();
    let mut named = NamedParams::new();
    let mut k: usize = 1;
    while k < parts.len()
        invariant
            lines_view(parts@) == pv,
            1 <= k <= parts@.len(),
            strings_view(params@) + positional_from(pv, k as int) == positional_from(pv, 1),
            named_from(pv, k as int, named.view()) == named_from(pv, 1, Map::empty()),
        decreases parts@.len() - k,
    {
        let p = trimmed(parts[k].as_slice());
        assert(pv[k as int] == parts@[k as int]@);
        let e = find_equals_exec(p.as_slice(), 0);
        if e < p.len() {
            let key = trimmed(copy_range(p.as_slice(), 0, e).as_slice());
            let value = trimmed(copy_range(p.as_slice(), e + 1, p.len()).as_slice());
            named.insert(key, string_from_chars(value.as_slice()));
        } else {
            let ghost before = strings_view(params@);
            let s = string_from_chars(p.as_slice());
            params.push(s);
            assert(strings_view(params@) =~= before.push(p@));
            assert(strings_view(params@) + positional_from(pv, k + 1) =~= before
                + positional_from(pv, k as int));
        }
        k = k + 1;
    }
    assert(strings_view(params@) =~= strings_view(params@) + positional_from(pv, k as int));
    Template { name, params, named }
}

/// Parse a single template body (the inner content between `{{` and `}}`).
pub fn parse_template(body: &str) -> (res: Option<Template>)
    ensures
        match res {
            Some(t) => {
                &&& t.name@ == template_name_of(body@)
                &&& strings_view(t.params@) == template_positional_of(body@)
                &&& t.named.view() == template_named_of(body@)
            },
            None => false,
        },
{
    let b = chars_of(body);
    Some(parse_template_chars(b.as_slice()))
}

} // verus!

verus! {

// ---------------------------------------------------------------------------
// Finding templates
// ---------------------------------------------------------------------------

pub open spec fn spans_view(v: Seq<(usize, usize)>) -> Seq<(int, int)> {
    v.map_values(|p: (usize, usize)| (p.0 as int, p.1 as int))
}

/// The templates of `s` as `(start, end)` character positions.
pub fn template_spans_exec(s: &[char]) -> (res: Vec<(usize, usize)>)
    ensures
        spans_view(res@) == template_spans(s@, 0),
        forall|k: int|
            0 <= k < res@.len() ==> #[trigger] res@[k].0 + 4 <= res@[k].1 && res@[k].1 <= s@.len(),
{
    let n = s.len();
    let mut out: Vec<(usize, usize)> = Vec::new();
    let mut i: usize = 0;
    while i < n
        invariant
            n == s@.len(),
            i <= n,
            spans_view(out@) + template_spans(s@, i as int) == template_spans(s@, 0),
            forall|k: int|
                0 <= k < out@.len() ==> #[trigger] out@[k].0 + 4 <= out@[k].1 && out@[k].1 <= n,
        decreases n - i,
    {
        let ghost before = spans_view(out@);
        proof {
            lemma_template_end_bounds(s@, i as int);
        }
        match template_end_at(s, i) {
            Some(e) => {
                out.push((i, e));
                assert(spans_view(out@) =~= before.push((i as int, e as int)));
                assert(spans_view(out@) + template_spans(s@, e as int) =~= before
                    + template_spans(s@, i as int));
                i = e;
            },
            None => {
                i = i + 1;
            },
        }
    }
    assert(spans_view(out@) =~= spans_view(out@) + template_spans(s@, i as int));
    out
}

/// Byte position in the UTF-8 text of the character position `i`.
pub open spec fn byte_offset(s: Seq<char>, i: int) -> int {
    crate::text::utf8_len(s.take(i)) as int
}

pub open spec fn found_templates(s: Seq<char>) -> Seq<(int, int, Seq<char>)> {
    template_spans(s, 0).map_values(
        |p: (int, int)| (byte_offset(s, p.0), byte_offset(s, p.1), s.subrange(p.0, p.1)),
    )
}

proof fn lemma_template_scan_closes(s: Seq<char>, i: int, inner: bool)
    requires
        0 <= i,
    ensures
        template_scan(s, i, inner) != -1 ==> occurs_at(
            s,
            seq!['}', '}'],
            template_scan(s, i, inner) - 2,
        ),
    decreases s.len() - i,
{
    if i < s.len() {
        if !is_brace(s[i]) {
            lemma_template_scan_closes(s, i + 1, inner);
        } else if inner {
            if occurs_at(s, seq!['}', '}'], i) {
                lemma_template_scan_closes(s, i + 2, false);
            }
        } else if occurs_at(s, seq!['}', '}'], i) {
        } else if occurs_at(s, seq!['{', '{'], i) {
            lemma_template_scan_closes(s, i + 2, true);
        }
    }
}

/// The spans of templates from `i` on: each opens with `{{` and closes
/// with `}}`, and they come from left to right without overlap.
pub open spec fn spans_well_placed(s: Seq<char>, sp: Seq<(int, int)>, i: int) -> bool {
    &&& forall|k: int|
        0 <= k < sp.len() ==> i <= (#[trigger] sp[k]).0 && sp[k].0 + 4 <= sp[k].1 && sp[k].1
            <= s.len()
    &&& forall|k: int|
        0 <= k < sp.len() ==> occurs_at(s, seq!['{', '{'], (#[trigger] sp[k]).0) && occurs_at(
            s,
            seq!['}', '}'],
            sp[k].1 - 2,
        )
    &&& forall|k: int, l: int| 0 <= k < l < sp.len() ==> (#[trigger] sp[k]).1 <= (#[trigger] sp[l]).0
}

proof fn lemma_template_spans_placed(s: Seq<char>, i: int)
    requires
        0 <= i,
    ensures
        spans_well_placed(s, template_spans(s, i), i),
    decreases s.len() - i,
{
    if i < s.len() {
        let e = template_end(s, i);
        lemma_template_end_bounds(s, i);
        if e > i && e <= s.len() {
            lemma_template_spans_placed(s, e);
            lemma_template_scan_closes(s, i + 2, false);
            let rest = template_spans(s, e);
            let sp = template_spans(s, i);
            assert(sp == seq![(i, e)] + rest);
            assert forall|k: int| 0 <= k < sp.len() implies i <= (#[trigger] sp[k]).0 && sp[k].0
                + 4 <= sp[k].1 && sp[k].1 <= s.len() by {
                if k > 0 {
                    assert(sp[k] == rest[k - 1]);
                }
            }
            assert forall|k: int| 0 <= k < sp.len() implies occurs_at(
                s,
                seq!['{', '{'],
                (#[trigger] sp[k]).0,
            ) && occurs_at(s, seq!['}', '}'], sp[k].1 - 2) by {
                if k > 0 {
                    assert(sp[k] == rest[k - 1]);
                }
            }
            assert forall|k: int, l: int| 0 <= k < l < sp.len() implies (#[trigger] sp[k]).1 <= (
            #[trigger] sp[l]).0 by {
                assert(sp[l] == rest[l - 1]);
                if k > 0 {
                    assert(sp[k] == rest[k - 1]);
                }
            }
        } else {
            lemma_template_spans_placed(s, i + 1);
        }
    }
}

/// What `find_templates` gives: each template's text is the piece of the
/// input between its byte positions, opening with `{{` and closing with
/// `}}`, and the templates come from left to right without overlap.
pub proof fn law_found_templates_placed(s: Seq<char>)
    ensures
        ({
            let f = found_templates(s);
            let sp = template_spans(s, 0);
            &&& f.len() == sp.len()
            &&& forall|k: int|
                0 <= k < f.len() ==> {
                    &&& (#[trigger] f[k]).2 == s.subrange(sp[k].0, sp[k].1)
                    &&& f[k].0 == crate::text::utf8_len(s.take(sp[k].0))
                    &&& f[k].1 - f[k].0 == crate::text::utf8_len(f[k].2)
                    &&& f[k].2.len() >= 4
                    &&& f[k].2.take(2) == seq!['{', '{']
                    &&& f[k].2.skip(f[k].2.len() - 2) == seq!['}', '}']
                }
            &&& forall|k: int, l: int| 0 <= k < l < f.len() ==> (#[trigger] f[k]).1 <= (#[trigger] f[l]).0
        }),
{
    let f = found_templates(s);
    let sp = template_spans(s, 0);
    lemma_template_spans_placed(s, 0);
    assert forall|k: int| 0 <= k < f.len() implies {
        &&& (#[trigger] f[k]).2 == s.subrange(sp[k].0, sp[k].1)
        &&& f[k].0 == crate::text::utf8_len(s.take(sp[k].0))
        &&& f[k].1 - f[k].0 == crate::text::utf8_len(f[k].2)
        &&& f[k].2.len() >= 4
        &&& f[k].2.take(2) == seq!['{', '{']
        &&& f[k].2.skip(f[k].2.len() - 2) == seq!['}', '}']
    } by {
        let (a, b) = sp[k];
        let t = s.subrange(a, b);
        assert(f[k] == (byte_offset(s, a), byte_offset(s, b), t));
        assert(s.take(b) =~= s.take(a) + t);
        crate::text::lemma_utf8_concat(s.take(a), t);
        assert(occurs_at(s, seq!['{', '{'], a));
        assert(occurs_at(s, seq!['}', '}'], b - 2));
        assert(t.take(2) =~= s.subrange(a, a + 2));
        assert(t.skip(t.len() - 2) =~= s.subrange(b - 2, b));
    }
    assert forall|k: int, l: int| 0 <= k < l < f.len() implies (#[trigger] f[k]).1 <= (
    #[trigger] f[l]).0 by {
        assert(sp[k].1 <= sp[l].0);
        crate::text::lemma_utf8_prefix_monotone(s, sp[k].1, sp[l].0);
    }
}

pub open spec fn found_view(v: Seq<(usize, usize, String)>) -> Seq<(int, int, Seq<char>)> {
    v.map_values(|t: (usize, usize, String)| (t.0 as int, t.1 as int, t.2@))
}

/// The outermost `{{...}}` templates of the text, as byte ranges (start,
/// end) and their text, from left to right.
pub fn find_templates(wikitext: &str) -> (res: Vec<(usize, usize, String)>)
    requires
        crate::text::utf8_len(wikitext@) <= usize::MAX,
    ensures
        found_view(res@) == found_templates(wikitext@),
{
    let s = chars_of(wikitext);
    let n = s.len();
    // byte offset of every character position
    let mut offsets: Vec<usize> = Vec::new();
    let mut acc: usize = 0;
    offsets.push(0);
    assert(s@.take(0) =~= Seq::<char>::empty());
    assert(vstd::utf8::encode_utf8(Seq::<char>::empty()) =~= Seq::<u8>::empty());
    let mut i: usize = 0;
    while i < n
        invariant
            n == s@.len(),
            i <= n,
            offsets@.len() == i + 1,
            crate::text::utf8_len(s@) <= usize::MAX,
            forall|k: int| 0 <= k <= i ==> #[trigger] offsets@[k] == byte_offset(s@, k),
        decreases n - i,
    {
        proof {
            crate::text::lemma_utf8_prefix_step(s@, i as int);
            crate::text::lemma_utf8_prefix_monotone(s@, i + 1, n as int);
            assert(s@.take(n as int) =~= s@);
        }
        let w = crate::text::char_utf8_width(s[i]);
        let next = offsets[i] + w;
        offsets.push(next);
        i = i + 1;
    }
    let spans = template_spans_exec(s.as_slice());
    let ghost sv = template_spans(s@, 0);
    let mut out: Vec<(usize, usize, String)> = Vec::new();
    let mut k: usize = 0;
    while k < spans.len()
        invariant
            spans_view(spans@) == sv,
            sv == template_spans(s@, 0),
            offsets@.len() == n + 1,
            n == s@.len(),
            forall|j: int| 0 <= j <= n ==> #[trigger] offsets@[j] == byte_offset(s@, j),
            forall|j: int|
                0 <= j < spans@.len() ==> #[trigger] spans@[j].0 + 4 <= spans@[j].1 && spans@[j].1
                    <= n,
            k <= spans@.len(),
            found_view(out@) == found_templates(s@).take(k as int),
        decreases spans@.len() - k,
    {
        let (a, b) = spans[k];
        let text = string_from_chars(copy_range(s.as_slice(), a, b).as_slice());
        let ghost before = found_view(out@);
        assert(sv[k as int] == (a as int, b as int));
        let ghost item = (offsets@[a as int] as int, offsets@[b as int] as int, text@);
        assert(found_templates(s@)[k as int] == item);
        out.push((offsets[a], offsets[b], text));
        assert(found_view(out@) =~= before.push(item));
        assert(found_templates(s@).take(k + 1) =~= found_templates(s@).take(k as int).push(item));
        assert(found_view(out@) =~= found_templates(s@).take(k + 1));
        k = k + 1;
    }
    assert(found_templates(s@).take(k as int) =~= found_templates(s@));
    out
}

// ---------------------------------------------------------------------------
// Cleaning whole pages
// ---------------------------------------------------------------------------

/// Headings of sections that hold no prose worth keeping.
pub open spec fn noise_headings() -> Seq<Seq<char>> {
    seq![
        "References"@,
        "Translations"@,
        "Site Navigation"@,
        "Image Gallery"@,
        "Image gallery"@,
        "See Also"@,
        "See also"@,
        "Navigation"@,
        "External Links"@,
        "External links"@,
        "Trivia"@,
        "Notes"@,
    ]
}

pub open spec fn is_noise_heading(h: Seq<char>) -> bool {
    exists|k: int|
        0 <= k < noise_headings().len() && crate::text::eq_ignore_ascii_case(
            #[trigger] noise_headings()[k],
            h,
        )
}

fn noise_heading_list() -> (res: Vec<Vec<char>>)
    ensures
        lines_view(res@) == noise_headings(),
{
    let v = vec![
        chars_of("References"),
        chars_of("Translations"),
        chars_of("Site Navigation"),
        chars_of("Image Gallery"),
        chars_of("Image gallery"),
        chars_of("See Also"),
        chars_of("See also"),
        chars_of("Navigation"),
        chars_of("External Links"),
        chars_of("External links"),
        chars_of("Trivia"),
        chars_of("Notes"),
    ];
    assert(lines_view(v@) =~= noise_headings());
    v
}

fn is_noise_heading_exec(h: &[char]) -> (res: bool)
    ensures
        res == is_noise_heading(h@),
{
    let names = noise_heading_list();
    let mut k: usize = 0;
    while k < names.len()
        invariant
            lines_view(names@) == noise_headings(),
            k <= names@.len(),
            forall|j: int|
                0 <= j < k ==> !crate::text::eq_ignore_ascii_case(
                    #[trigger] noise_headings()[j],
                    h@,
                ),
        decreases names@.len() - k,
    {
        assert(noise_headings()[k as int] == names@[k as int]@);
        if crate::text::eq_ignore_case(names[k].as_slice(), h) {
            return true;
        }
        k = k + 1;
    }
    false
}

/// A section as kept in the prose: `None` for a noise section or one with
/// nothing left after cleaning; else the trimmed heading and cleaned body.
pub open spec fn kept_section(heading: Seq<char>, body: Seq<char>) -> Option<
    (Seq<char>, Seq<char>),
> {
    let h = trim(heading);
    let c = clean_body(body);
    if is_noise_heading(h) || trim(c).len() == 0 {
        None
    } else {
        Some((h, c))
    }
}

/// The kept sections from the `k`-th on.
pub open spec fn kept_from(secs: Seq<(Seq<char>, Seq<char>)>, k: int) -> Seq<
    (Seq<char>, Seq<char>),
>
    decreases secs.len() - k,
{
    if k < 0 || k >= secs.len() {
        Seq::empty()
    } else {
        match kept_section(secs[k].0, secs[k].1) {
            Some(p) => seq![p] + kept_from(secs, k + 1),
            None => kept_from(secs, k + 1),
        }
    }
}

fn keep_section(heading: &[char], body: &[char]) -> (res: Option<(Vec<char>, Vec<char>)>)
    ensures
        match res {
            Some(p) => kept_section(heading@, body@) == Some((p.0@, p.1@)),
            None => kept_section(heading@, body@) is None,
        },
{
    let h = trimmed(heading);
    if is_noise_heading_exec(h.as_slice()) {
        return None;
    }
    let c = clean_body_exec(body);
    let (a, b) = crate::text::trim_bounds(c.as_slice(), 0, c.len());
    assert(c@.subrange(0, c@.len() as int) =~= c@);
    if a < b {
        Some((h, c))
    } else {
        None
    }
}

pub open spec fn blank_line() -> Seq<char> {
    seq!['\n', '\n']
}

/// One kept section as it is laid out. The lead section (first, without a
/// heading) is followed by a blank line; every later section is preceded by
/// one and has its heading, when it has one, on a line of its own.
pub open spec fn section_text(h: Seq<char>, body: Seq<char>, first: bool) -> Seq<char> {
    if first && h.len() == 0 {
        body + blank_line()
    } else {
        (if first {
            Seq::empty()
        } else {
            blank_line()
        }) + (if h.len() > 0 {
            h + blank_line()
        } else {
            Seq::empty()
        }) + body
    }
}

pub open spec fn layout_from(kept: Seq<(Seq<char>, Seq<char>)>, k: int) -> Seq<char>
    decreases kept.len() - k,
{
    if k < 0 || k >= kept.len() {
        Seq::empty()
    } else {
        section_text(kept[k].0, kept[k].1, k == 0) + layout_from(kept, k + 1)
    }
}

/// The readable prose of a page.
pub open spec fn clean_prose_text(w: Seq<char>) -> Seq<char> {
    let kept = kept_from(sections(strip_tables(strip_comments(w))), 0);
    if kept.len() == 0 {
        Seq::empty()
    } else {
        collapse_ws(layout_from(kept, 0))
    }
}

/// Clean wikitext into readable prose. Drops templates by name, drops
/// known-noise sections, decodes links, normalizes whitespace.
pub fn clean_prose(wikitext: &str) -> (res: String)
    ensures
        res@ == clean_prose_text(wikitext@),
{
    let w = chars_of(wikitext);
    let v = clean_prose_chars(w.as_slice());
    string_from_chars(v.as_slice())
}

pub fn clean_prose_chars(w: &[char]) -> (res: Vec<char>)
    ensures
        res@ == clean_prose_text(w@),
{
    let t1 = remove_comments(w);
    let t2 = remove_tables(t1.as_slice());
    let secs = sections_exec(t2.as_slice());
    let ghost sv = sections(t2@);
    let mut kept: Vec<(Vec<char>, Vec<char>)> = Vec::new();
    let mut k: usize = 0;
    while k < secs.len()
        invariant
            pairs_view(secs@) == sv,
            k <= secs@.len(),
            pairs_view(kept@) + kept_from(sv, k as int) == kept_from(sv, 0),
        decreases secs@.len() - k,
    {
        let ghost before = pairs_view(kept@);
        assert(sv[k as int] == (secs@[k as int].0@, secs@[k as int].1@));
        match keep_section(secs[k].0.as_slice(), secs[k].1.as_slice()) {
            Some(p) => {
                let ghost pv = (p.0@, p.1@);
                kept.push(p);
                assert(pairs_view(kept@) =~= before.push(pv));
                assert(pairs_view(kept@) + kept_from(sv, k + 1) =~= before + kept_from(
                    sv,
                    k as int,
                ));
            },
            None => {},
        }
        k = k + 1;
    }
    assert(pairs_view(kept@) =~= pairs_view(kept@) + kept_from(sv, k as int));
    let ghost kv = pairs_view(kept@);
    if kept.len() == 0 {
        return Vec::new();
    }
    let mut out: Vec<char> = Vec::new();
    let mut j: usize = 0;
    while j < kept.len()
        invariant
            pairs_view(kept@) == kv,
            j <= kept@.len(),
            out@ + layout_from(kv, j as int) == layout_from(kv, 0),
        decreases kept@.len() - j,
    {
        let ghost before = out@;
        let h = &kept[j].0;
        let body = &kept[j].1;
        assert(kv[j as int] == (h@, body@));
        if j == 0 && h.len() == 0 {
            push_all(&mut out, body.as_slice());
            out.push('\n');
            out.push('\n');
        } else {
            if j != 0 {
                out.push('\n');
                out.push('\n');
            }
            if h.len() > 0 {
                push_all(&mut out, h.as_slice());
                out.push('\n');
                out.push('\n');
            }
            push_all(&mut out, body.as_slice());
        }
        assert(out@ =~= before + section_text(h@, body@, j == 0));
        assert(out@ + layout_from(kv, j + 1) =~= before + layout_from(kv, j as int));
        j = j + 1;
    }
    assert(out@ =~= out@ + layout_from(kv, j as int));
    collapse_ws_exec(out.as_slice())
}

/// Returns a list of `(heading, body)` pairs. The first element's heading
/// is the empty string for the lead/preamble.
pub fn split_sections(wikitext: &str) -> (res: Vec<(String, String)>)
    ensures
        res@.map_values(|p: (String, String)| (p.0@, p.1@)) == sections(wikitext@),
{
    let w = chars_of(wikitext);
    let secs = sections_exec(w.as_slice());
    let mut out: Vec<(String, String)> = Vec::new();
    let mut k: usize = 0;
    while k < secs.len()
        invariant
            k <= secs@.len(),
            pairs_view(secs@) == sections(wikitext@),
            out@.map_values(|p: (String, String)| (p.0@, p.1@)) == pairs_view(secs@).take(
                k as int,
            ),
        decreases secs@.len() - k,
    {
        let h = string_from_chars(secs[k].0.as_slice());
        let b = string_from_chars(secs[k].1.as_slice());
        let ghost item = (h@, b@);
        assert(pairs_view(secs@)[k as int] == item);
        let ghost before = out@.map_values(|p: (String, String)| (p.0@, p.1@));
        out.push((h, b));
        assert(out@.map_values(|p: (String, String)| (p.0@, p.1@)) =~= before.push(item));
        assert(pairs_view(secs@).take(k + 1) =~= pairs_view(secs@).take(k as int).push(item));
        assert(out@.map_values(|p: (String, String)| (p.0@, p.1@)) =~= pairs_view(secs@).take(
            k + 1,
        ));
        k = k + 1;
    }
    assert(pairs_view(secs@).take(k as int) =~= pairs_view(secs@));
    out
}

// ---------------------------------------------------------------------------
// First paragraph
// ---------------------------------------------------------------------------

/// First index at or after `i` where a blank line separator `\n\n` starts,
/// or -1.
pub open spec fn find_blank_line(s: Seq<char>, i: int) -> int
    decreases s.len() - i,
{
    if i < 0 || i + 2 > s.len() {
        -1
    } else if occurs_at(s, blank_line(), i) {
        i
    } else {
        find_blank_line(s, i + 1)
    }
}

/// The first piece, from `start` on, of `s` split at `\n\n` that is not
/// blank, trimmed; empty when every piece is blank.
pub open spec fn first_nonblank_piece(s: Seq<char>, start: int) -> Seq<char>
    decreases s.len() - start,
{
    let j = find_blank_line(s, start);
    if 0 <= start <= j && j + 2 <= s.len() {
        let piece = trim(s.subrange(start, j));
        if piece.len() > 0 {
            piece
        } else {
            first_nonblank_piece(s, j + 2)
        }
    } else if 0 <= start <= s.len() {
        trim(s.subrange(start, s.len() as int))
    } else {
        Seq::empty()
    }
}

pub open spec fn first_paragraph_text(w: Seq<char>) -> Seq<char> {
    let secs = sections(w);
    if secs.len() == 0 {
        Seq::empty()
    } else {
        first_nonblank_piece(clean_body(secs[0].1), 0)
    }
}

fn find_blank_line_exec(s: &[char], i: usize) -> (res: Option<usize>)
    requires
        i <= s@.len(),
    ensures
        match res {
            Some(j) => j as int == find_blank_line(s@, i as int) && i <= j && j + 2 <= s@.len(),
            None => find_blank_line(s@, i as int) == -1,
        },
{
    let mut j = i;
    while j < s.len() && s.len() - j >= 2
        invariant
            i <= j <= s@.len(),
            find_blank_line(s@, j as int) == find_blank_line(s@, i as int),
        decreases s@.len() - j,
    {
        if pair_at(s, j, '\n', '\n') {
            return Some(j);
        }
        j = j + 1;
    }
    None
}

/// Extract the first paragraph of the page (used for `content` intro).
pub fn first_paragraph(wikitext: &str) -> (res: String)
    ensures
        res@ == first_paragraph_text(wikitext@),
{
    let w = chars_of(wikitext);
    let v = first_paragraph_chars(w.as_slice());
    string_from_chars(v.as_slice())
}

pub fn first_paragraph_chars(w: &[char]) -> (res: Vec<char>)
    ensures
        res@ == first_paragraph_text(w@),
{
    let secs = sections_exec(w);
    if secs.len() == 0 {
        return Vec::new();
    }
    assert(sections(w@)[0] == (secs@[0].0@, secs@[0].1@));
    let c = clean_body_exec(secs[0].1.as_slice());
    let mut start: usize = 0;
    loop
        invariant
            start <= c@.len(),
            first_nonblank_piece(c@, start as int) == first_paragraph_text(w@),
        decreases c@.len() - start,
    {
        match find_blank_line_exec(c.as_slice(), start) {
            Some(j) => {
                let (a, b) = crate::text::trim_bounds(c.as_slice(), start, j);
                if a < b {
                    return copy_range(c.as_slice(), a, b);
                }
                start = j + 2;
            },
            None => {
                let (a, b) = crate::text::trim_bounds(c.as_slice(), start, c.len());
                return copy_range(c.as_slice(), a, b);
            },
        }
    }
}

/// The prose of a page is in the normal form of collapsed whitespace: no
/// tab, no two spaces or three line breaks in a row, no whitespace at
/// either end.
pub proof fn law_clean_prose_normal(w: Seq<char>)
    ensures
        ws_normal(clean_prose_text(w)),
{
    let kept = kept_from(sections(strip_tables(strip_comments(w))), 0);
    if kept.len() > 0 {
        law_collapse_ws_normal(layout_from(kept, 0));
    }
}

proof fn lemma_find_blank_line(s: Seq<char>, i: int)
    requires
        0 <= i,
    ensures
        find_blank_line(s, i) == -1 || (i <= find_blank_line(s, i) && find_blank_line(s, i) + 2
            <= s.len() && s[find_blank_line(s, i)] == '\n'),
    decreases s.len() - i,
{
    if i + 2 <= s.len() && !occurs_at(s, blank_line(), i) {
        lemma_find_blank_line(s, i + 1);
    }
    if i + 2 <= s.len() && occurs_at(s, blank_line(), i) {
        assert(s.subrange(i, i + 2)[0] == blank_line()[0]);
    }
}

/// The first paragraph of a page is where its cleaned lead section starts:
/// a prefix of it, empty only when the cleaned lead is empty.
pub proof fn law_first_paragraph_leads(w: Seq<char>)
    requires
        sections(w).len() > 0,
    ensures
        ({
            let c = clean_body(sections(w)[0].1);
            let p = first_paragraph_text(w);
            &&& p.len() <= c.len()
            &&& p == c.take(p.len() as int)
            &&& p.len() == 0 <==> c.len() == 0
        }),
{
    let c = clean_body(sections(w)[0].1);
    law_collapse_ws_normal(strip_list_marks(
        unemphasize(decode_links(strip_tables(strip_all_templates(sections(w)[0].1)))),
    ));
    lemma_find_blank_line(c, 0);
    let j = find_blank_line(c, 0);
    if 0 <= j && j + 2 <= c.len() {
        assert(j > 0) by {
            if j == 0 {
                assert(is_ws(c[0]));
            }
        }
        let sub = c.subrange(0, j);
        crate::text::lemma_skip_ws(sub, 0);
        crate::text::lemma_skip_ws_back(sub, j);
        assert(sub[0] == c[0]);
        assert(skip_ws(sub, 0) == 0);
        let b = skip_ws_back(sub, j);
        if b == 0 {
            assert(is_ws(sub[0]));
        }
        assert(trim(sub) =~= c.take(b));
    } else {
        crate::text::lemma_skip_ws(c, 0);
        crate::text::lemma_skip_ws_back(c, c.len() as int);
        if c.len() > 0 {
            assert(skip_ws(c, 0) == 0);
            assert(skip_ws_back(c, c.len() as int) == c.len());
        }
        assert(c.subrange(0, c.len() as int) =~= c);
        assert(trim(c) =~= c);
        assert(c.take(c.len() as int) =~= c);
    }
}

} // verus!
