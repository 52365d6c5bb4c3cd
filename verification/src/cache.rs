//! The on-disk page cache: its index and file names.
//!
//! The cache directory holds one JSON file per fetched page and an index
//! file, `index.txt`, with one line per title: the title, a tab, the path
//! of the page's file, a tab, and the page's revision id.

use vstd::prelude::*;

use crate::text::{
    chars_of, copy_range, decimal, find_char, find_char_exec, is_digit, lemma_decimal_digits,
    lemma_find_char, lemma_parse_decimal, parse_u64, parse_u64_exec, push_all, push_decimal,
    same_chars, string_from_chars,
};
use crate::wikitext::{line_end, lines, lines_from, lines_view, split_lines};

verus! {

// ---------------------------------------------------------------------------
// File names
// ---------------------------------------------------------------------------

pub open spec fn is_safe_char(c: char) -> bool {
    ('0' <= c && c <= '9') || ('A' <= c && c <= 'Z') || ('a' <= c && c <= 'z') || c == '-' || c
        == '_'
}

/// Every character that is not an ASCII letter, digit, `-` or `_` becomes `_`.
pub open spec fn sanitized(s: Seq<char>) -> Seq<char> {
    s.map_values(|c: char| if is_safe_char(c) { c } else { '_' })
}

/// A title as a file-name stem.
pub fn sanitize(s: &str) -> (res: String)
    ensures
        res@ == sanitized(s@),
{
    let v = chars_of(s);
    let mut out: Vec<char> = Vec::new();
    let mut i: usize = 0;
    while i < v.len()
        invariant
            i <= v@.len(),
            v@ == s@,
            out@ == sanitized(v@.take(i as int)),
        decreases v@.len() - i,
    {
        let c = v[i];
        let keep = ('0' <= c && c <= '9') || ('A' <= c && c <= 'Z') || ('a' <= c && c <= 'z') || c
            == '-' || c == '_';
        let d = if keep { c } else { '_' };
        out.push(d);
        assert(sanitized(v@.take(i + 1)) =~= sanitized(v@.take(i as int)).push(d));
        i = i + 1;
    }
    assert(v@.take(i as int) =~= v@);
    string_from_chars(out.as_slice())
}

/// The file name of a cached page: the sanitized title, `-`, the revision
/// id, and `.json`.
pub open spec fn cache_file_name_text(title: Seq<char>, revid: u64) -> Seq<char> {
    sanitized(title) + seq!['-'] + decimal(revid as nat) + ".json"@
}

pub fn cache_file_name(title: &str, revid: u64) -> (res: String)
    ensures
        res@ == cache_file_name_text(title@, revid),
{
    let s = sanitize(title);
    let mut v = chars_of(s.as_str());
    v.push('-');
    push_decimal(&mut v, revid);
    let ext = chars_of(".json");
    push_all(&mut v, ext.as_slice());
    string_from_chars(v.as_slice())
}

// ---------------------------------------------------------------------------
// The index
// ---------------------------------------------------------------------------

/// Where a title's cached page lies, and the revision it holds.
pub struct CacheEntry {
    pub title: String,
    pub path: String,
    pub revid: u64,
}

pub open spec fn rows_view(v: Seq<CacheEntry>) -> Seq<(Seq<char>, Seq<char>, u64)> {
    v.map_values(|e: CacheEntry| (e.title@, e.path@, e.revid))
}

/// No title occurs twice.
pub open spec fn titles_unique(r: Seq<(Seq<char>, Seq<char>, u64)>) -> bool {
    forall|i: int, j: int| 0 <= i < j < r.len() ==> (#[trigger] r[i]).0 != (#[trigger] r[j]).0
}

/// The index as a map from title to (path, revision).
pub open spec fn rows_map(r: Seq<(Seq<char>, Seq<char>, u64)>) -> Map<Seq<char>, (Seq<char>, u64)> {
    Map::new(
        |t: Seq<char>| exists|i: int| 0 <= i < r.len() && (#[trigger] r[i]).0 == t,
        |t: Seq<char>|
            {
                let i = choose|i: int| 0 <= i < r.len() && (#[trigger] r[i]).0 == t;
                (r[i].1, r[i].2)
            },
    )
}

/// The cache index: for each title, the file holding its page and the
/// revision id.
pub struct CacheIndex {
    entries: Vec<CacheEntry>,
}

impl CacheIndex {
    pub closed spec fn rows(&self) -> Seq<(Seq<char>, Seq<char>, u64)> {
        rows_view(self.entries@)
    }

    /// No title is recorded twice.
    #[verifier::type_invariant]
    closed spec fn inv(&self) -> bool {
        titles_unique(self.rows())
    }

    pub open spec fn view(&self) -> Map<Seq<char>, (Seq<char>, u64)> {
        rows_map(self.rows())
    }

    pub fn new() -> (res: Self)
        ensures
            res.view() == Map::<Seq<char>, (Seq<char>, u64)>::empty(),
    {
        let res = CacheIndex { entries: Vec::new() };
        assert(res.rows() =~= Seq::<(Seq<char>, Seq<char>, u64)>::empty());
        assert(res.view() =~= Map::<Seq<char>, (Seq<char>, u64)>::empty());
        res
    }

    /// Number of titles in the index.
    pub fn len(&self) -> (res: usize)
        ensures
            res == self.rows().len(),
    {
        self.entries.len()
    }

    fn position(&self, title: &[char]) -> (res: Option<usize>)
        ensures
            match res {
                Some(i) => i < self.rows().len() && self.rows()[i as int].0 == title@,
                None => forall|i: int| 0 <= i < self.rows().len() ==> self.rows()[i].0 != title@,
            },
    {
        let mut i: usize = 0;
        while i < self.entries.len()
            invariant
                i <= self.entries@.len(),
                forall|k: int| 0 <= k < i ==> self.rows()[k].0 != title@,
            decreases self.entries@.len() - i,
        {
            let t = chars_of(self.entries[i].title.as_str());
            if same_chars(t.as_slice(), title) {
                return Some(i);
            }
            i = i + 1;
        }
        None
    }

    /// The path and revision recorded for `title`.
    pub fn lookup(&self, title: &str) -> (res: Option<(String, u64)>)
        ensures
            match res {
                Some((p, r)) => self.view().contains_key(title@) && self.view()[title@] == (
                p@,
                r,
                ),
                None => !self.view().contains_key(title@),
            },
    {
        proof {
            use_type_invariant(self);
        }
        let t = chars_of(title);
        match self.position(t.as_slice()) {
            Some(i) => {
                proof {
                    let r = self.rows();
                    assert(r[i as int].0 == title@);
                    let j = choose|j: int| 0 <= j < r.len() && (#[trigger] r[j]).0 == title@;
                    if j != i {
                        if j < i {
                            assert(r[j].0 != r[i as int].0);
                        } else {
                            assert(r[i as int].0 != r[j].0);
                        }
                    }
                }
                Some((self.entries[i].path.clone(), self.entries[i].revid))
            },
            None => None,
        }
    }

    /// Records that `title`'s page lies at `path` with revision `revid`,
    /// replacing what was recorded for it.
    pub fn record(&mut self, title: String, path: String, revid: u64)
        ensures
            final(self).view() == old(self).view().insert(title@, (path@, revid)),
    {
        proof {
            use_type_invariant(&*self);
        }
        let t = chars_of(title.as_str());
        let ghost r0 = self.rows();
        let ghost item = (title@, path@, revid);
        let found = self.position(t.as_slice());
        let mut es: Vec<CacheEntry> = Vec::new();
        std::mem::swap(&mut es, &mut self.entries);
        assert(rows_view(es@) == r0);
        match found {
            Some(i) => {
                es.set(i, CacheEntry { title, path, revid });
                let ghost r1 = rows_view(es@);
                assert(r1 =~= r0.update(i as int, item));
                assert forall|a: int, b: int| 0 <= a < b < r1.len() implies (#[trigger] r1[a]).0
                    != (#[trigger] r1[b]).0 by {
                    if a == i {
                        assert(r0[b].0 != r0[i as int].0);
                    } else if b == i {
                        assert(r0[a].0 != r0[i as int].0);
                    } else {
                        assert(r0[a].0 != r0[b].0);
                    }
                }
                assert forall|k: Seq<char>|
                    #![trigger rows_map(r1).contains_key(k)]
                    rows_map(r1).contains_key(k) == rows_map(r0).insert(item.0, (item.1, item.2)).contains_key(k) by {
                    if k == item.0 {
                        assert(r1[i as int].0 == k);
                    } else if rows_map(r0).contains_key(k) {
                        let j = choose|j: int| 0 <= j < r0.len() && (#[trigger] r0[j]).0 == k;
                        assert(r1[j].0 == k);
                    } else if rows_map(r1).contains_key(k) {
                        let j = choose|j: int| 0 <= j < r1.len() && (#[trigger] r1[j]).0 == k;
                        assert(r0[j].0 == k);
                    }
                }
                assert forall|k: Seq<char>| #[trigger] rows_map(r1).contains_key(k) implies rows_map(
                    r1,
                )[k] == rows_map(r0).insert(item.0, (item.1, item.2))[k] by {
                    let j1 = choose|j: int| 0 <= j < r1.len() && (#[trigger] r1[j]).0 == k;
                    if k == item.0 {
                        if j1 != i {
                            if j1 < i {
                                assert(r1[j1].0 != r1[i as int].0);
                            } else {
                                assert(r1[i as int].0 != r1[j1].0);
                            }
                        }
                    } else {
                        let j0 = choose|j: int| 0 <= j < r0.len() && (#[trigger] r0[j]).0 == k;
                        assert(r1[j0].0 == k);
                        if j0 != j1 {
                            if j0 < j1 {
                                assert(r1[j0].0 != r1[j1].0);
                            } else {
                                assert(r1[j1].0 != r1[j0].0);
                            }
                        }
                    }
                }
                assert(rows_map(r1) =~= rows_map(r0).insert(item.0, (item.1, item.2)));
                self.entries = es;
            },
            None => {
                es.push(CacheEntry { title, path, revid });
                let ghost r1 = rows_view(es@);
                assert(r1 =~= r0.push(item));
                assert forall|a: int, b: int| 0 <= a < b < r1.len() implies (#[trigger] r1[a]).0
                    != (#[trigger] r1[b]).0 by {
                    if b == r0.len() {
                        assert(r0[a].0 != item.0);
                    } else {
                        assert(r0[a].0 != r0[b].0);
                    }
                }
                proof {
                    lemma_rows_map_push(r0, item);
                }
                self.entries = es;
            },
        }
    }
}


// ---------------------------------------------------------------------------
// The index as text
// ---------------------------------------------------------------------------

/// One line of the index file, without its line break.
pub open spec fn row_line(row: (Seq<char>, Seq<char>, u64)) -> Seq<char> {
    row.0 + seq!['\t'] + row.1 + seq!['\t'] + decimal(row.2 as nat)
}

/// The text of the index file: one line per row, each ended by `\n`.
pub open spec fn index_text(rows: Seq<(Seq<char>, Seq<char>, u64)>) -> Seq<char>
    decreases rows.len(),
{
    if rows.len() == 0 {
        Seq::empty()
    } else {
        row_line(rows[0]) + seq!['\n'] + index_text(rows.drop_first())
    }
}

/// A line of the index file read back: the text up to the first tab is the
/// title, the text up to the next tab the path, and the rest must be a
/// revision id; any other line is skipped.
pub open spec fn parse_index_line(l: Seq<char>) -> Option<(Seq<char>, Seq<char>, u64)> {
    let a = find_char(l, '\t', 0);
    if a >= l.len() {
        None
    } else {
        let rest = l.subrange(a + 1, l.len() as int);
        let b = find_char(rest, '\t', 0);
        if b >= rest.len() {
            None
        } else {
            match parse_u64(rest.subrange(b + 1, rest.len() as int)) {
                Some(r) => Some((l.subrange(0, a), rest.subrange(0, b), r)),
                None => None,
            }
        }
    }
}

/// The index that a sequence of lines describes; a later line for a title
/// replaces an earlier one.
pub open spec fn index_of_lines(ls: Seq<Seq<char>>) -> Map<Seq<char>, (Seq<char>, u64)>
    decreases ls.len(),
{
    if ls.len() == 0 {
        Map::empty()
    } else {
        let m = index_of_lines(ls.drop_last());
        match parse_index_line(ls.last()) {
            Some(e) => m.insert(e.0, (e.1, e.2)),
            None => m,
        }
    }
}

/// The index that the text of an index file describes.
pub open spec fn parse_index(text: Seq<char>) -> Map<Seq<char>, (Seq<char>, u64)> {
    index_of_lines(lines(text))
}

/// Neither a tab nor a line break occurs in `s`.
pub open spec fn free_of_separators(s: Seq<char>) -> bool {
    forall|k: int| 0 <= k < s.len() ==> #[trigger] s[k] != '\t' && s[k] != '\n'
}

/// Every title and path of the rows is free of tabs and line breaks.
pub open spec fn rows_writable(rows: Seq<(Seq<char>, Seq<char>, u64)>) -> bool {
    forall|i: int|
        0 <= i < rows.len() ==> free_of_separators(#[trigger] rows[i].0) && free_of_separators(
            rows[i].1,
        )
}

fn parse_index_line_exec(l: &[char]) -> (res: Option<(Vec<char>, Vec<char>, u64)>)
    ensures
        match res {
            Some((t, p, r)) => parse_index_line(l@) == Some((t@, p@, r)),
            None => parse_index_line(l@) is None,
        },
{
    let a = find_char_exec(l, '\t', 0);
    if a >= l.len() {
        return None;
    }
    let rest = copy_range(l, a + 1, l.len());
    let b = find_char_exec(rest.as_slice(), '\t', 0);
    if b >= rest.len() {
        return None;
    }
    let num = copy_range(rest.as_slice(), b + 1, rest.len());
    match parse_u64_exec(num.as_slice()) {
        Some(r) => Some((copy_range(l, 0, a), copy_range(rest.as_slice(), 0, b), r)),
        None => None,
    }
}

proof fn lemma_rows_map_push(r: Seq<(Seq<char>, Seq<char>, u64)>, item: (Seq<char>, Seq<char>, u64))
    requires
        titles_unique(r.push(item)),
    ensures
        rows_map(r.push(item)) == rows_map(r).insert(item.0, (item.1, item.2)),
{
    let r1 = r.push(item);
    assert forall|k: Seq<char>|
        #![trigger rows_map(r1).contains_key(k)]
        rows_map(r1).contains_key(k) == rows_map(r).insert(item.0, (item.1, item.2)).contains_key(
            k,
        ) by {
        if k == item.0 {
            assert(r1[r.len() as int].0 == k);
        } else if rows_map(r).contains_key(k) {
            let j = choose|j: int| 0 <= j < r.len() && (#[trigger] r[j]).0 == k;
            assert(r1[j].0 == k);
        } else if rows_map(r1).contains_key(k) {
            let j = choose|j: int| 0 <= j < r1.len() && (#[trigger] r1[j]).0 == k;
            assert(r[j].0 == k);
        }
    }
    assert forall|k: Seq<char>| #[trigger] rows_map(r1).contains_key(k) implies rows_map(r1)[k]
        == rows_map(r).insert(item.0, (item.1, item.2))[k] by {
        let j1 = choose|j: int| 0 <= j < r1.len() && (#[trigger] r1[j]).0 == k;
        if k == item.0 {
            if j1 != r.len() {
                assert(r1[j1].0 != r1[r.len() as int].0);
            }
        } else {
            let j0 = choose|j: int| 0 <= j < r.len() && (#[trigger] r[j]).0 == k;
            assert(r1[j0].0 == k);
            if j0 != j1 {
                if j0 < j1 {
                    assert(r1[j0].0 != r1[j1].0);
                } else {
                    assert(r1[j1].0 != r1[j0].0);
                }
            }
        }
    }
    assert(rows_map(r1) =~= rows_map(r).insert(item.0, (item.1, item.2)));
}

proof fn lemma_line_end_shift(p: Seq<char>, q: Seq<char>, j: int)
    requires
        0 <= j <= q.len(),
    ensures
        line_end(p + q, p.len() + j) == p.len() + line_end(q, j),
    decreases q.len() - j,
{
    if j < q.len() && q[j] != '\n' {
        lemma_line_end_shift(p, q, j + 1);
    }
}

proof fn lemma_lines_shift(p: Seq<char>, q: Seq<char>, j: int)
    requires
        0 <= j <= q.len(),
    ensures
        lines_from(p + q, p.len() + j) == lines_from(q, j),
    decreases q.len() - j,
{
    if j < q.len() {
        let s = p + q;
        lemma_line_end_shift(p, q, j);
        crate::wikitext::lemma_line_end(q, j);
        let e = line_end(q, j);
        if e < q.len() {
            lemma_lines_shift(p, q, e + 1);
            assert(s.subrange(p.len() + j, p.len() + e) =~= q.subrange(j, e));
            if e > j {
                assert(s.subrange(p.len() + j, p.len() + e - 1) =~= q.subrange(j, e - 1));
            }
        } else {
            assert(s.subrange(p.len() + j, s.len() as int) =~= q.subrange(j, q.len() as int));
        }
    }
}

proof fn lemma_line_end_upto(x: Seq<char>, y: Seq<char>, i: int)
    requires
        0 <= i <= x.len(),
        forall|k: int| 0 <= k < x.len() ==> #[trigger] x[k] != '\n',
    ensures
        line_end(x + seq!['\n'] + y, i) == x.len(),
    decreases x.len() - i,
{
    if i < x.len() {
        lemma_line_end_upto(x, y, i + 1);
    }
}

/// A line without a line break, not ending in `\r`, followed by `\n`, is
/// read back as itself.
proof fn lemma_lines_cons(x: Seq<char>, y: Seq<char>)
    requires
        forall|k: int| 0 <= k < x.len() ==> #[trigger] x[k] != '\n',
        x.len() > 0 ==> x.last() != '\r',
    ensures
        lines(x + seq!['\n'] + y) == seq![x] + lines(y),
{
    let s = x + seq!['\n'] + y;
    lemma_line_end_upto(x, y, 0);
    assert(s.subrange(0, x.len() as int) =~= x);
    lemma_lines_shift(x + seq!['\n'], y, 0);
    assert(s =~= (x + seq!['\n']) + y);
}

proof fn lemma_row_line_shape(row: (Seq<char>, Seq<char>, u64))
    requires
        free_of_separators(row.0),
        free_of_separators(row.1),
    ensures
        forall|k: int| 0 <= k < row_line(row).len() ==> #[trigger] row_line(row)[k] != '\n',
        row_line(row).len() > 0,
        row_line(row).last() != '\r',
        parse_index_line(row_line(row)) == Some(row),
{
    let l = row_line(row);
    let d = decimal(row.2 as nat);
    lemma_decimal_digits(row.2 as nat);
    assert forall|k: int| 0 <= k < l.len() implies #[trigger] l[k] != '\n' by {
        if k < row.0.len() {
            assert(l[k] == row.0[k]);
        } else if k == row.0.len() {
        } else if k < row.0.len() + 1 + row.1.len() {
            assert(l[k] == row.1[k - row.0.len() - 1]);
        } else if k == row.0.len() + 1 + row.1.len() {
        } else {
            assert(l[k] == d[k - row.0.len() - 2 - row.1.len()]);
            assert(is_digit(d[k - row.0.len() - 2 - row.1.len()]));
        }
    }
    assert(l.last() == d.last());
    assert(is_digit(d[d.len() - 1]));
    // The first tab ends the title.
    lemma_find_char(l, '\t', 0);
    let a = find_char(l, '\t', 0);
    assert(l[row.0.len() as int] == '\t');
    if a != row.0.len() {
        if a < row.0.len() {
            assert(l[a] == row.0[a]);
        }
    }
    let rest = l.subrange(a + 1, l.len() as int);
    assert(rest =~= row.1 + seq!['\t'] + d);
    lemma_find_char(rest, '\t', 0);
    let b = find_char(rest, '\t', 0);
    assert(rest[row.1.len() as int] == '\t');
    if b != row.1.len() {
        if b < row.1.len() {
            assert(rest[b] == row.1[b]);
        }
    }
    assert(rest.subrange(b + 1, rest.len() as int) =~= d);
    lemma_parse_decimal(row.2);
    assert(l.subrange(0, a) =~= row.0);
    assert(rest.subrange(0, b) =~= row.1);
}

proof fn lemma_lines_of_index_text(rows: Seq<(Seq<char>, Seq<char>, u64)>)
    requires
        rows_writable(rows),
    ensures
        lines(index_text(rows)) == rows.map_values(|r: (Seq<char>, Seq<char>, u64)| row_line(r)),
    decreases rows.len(),
{
    if rows.len() == 0 {
        assert(lines(index_text(rows)) =~= Seq::<Seq<char>>::empty());
        assert(rows.map_values(|r: (Seq<char>, Seq<char>, u64)| row_line(r)) =~= Seq::<
            Seq<char>,
        >::empty());
    } else {
        let rest = rows.drop_first();
        assert forall|i: int| 0 <= i < rest.len() implies free_of_separators(
            #[trigger] rest[i].0,
        ) && free_of_separators(rest[i].1) by {
            assert(rest[i] == rows[i + 1]);
        }
        lemma_lines_of_index_text(rest);
        assert(free_of_separators(rows[0].0) && free_of_separators(rows[0].1));
        lemma_row_line_shape(rows[0]);
        lemma_lines_cons(row_line(rows[0]), index_text(rest));
        assert(rows.map_values(|r: (Seq<char>, Seq<char>, u64)| row_line(r)) =~= seq![
            row_line(rows[0]),
        ] + rest.map_values(|r: (Seq<char>, Seq<char>, u64)| row_line(r)));
    }
}

proof fn lemma_index_of_row_lines(rows: Seq<(Seq<char>, Seq<char>, u64)>)
    requires
        rows_writable(rows),
        titles_unique(rows),
    ensures
        index_of_lines(rows.map_values(|r: (Seq<char>, Seq<char>, u64)| row_line(r)))
            == rows_map(rows),
    decreases rows.len(),
{
    let ls = rows.map_values(|r: (Seq<char>, Seq<char>, u64)| row_line(r));
    if rows.len() == 0 {
        assert(rows_map(rows) =~= Map::<Seq<char>, (Seq<char>, u64)>::empty());
    } else {
        let init = rows.drop_last();
        assert(ls.drop_last() =~= init.map_values(|r: (Seq<char>, Seq<char>, u64)| row_line(r)));
        assert forall|i: int| 0 <= i < init.len() implies free_of_separators(
            #[trigger] init[i].0,
        ) && free_of_separators(init[i].1) by {
            assert(init[i] == rows[i]);
        }
        assert forall|i: int, j: int| 0 <= i < j < init.len() implies (#[trigger] init[i]).0
            != (#[trigger] init[j]).0 by {
            assert(init[i] == rows[i] && init[j] == rows[j]);
        }
        lemma_index_of_row_lines(init);
        let last = rows.last();
        assert(free_of_separators(rows[rows.len() - 1].0));
        lemma_row_line_shape(last);
        assert(ls.last() == row_line(last));
        assert(rows =~= init.push(last));
        lemma_rows_map_push(init, last);
    }
}

/// The index file is read back as the index it was written from, as long
/// as no title or path holds a tab or a line break.
pub proof fn law_index_text_round_trip(rows: Seq<(Seq<char>, Seq<char>, u64)>)
    requires
        titles_unique(rows),
        rows_writable(rows),
    ensures
        parse_index(index_text(rows)) == rows_map(rows),
{
    lemma_lines_of_index_text(rows);
    lemma_index_of_row_lines(rows);
}

impl CacheIndex {
    /// The index that the text of an index file describes.
    pub fn from_text(text: &str) -> (res: Self)
        ensures
            res.view() == parse_index(text@),
    {
        let chars = chars_of(text);
        let ls = split_lines(chars.as_slice());
        let mut idx = CacheIndex::new();
        let mut i: usize = 0;
        while i < ls.len()
            invariant
                i <= ls@.len(),
                lines_view(ls@) == lines(text@),
                idx.view() == index_of_lines(lines_view(ls@).take(i as int)),
            decreases ls@.len() - i,
        {
            let ghost taken = lines_view(ls@).take(i + 1);
            assert(taken.drop_last() =~= lines_view(ls@).take(i as int));
            assert(taken.last() == ls@[i as int]@);
            match parse_index_line_exec(ls[i].as_slice()) {
                Some((t, p, r)) => {
                    let title = string_from_chars(t.as_slice());
                    let path = string_from_chars(p.as_slice());
                    idx.record(title, path, r);
                },
                None => {},
            }
            i = i + 1;
        }
        assert(lines_view(ls@).take(i as int) =~= lines_view(ls@));
        idx
    }

    /// The text of the index file: one line per title, with its path and
    /// revision id, each separated by a tab.
    pub fn to_text(&self) -> (res: String)
        ensures
            res@ == index_text(self.rows()),
    {
        let mut out: Vec<char> = Vec::new();
        let mut i: usize = 0;
        assert(self.rows().skip(0) =~= self.rows());
        assert(out@ + index_text(self.rows()) =~= index_text(self.rows()));
        while i < self.entries.len()
            invariant
                i <= self.entries@.len(),
                out@ + index_text(self.rows().skip(i as int)) == index_text(self.rows()),
            decreases self.entries@.len() - i,
        {
            let ghost rest = self.rows().skip(i as int);
            assert(rest.drop_first() =~= self.rows().skip(i + 1));
            assert(rest[0] == self.rows()[i as int]);
            let e = &self.entries[i];
            let t = chars_of(e.title.as_str());
            push_all(&mut out, t.as_slice());
            out.push('\t');
            let p = chars_of(e.path.as_str());
            push_all(&mut out, p.as_slice());
            out.push('\t');
            push_decimal(&mut out, e.revid);
            out.push('\n');
            i = i + 1;
        }
        assert(self.rows().skip(i as int) =~= Seq::<(Seq<char>, Seq<char>, u64)>::empty());
        string_from_chars(out.as_slice())
    }
}


// ---------------------------------------------------------------------------
// The cache
// ---------------------------------------------------------------------------

/// `dir` joined with the relative path `name`, with `/` as the separator:
/// a separator is put between them unless `dir` is empty or already ends
/// with one.
pub open spec fn join_path(dir: Seq<char>, name: Seq<char>) -> Seq<char> {
    if dir.len() == 0 {
        name
    } else if dir.last() == '/' {
        dir + name
    } else {
        dir + seq!['/'] + name
    }
}

pub fn join(dir: &str, name: &str) -> (res: String)
    ensures
        res@ == join_path(dir@, name@),
{
    let mut v = chars_of(dir);
    let n = chars_of(name);
    if v.len() > 0 && v[v.len() - 1] != '/' {
        v.push('/');
    }
    push_all(&mut v, n.as_slice());
    string_from_chars(v.as_slice())
}

/// The name of the index file in the cache directory.
pub open spec fn index_file_name() -> Seq<char> {
    "index.txt"@
}

/// The page cache: a directory of JSON files, one per page, and the index
/// that says which file holds which title.
pub struct Cache {
    dir: String,
    index: CacheIndex,
}

impl Cache {
    pub closed spec fn dir_view(&self) -> Seq<char> {
        self.dir@
    }

    /// For each title, the path of its file and the revision it holds.
    pub closed spec fn index_view(&self) -> Map<Seq<char>, (Seq<char>, u64)> {
        self.index.view()
    }

    pub closed spec fn rows(&self) -> Seq<(Seq<char>, Seq<char>, u64)> {
        self.index.rows()
    }

    /// The cache in `dir`, with the index read from the text of its index
    /// file (empty text where there is none yet).
    pub fn from_index_text(dir: String, index_text: &str) -> (res: Self)
        ensures
            res.dir_view() == dir@,
            res.index_view() == parse_index(index_text@),
    {
        Cache { dir, index: CacheIndex::from_text(index_text) }
    }

    pub fn dir(&self) -> (res: &str)
        ensures
            res@ == self.dir_view(),
    {
        self.dir.as_str()
    }

    /// The path of the index file.
    pub fn index_path(&self) -> (res: String)
        ensures
            res@ == join_path(self.dir_view(), index_file_name()),
    {
        proof {
            reveal_strlit("index.txt");
        }
        join(self.dir.as_str(), "index.txt")
    }

    /// The file that holds the cached page of `title`, if the index has one.
    pub fn page_path(&self, title: &str) -> (res: Option<String>)
        ensures
            match res {
                Some(p) => page_path_of(*self, title@) == Some(p@),
                None => page_path_of(*self, title@) is None,
            },
    {
        match self.index.lookup(title) {
            Some((p, _r)) => Some(p),
            None => None,
        }
    }

    /// Where the page of `title` at revision `revid` is written.
    pub fn file_path(&self, title: &str, revid: u64) -> (res: String)
        ensures
            res@ == join_path(self.dir_view(), cache_file_name_text(title@, revid)),
    {
        let name = cache_file_name(title, revid);
        join(self.dir.as_str(), name.as_str())
    }

    /// Records in the index that the page of `title` at revision `revid`
    /// was written to `path`.
    pub fn record(&mut self, title: &str, path: String, revid: u64)
        ensures
            recorded(*old(self), *final(self), title@, path@, revid),
    {
        let t = chars_of(title);
        let owned = string_from_chars(t.as_slice());
        self.index.record(owned, path, revid);
    }

    /// The text of the index file.
    pub fn index_text(&self) -> (res: String)
        ensures
            res@ == index_text(self.rows()),
            rows_map(self.rows()) == self.index_view(),
            titles_unique(self.rows()),
    {
        proof {
            use_type_invariant(&self.index);
        }
        self.index.to_text()
    }
}

/// The file that the cache's index gives for `title`, if any.
pub open spec fn page_path_of(c: Cache, title: Seq<char>) -> Option<Seq<char>> {
    if c.index_view().contains_key(title) {
        Some(c.index_view()[title].0)
    } else {
        None
    }
}

/// What `Cache::record` does: `after` is `before` with `title` written
/// down as lying at `path` at revision `revid`, in the same directory.
pub open spec fn recorded(
    before: Cache,
    after: Cache,
    title: Seq<char>,
    path: Seq<char>,
    revid: u64,
) -> bool {
    &&& after.dir_view() == before.dir_view()
    &&& after.index_view() == before.index_view().insert(title, (path, revid))
}

/// After `record` writes down where a title's page lies, `page_path` gives
/// that path for the title, every other title gets what it got before,
/// and the directory is unchanged.
pub proof fn law_record_then_lookup(
    before: Cache,
    after: Cache,
    title: Seq<char>,
    path: Seq<char>,
    revid: u64,
    other: Seq<char>,
)
    requires
        recorded(before, after, title, path, revid),
    ensures
        page_path_of(after, title) == Some(path),
        other != title ==> page_path_of(after, other) == page_path_of(before, other),
        after.dir_view() == before.dir_view(),
{
}

/// What `index_text` writes, `from_index_text` reads back as the same
/// index, as long as no title or path holds a tab or a line break.
pub proof fn law_cache_index_persists(c: &Cache)
    requires
        titles_unique(c.rows()),
        rows_writable(c.rows()),
    ensures
        parse_index(index_text(c.rows())) == c.index_view(),
{
    law_index_text_round_trip(c.rows());
}

/// A page recorded in the cache is found again at the same path once the
/// index has been written out and read back, as long as no title or path
/// holds a tab or a line break.
pub proof fn law_recorded_page_survives_reload(
    before: Cache,
    after: Cache,
    title: Seq<char>,
    path: Seq<char>,
    revid: u64,
)
    requires
        recorded(before, after, title, path, revid),
        titles_unique(after.rows()),
        rows_writable(after.rows()),
    ensures
        parse_index(index_text(after.rows())).contains_key(title),
        parse_index(index_text(after.rows()))[title] == (path, revid),
{
    law_cache_index_persists(&after);
}

} // verus!
