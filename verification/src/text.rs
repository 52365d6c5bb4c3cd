//! Character-level helpers shared by the wikitext and extraction code.
//!
//! Text is handled as sequences of Unicode scalar values (`Seq<char>`), the
//! view that Verus gives to `str` and `String`.

use vstd::prelude::*;

verus! {

// ---------------------------------------------------------------------------
// Whitespace
// ---------------------------------------------------------------------------

/// Unicode `White_Space`: the set that `char::is_whitespace`, `str::trim`
/// and the `\s` class of regular expressions all use.
pub open spec fn is_ws(c: char) -> bool {
    let u = c as u32;
    ||| 0x09 <= u <= 0x0d
    ||| u == 0x20
    ||| u == 0x85
    ||| u == 0xa0
    ||| u == 0x1680
    ||| 0x2000 <= u <= 0x200a
    ||| u == 0x2028
    ||| u == 0x2029
    ||| u == 0x202f
    ||| u == 0x205f
    ||| u == 0x3000
}

pub fn char_is_ws(c: char) -> (res: bool)
    ensures
        res == is_ws(c),
{
    let u = c as u32;
    (0x09 <= u && u <= 0x0d) || u == 0x20 || u == 0x85 || u == 0xa0 || u == 0x1680 || (0x2000
        <= u && u <= 0x200a) || u == 0x2028 || u == 0x2029 || u == 0x202f || u == 0x205f || u
        == 0x3000
}

/// Index of the first non-whitespace character at or after `i` (or the length).
pub open spec fn skip_ws(s: Seq<char>, i: int) -> int
    decreases s.len() - i,
{
    if i < 0 || i >= s.len() {
        if i < 0 { 0 } else { s.len() as int }
    } else if is_ws(s[i]) {
        skip_ws(s, i + 1)
    } else {
        i
    }
}

/// One past the last non-whitespace character before `j` (or 0).
pub open spec fn skip_ws_back(s: Seq<char>, j: int) -> int
    decreases j,
{
    if j <= 0 {
        0
    } else if j > s.len() {
        skip_ws_back(s, s.len() as int)
    } else if is_ws(s[j - 1]) {
        skip_ws_back(s, j - 1)
    } else {
        j
    }
}

/// `str::trim`: the text without leading and trailing whitespace.
pub open spec fn trim(s: Seq<char>) -> Seq<char> {
    let a = skip_ws(s, 0);
    let b = skip_ws_back(s, s.len() as int);
    if a < b {
        s.subrange(a, b)
    } else {
        Seq::empty()
    }
}

pub proof fn lemma_skip_ws(s: Seq<char>, i: int)
    requires
        0 <= i <= s.len(),
    ensures
        i <= skip_ws(s, i) <= s.len(),
        forall|k: int| i <= k < skip_ws(s, i) ==> is_ws(#[trigger] s[k]),
        skip_ws(s, i) < s.len() ==> !is_ws(s[skip_ws(s, i)]),
    decreases s.len() - i,
{
    if i < s.len() && is_ws(s[i]) {
        lemma_skip_ws(s, i + 1);
    }
}

pub proof fn lemma_skip_ws_back(s: Seq<char>, j: int)
    requires
        0 <= j <= s.len(),
    ensures
        0 <= skip_ws_back(s, j) <= j,
        forall|k: int| skip_ws_back(s, j) <= k < j ==> is_ws(#[trigger] s[k]),
        skip_ws_back(s, j) > 0 ==> !is_ws(s[skip_ws_back(s, j) - 1]),
    decreases j,
{
    if j > 0 && is_ws(s[j - 1]) {
        lemma_skip_ws_back(s, j - 1);
    }
}

/// `trim` leaves no whitespace at either end.
pub proof fn lemma_trim_ends(s: Seq<char>)
    ensures
        trim(s).len() > 0 ==> !is_ws(trim(s)[0]) && !is_ws(trim(s)[trim(s).len() - 1]),
        trim(s).len() <= s.len(),
{
    lemma_skip_ws(s, 0);
    lemma_skip_ws_back(s, s.len() as int);
}

/// Trimming twice is the same as trimming once.
pub proof fn lemma_trim_idempotent(s: Seq<char>)
    ensures
        trim(trim(s)) == trim(s),
{
    let t = trim(s);
    lemma_trim_ends(s);
    lemma_skip_ws(t, 0);
    lemma_skip_ws_back(t, t.len() as int);
    if t.len() > 0 {
        assert(skip_ws(t, 0) == 0);
        assert(skip_ws_back(t, t.len() as int) == t.len());
        assert(trim(t) =~= t);
    } else {
        assert(trim(t) =~= t);
    }
}

/// Bounds `[a, b)` of the trimmed part of `s[lo..hi]`, as indices into `s`.
pub fn trim_bounds(s: &[char], lo: usize, hi: usize) -> (res: (usize, usize))
    requires
        lo <= hi <= s@.len(),
    ensures
        lo <= res.0 <= res.1 <= hi,
        s@.subrange(res.0 as int, res.1 as int) == trim(s@.subrange(lo as int, hi as int)),
{
    let ghost t = s@.subrange(lo as int, hi as int);
    let mut a = lo;
    while a < hi && char_is_ws(s[a])
        invariant
            lo <= a <= hi <= s@.len(),
            t == s@.subrange(lo as int, hi as int),
            skip_ws(t, (a - lo) as int) == skip_ws(t, 0),
        decreases hi - a,
    {
        assert(t[(a - lo) as int] == s@[a as int]);
        a = a + 1;
    }
    proof {
        if a < hi {
            assert(t[(a - lo) as int] == s@[a as int]);
        }
        assert(skip_ws(t, (a - lo) as int) == (a - lo));
    }
    if a == hi {
        proof {
            lemma_skip_ws_back(t, t.len() as int);
        }
        assert(s@.subrange(a as int, a as int) =~= trim(t));
        return (a, a);
    }
    let mut b = hi;
    while b > a && char_is_ws(s[b - 1])
        invariant
            lo <= a < hi,
            a < b <= hi <= s@.len(),
            !is_ws(s@[a as int]),
            t == s@.subrange(lo as int, hi as int),
            skip_ws_back(t, (b - lo) as int) == skip_ws_back(t, t.len() as int),
        decreases b,
    {
        assert(t[(b - 1 - lo) as int] == s@[b - 1]);
        assert(b - 1 != a);
        b = b - 1;
    }
    proof {
        if b > a {
            assert(t[(b - 1 - lo) as int] == s@[b - 1]);
        }
        assert(t[(a - lo) as int] == s@[a as int]);
        assert(skip_ws_back(t, (b - lo) as int) == (b - lo));
    }
    assert(s@.subrange(a as int, b as int) =~= t.subrange((a - lo) as int, (b - lo) as int));
    (a, b)
}

// ---------------------------------------------------------------------------
// Building strings
// ---------------------------------------------------------------------------

/// Collects characters into a `String` (std's `FromIterator<&char> for
/// String`, through `Iterator::collect`). The claim: the string holds the
/// given characters, in order, which is what the documentation of
/// `collect` into a `String` says.
#[verifier::external_body]
pub(crate) fn string_from_chars(v: &[char]) -> (res: String)
    ensures
        res@ == v@,
{
    v.iter().collect()
}

/// The characters of a string slice, in order.
pub fn chars_of(s: &str) -> (res: Vec<char>)
    ensures
        res@ == s@,
{
    let mut out: Vec<char> = Vec::new();
    for c in it: s.chars()
        invariant
            out@ == it.seq().take(it.index() as int),
    {
        out.push(c);
    }
    out
}

/// Appends `s[lo..hi]` to `out`.
pub fn push_range(out: &mut Vec<char>, s: &[char], lo: usize, hi: usize)
    requires
        lo <= hi <= s@.len(),
    ensures
        final(out)@ == old(out)@ + s@.subrange(lo as int, hi as int),
{
    let ghost start = out@;
    let mut i = lo;
    while i < hi
        invariant
            lo <= i <= hi <= s@.len(),
            out@ == start + s@.subrange(lo as int, i as int),
        decreases hi - i,
    {
        out.push(s[i]);
        assert(s@.subrange(lo as int, i + 1) =~= s@.subrange(lo as int, i as int).push(s@[i as int]));
        i = i + 1;
    }
}

/// Appends all of `s` to `out`.
pub fn push_all(out: &mut Vec<char>, s: &[char])
    ensures
        final(out)@ == old(out)@ + s@,
{
    push_range(out, s, 0, s.len());
    assert(s@.subrange(0, s@.len() as int) =~= s@);
}

/// `s[lo..hi]` as a new vector.
pub fn copy_range(s: &[char], lo: usize, hi: usize) -> (res: Vec<char>)
    requires
        lo <= hi <= s@.len(),
    ensures
        res@ == s@.subrange(lo as int, hi as int),
{
    let mut out: Vec<char> = Vec::new();
    push_range(&mut out, s, lo, hi);
    assert(Seq::<char>::empty() + s@.subrange(lo as int, hi as int) =~= s@.subrange(lo as int, hi as int));
    out
}

/// `trim(s)` as a new vector.
pub fn trimmed(s: &[char]) -> (res: Vec<char>)
    ensures
        res@ == trim(s@),
{
    let (a, b) = trim_bounds(s, 0, s.len());
    assert(s@.subrange(0, s@.len() as int) =~= s@);
    copy_range(s, a, b)
}

// ---------------------------------------------------------------------------
// Substrings
// ---------------------------------------------------------------------------

/// `pat` occurs in `s` starting at index `j`.
pub open spec fn occurs_at(s: Seq<char>, pat: Seq<char>, j: int) -> bool {
    0 <= j && j + pat.len() <= s.len() && s.subrange(j, j + pat.len()) == pat
}

/// `s` contains `pat` as a substring (`str::contains`).
pub open spec fn contains_seq(s: Seq<char>, pat: Seq<char>) -> bool {
    exists|j: int| occurs_at(s, pat, j)
}

/// `s` starts with `pat`.
pub open spec fn starts_with(s: Seq<char>, pat: Seq<char>) -> bool {
    occurs_at(s, pat, 0)
}

/// Whether `pat` occurs at index `j` of `s`.
pub fn matches_at(s: &[char], pat: &[char], j: usize) -> (res: bool)
    ensures
        res == occurs_at(s@, pat@, j as int),
{
    if j > s.len() || pat.len() > s.len() - j {
        return false;
    }
    let mut k: usize = 0;
    while k < pat.len()
        invariant
            j + pat@.len() <= s@.len(),
            j + pat.len() <= s.len(),
            k <= pat@.len(),
            forall|m: int| 0 <= m < k ==> s@[j + m] == pat@[m],
        decreases pat@.len() - k,
    {
        if s[j + k] != pat[k] {
            assert(s@.subrange(j as int, j + pat@.len())[k as int] != pat@[k as int]);
            return false;
        }
        k = k + 1;
    }
    assert(s@.subrange(j as int, j + pat@.len()) =~= pat@);
    true
}

/// Whether `s` contains `pat` (`str::contains`).
pub fn contains(s: &[char], pat: &[char]) -> (res: bool)
    ensures
        res == contains_seq(s@, pat@),
{
    if pat.len() > s.len() {
        return false;
    }
    if pat.len() == 0 {
        assert(s@.subrange(0, 0) =~= pat@);
        assert(occurs_at(s@, pat@, 0));
        return true;
    }
    let last = s.len() - pat.len();
    let mut j: usize = 0;
    while j <= last
        invariant
            last == s@.len() - pat@.len(),
            last < s.len(),
            1 <= pat@.len() <= s@.len(),
            forall|m: int| 0 <= m < j ==> !occurs_at(s@, pat@, m),
        decreases last + 1 - j,
    {
        if matches_at(s, pat, j) {
            return true;
        }
        j = j + 1;
    }
    assert forall|m: int| !occurs_at(s@, pat@, m) by {
        if 0 <= m < j {
        }
    }
    false
}

// ---------------------------------------------------------------------------
// Decimal numbers
// ---------------------------------------------------------------------------

/// The ASCII digit for `d < 10`.
pub open spec fn digit_char(d: nat) -> char {
    ((48 + d) as u32) as char
}

/// Decimal text of `n`, as `u64::to_string` writes it.
pub open spec fn decimal(n: nat) -> Seq<char>
    decreases n,
{
    if n < 10 {
        seq![digit_char(n)]
    } else {
        decimal(n / 10) + seq![digit_char(n % 10)]
    }
}

/// Appends the decimal text of `n` to `out`.
pub fn push_decimal(out: &mut Vec<char>, n: u64)
    ensures
        final(out)@ == old(out)@ + decimal(n as nat),
    decreases n,
{
    if n < 10 {
        let c = ((48 + n) as u8) as char;
        assert(c == digit_char(n as nat));
        out.push(c);
    } else {
        let ghost start = out@;
        push_decimal(out, n / 10);
        let d = n % 10;
        let c = ((48 + d) as u8) as char;
        assert(c == digit_char(d as nat));
        out.push(c);
        assert(out@ =~= start + decimal(n as nat));
    }
}

} // verus!

verus! {

// ---------------------------------------------------------------------------
// UTF-8 lengths
// ---------------------------------------------------------------------------

/// Number of bytes of `c` in UTF-8.
pub open spec fn utf8_width(c: char) -> nat {
    vstd::utf8::encode_scalar(c as u32).len()
}

/// Number of bytes of `s` in UTF-8 (what `str::len` returns).
pub open spec fn utf8_len(s: Seq<char>) -> nat {
    vstd::utf8::encode_utf8(s).len()
}

pub fn char_utf8_width(c: char) -> (res: usize)
    ensures
        res == utf8_width(c),
        1 <= res <= 4,
{
    let u = c as u32;
    if u < 0x80 {
        1
    } else if u < 0x800 {
        2
    } else if u < 0x10000 {
        3
    } else {
        proof {
            vstd::utf8::char_is_scalar(c);
        }
        4
    }
}

pub proof fn lemma_utf8_concat(a: Seq<char>, b: Seq<char>)
    ensures
        vstd::utf8::encode_utf8(a + b) == vstd::utf8::encode_utf8(a) + vstd::utf8::encode_utf8(b),
    decreases a.len(),
{
    if a.len() == 0 {
        assert(a + b =~= b);
        assert(vstd::utf8::encode_utf8(a) =~= Seq::<u8>::empty());
        assert(vstd::utf8::encode_utf8(a) + vstd::utf8::encode_utf8(b) =~= vstd::utf8::encode_utf8(
            b,
        ));
    } else {
        assert((a + b).drop_first() =~= a.drop_first() + b);
        assert((a + b)[0] == a[0]);
        lemma_utf8_concat(a.drop_first(), b);
        assert(vstd::utf8::encode_utf8(a + b) =~= vstd::utf8::encode_scalar(a[0] as u32) + (
        vstd::utf8::encode_utf8(a.drop_first()) + vstd::utf8::encode_utf8(b)));
    }
}

/// The UTF-8 length of a prefix grows by the width of the next character.
pub proof fn lemma_utf8_prefix_step(s: Seq<char>, i: int)
    requires
        0 <= i < s.len(),
    ensures
        utf8_len(s.take(i + 1)) == utf8_len(s.take(i)) + utf8_width(s[i]),
{
    assert(s.take(i + 1) =~= s.take(i) + seq![s[i]]);
    lemma_utf8_concat(s.take(i), seq![s[i]]);
    assert(seq![s[i]].drop_first() =~= Seq::<char>::empty());
    assert(vstd::utf8::encode_utf8(seq![s[i]]) =~= vstd::utf8::encode_scalar(s[i] as u32)
        + vstd::utf8::encode_utf8(Seq::<char>::empty()));
    assert(vstd::utf8::encode_utf8(Seq::<char>::empty()) =~= Seq::<u8>::empty());
}

/// Whether the UTF-8 length of `s` is below `limit`.
pub fn utf8_len_below(s: &[char], limit: usize) -> (res: bool)
    ensures
        res == (utf8_len(s@) < limit),
{
    if limit == 0 {
        return false;
    }
    let mut acc: usize = 0;
    let mut i: usize = 0;
    assert(s@.take(0) =~= Seq::<char>::empty());
    assert(vstd::utf8::encode_utf8(Seq::<char>::empty()) =~= Seq::<u8>::empty());
    while i < s.len()
        invariant
            i <= s@.len(),
            acc == utf8_len(s@.take(i as int)),
            acc < limit,
        decreases s@.len() - i,
    {
        let w = char_utf8_width(s[i]);
        proof {
            lemma_utf8_prefix_step(s@, i as int);
        }
        if w >= limit - acc {
            proof {
                lemma_utf8_prefix_monotone(s@, i + 1, s@.len() as int);
                assert(s@.take(s@.len() as int) =~= s@);
            }
            return false;
        }
        acc = acc + w;
        i = i + 1;
    }
    assert(s@.take(i as int) =~= s@);
    true
}

/// A longer prefix has at least as many bytes.
pub proof fn lemma_utf8_prefix_monotone(s: Seq<char>, i: int, j: int)
    requires
        0 <= i <= j <= s.len(),
    ensures
        utf8_len(s.take(i)) <= utf8_len(s.take(j)),
    decreases j - i,
{
    if i < j {
        lemma_utf8_prefix_step(s, j - 1);
        lemma_utf8_prefix_monotone(s, i, j - 1);
    }
}

// ---------------------------------------------------------------------------
// ASCII case
// ---------------------------------------------------------------------------

pub open spec fn ascii_lower_char(c: char) -> char {
    if 'A' <= c && c <= 'Z' {
        ((c as u32) + 32) as char
    } else {
        c
    }
}

/// `str::to_ascii_lowercase`.
pub open spec fn ascii_lower(s: Seq<char>) -> Seq<char> {
    s.map_values(|c: char| ascii_lower_char(c))
}

/// `str::eq_ignore_ascii_case`.
pub open spec fn eq_ignore_ascii_case(a: Seq<char>, b: Seq<char>) -> bool {
    ascii_lower(a) == ascii_lower(b)
}

pub fn lower_char(c: char) -> (res: char)
    ensures
        res == ascii_lower_char(c),
{
    if 'A' <= c && c <= 'Z' {
        let b = (c as u8) + 32;
        b as char
    } else {
        c
    }
}

pub fn to_ascii_lower(s: &[char]) -> (res: Vec<char>)
    ensures
        res@ == ascii_lower(s@),
{
    let mut out: Vec<char> = Vec::new();
    let mut i: usize = 0;
    while i < s.len()
        invariant
            i <= s@.len(),
            out@ == ascii_lower(s@.take(i as int)),
        decreases s@.len() - i,
    {
        let c = lower_char(s[i]);
        out.push(c);
        assert(ascii_lower(s@.take(i + 1)) =~= ascii_lower(s@.take(i as int)).push(c));
        i = i + 1;
    }
    assert(s@.take(i as int) =~= s@);
    out
}

pub fn eq_ignore_case(a: &[char], b: &[char]) -> (res: bool)
    ensures
        res == eq_ignore_ascii_case(a@, b@),
{
    if a.len() != b.len() {
        assert(ascii_lower(a@).len() != ascii_lower(b@).len());
        return false;
    }
    let mut i: usize = 0;
    while i < a.len()
        invariant
            a@.len() == b@.len(),
            i <= a@.len(),
            forall|k: int| 0 <= k < i ==> ascii_lower_char(a@[k]) == ascii_lower_char(b@[k]),
        decreases a@.len() - i,
    {
        if lower_char(a[i]) != lower_char(b[i]) {
            assert(ascii_lower(a@)[i as int] != ascii_lower(b@)[i as int]);
            return false;
        }
        i = i + 1;
    }
    assert(ascii_lower(a@) =~= ascii_lower(b@));
    true
}

} // verus!

verus! {

/// Whether two character slices are equal.
pub fn same_chars(a: &[char], b: &[char]) -> (res: bool)
    ensures
        res == (a@ == b@),
{
    if a.len() != b.len() {
        return false;
    }
    let mut i: usize = 0;
    while i < a.len()
        invariant
            a@.len() == b@.len(),
            i <= a@.len(),
            forall|k: int| 0 <= k < i ==> a@[k] == b@[k],
        decreases a@.len() - i,
    {
        if a[i] != b[i] {
            return false;
        }
        i = i + 1;
    }
    assert(a@ =~= b@);
    true
}

} // verus!

verus! {

// ---------------------------------------------------------------------------
// Ordering of strings (`Ord for String`: by UTF-8 bytes, which is the order
// of the code points)
// ---------------------------------------------------------------------------

/// `a` sorts strictly before `b`.
pub open spec fn seq_less(a: Seq<char>, b: Seq<char>) -> bool
    decreases a.len(),
{
    if a.len() == 0 {
        b.len() > 0
    } else if b.len() == 0 {
        false
    } else if a[0] != b[0] {
        (a[0] as u32) < (b[0] as u32)
    } else {
        seq_less(a.drop_first(), b.drop_first())
    }
}

/// Every element sorts strictly before the ones after it.
pub open spec fn strictly_ascending(v: Seq<Seq<char>>) -> bool {
    forall|i: int, j: int| 0 <= i < j < v.len() ==> seq_less(#[trigger] v[i], #[trigger] v[j])
}

pub proof fn lemma_seq_less_irreflexive(a: Seq<char>)
    ensures
        !seq_less(a, a),
    decreases a.len(),
{
    if a.len() > 0 {
        lemma_seq_less_irreflexive(a.drop_first());
    }
}

pub proof fn lemma_seq_less_transitive(a: Seq<char>, b: Seq<char>, c: Seq<char>)
    requires
        seq_less(a, b),
        seq_less(b, c),
    ensures
        seq_less(a, c),
    decreases a.len(),
{
    if a.len() > 0 && b.len() > 0 && c.len() > 0 {
        if a[0] == b[0] && b[0] == c[0] {
            lemma_seq_less_transitive(a.drop_first(), b.drop_first(), c.drop_first());
        }
    }
}

pub proof fn lemma_seq_less_total(a: Seq<char>, b: Seq<char>)
    ensures
        a == b || seq_less(a, b) || seq_less(b, a),
    decreases a.len(),
{
    if a.len() > 0 && b.len() > 0 {
        if a[0] == b[0] {
            lemma_seq_less_total(a.drop_first(), b.drop_first());
            if a.drop_first() == b.drop_first() {
                assert(a =~= seq![a[0]] + a.drop_first());
                assert(b =~= seq![b[0]] + b.drop_first());
            }
        } else {
            vstd::utf8::char_u32_cast(a[0], a[0] as u32);
            vstd::utf8::char_u32_cast(b[0], b[0] as u32);
            assert((a[0] as u32) != (b[0] as u32));
        }
    } else if a.len() == 0 && b.len() == 0 {
        assert(a =~= b);
    }
}

pub fn less_chars(a: &[char], b: &[char]) -> (res: bool)
    ensures
        res == seq_less(a@, b@),
{
    let mut i: usize = 0;
    assert(a@.skip(0) =~= a@);
    assert(b@.skip(0) =~= b@);
    while i < a.len() && i < b.len() && a[i] == b[i]
        invariant
            i <= a@.len(),
            i <= b@.len(),
            seq_less(a@.skip(i as int), b@.skip(i as int)) == seq_less(a@, b@),
        decreases a@.len() - i,
    {
        assert(a@.skip(i as int).drop_first() =~= a@.skip(i + 1));
        assert(b@.skip(i as int).drop_first() =~= b@.skip(i + 1));
        i = i + 1;
    }
    assert(i < a@.len() ==> a@.skip(i as int)[0] == a@[i as int]);
    assert(i < b@.len() ==> b@.skip(i as int)[0] == b@[i as int]);
    if i == a.len() {
        i < b.len()
    } else if i == b.len() {
        false
    } else {
        (a[i] as u32) < (b[i] as u32)
    }
}

// ---------------------------------------------------------------------------
// Replacing substrings (`str::replace` with a non-empty pattern)
// ---------------------------------------------------------------------------

pub open spec fn replace_from(s: Seq<char>, pat: Seq<char>, rep: Seq<char>, i: int) -> Seq<char>
    decreases s.len() - i,
{
    if i < 0 || i >= s.len() || pat.len() == 0 {
        if 0 <= i <= s.len() { s.subrange(i, s.len() as int) } else { Seq::empty() }
    } else if occurs_at(s, pat, i) {
        rep + replace_from(s, pat, rep, i + pat.len())
    } else {
        seq![s[i]] + replace_from(s, pat, rep, i + 1)
    }
}

/// `s` with every non-overlapping occurrence of `pat`, from left to right,
/// replaced by `rep`.
pub open spec fn replace_all(s: Seq<char>, pat: Seq<char>, rep: Seq<char>) -> Seq<char> {
    replace_from(s, pat, rep, 0)
}

pub fn replace_chars(s: &[char], pat: &[char], rep: &[char]) -> (res: Vec<char>)
    requires
        pat@.len() > 0,
    ensures
        res@ == replace_all(s@, pat@, rep@),
{
    let mut out: Vec<char> = Vec::new();
    let mut i: usize = 0;
    while i < s.len()
        invariant
            i <= s@.len(),
            pat@.len() > 0,
            out@ + replace_from(s@, pat@, rep@, i as int) == replace_all(s@, pat@, rep@),
        decreases s@.len() - i,
    {
        let ghost before = out@;
        if matches_at(s, pat, i) {
            push_all(&mut out, rep);
            assert(out@ + replace_from(s@, pat@, rep@, i + pat@.len()) =~= before + replace_from(
                s@,
                pat@,
                rep@,
                i as int,
            ));
            i = i + pat.len();
        } else {
            out.push(s[i]);
            assert(out@ + replace_from(s@, pat@, rep@, i + 1) =~= before + replace_from(
                s@,
                pat@,
                rep@,
                i as int,
            ));
            i = i + 1;
        }
    }
    assert(s@.subrange(i as int, s@.len() as int) =~= Seq::<char>::empty());
    assert(out@ =~= out@ + replace_from(s@, pat@, rep@, i as int));
    out
}

} // verus!

verus! {

/// Index of the first `c` at or after `i` (or the length).
pub open spec fn find_char(s: Seq<char>, c: char, i: int) -> int
    decreases s.len() - i,
{
    if i < 0 || i >= s.len() {
        if i < 0 { 0 } else { s.len() as int }
    } else if s[i] == c {
        i
    } else {
        find_char(s, c, i + 1)
    }
}

pub proof fn lemma_find_char(s: Seq<char>, c: char, i: int)
    requires
        0 <= i <= s.len(),
    ensures
        i <= find_char(s, c, i) <= s.len(),
        forall|k: int| i <= k < find_char(s, c, i) ==> s[k] != c,
        find_char(s, c, i) < s.len() ==> s[find_char(s, c, i)] == c,
    decreases s.len() - i,
{
    if i < s.len() && s[i] != c {
        lemma_find_char(s, c, i + 1);
    }
}

pub fn find_char_exec(s: &[char], c: char, i: usize) -> (res: usize)
    requires
        i <= s@.len(),
    ensures
        res as int == find_char(s@, c, i as int),
        i <= res <= s@.len(),
{
    let mut k = i;
    while k < s.len() && s[k] != c
        invariant
            i <= k <= s@.len(),
            find_char(s@, c, k as int) == find_char(s@, c, i as int),
        decreases s@.len() - k,
    {
        k = k + 1;
    }
    k
}

// ---------------------------------------------------------------------------
// Parsing decimal numbers (`str::parse::<u64>`)
// ---------------------------------------------------------------------------

pub open spec fn is_digit(c: char) -> bool {
    '0' <= c && c <= '9'
}

pub open spec fn digit_value(c: char) -> nat {
    ((c as u32) - 48) as nat
}

/// The value of a string of digits.
pub open spec fn digits_value(s: Seq<char>) -> nat
    decreases s.len(),
{
    if s.len() == 0 {
        0
    } else {
        digits_value(s.drop_last()) * 10 + digit_value(s.last())
    }
}

/// `str::parse::<u64>`: an optional `+`, then one or more ASCII digits
/// whose value fits in 64 bits.
pub open spec fn unsigned_digits(s: Seq<char>) -> Seq<char> {
    if s.len() > 0 && s[0] == '+' {
        s.drop_first()
    } else {
        s
    }
}

pub open spec fn all_digits(d: Seq<char>) -> bool {
    forall|i: int| 0 <= i < d.len() ==> is_digit(#[trigger] d[i])
}

pub open spec fn parse_u64(s: Seq<char>) -> Option<u64> {
    let d = unsigned_digits(s);
    if d.len() > 0 && all_digits(d) && digits_value(d) <= u64::MAX {
        Some(digits_value(d) as u64)
    } else {
        None
    }
}

pub fn parse_u64_exec(s: &[char]) -> (res: Option<u64>)
    ensures
        res == parse_u64(s@),
{
    let start: usize = if s.len() > 0 && s[0] == '+' { 1 } else { 0 };
    let ghost d = unsigned_digits(s@);
    assert(d =~= s@.skip(start as int));
    if start >= s.len() {
        return None;
    }
    let mut v: u64 = 0;
    let mut i = start;
    while i < s.len()
        invariant
            start <= i <= s@.len(),
            start < s@.len(),
            d == s@.skip(start as int),
            d == unsigned_digits(s@),
            forall|k: int| start <= k < i ==> is_digit(#[trigger] s@[k]),
            v == digits_value(s@.subrange(start as int, i as int)),
        decreases s@.len() - i,
    {
        let c = s[i];
        if !('0' <= c && c <= '9') {
            assert(d[i - start] == c);
            assert(!is_digit(d[(i - start) as int]));
            assert(!all_digits(d));
            return None;
        }
        let dv = ((c as u32) - 48) as u64;
        assert(s@.subrange(start as int, i + 1).drop_last() =~= s@.subrange(start as int, i as int));
        if v > (u64::MAX - dv) / 10 {
            proof {
                lemma_digits_value_prefix_bound(d, (i + 1 - start) as int);
                assert(s@.subrange(start as int, i + 1) =~= d.take((i + 1 - start) as int));
                assert(digit_value(c) == dv);
                assert(v * 10 + dv > u64::MAX) by (nonlinear_arith)
                    requires
                        v > (u64::MAX - dv) / 10,
                        dv <= 9,
                ;
                assert(digits_value(d) > u64::MAX);
            }
            return None;
        }
        v = v * 10 + dv;
        i = i + 1;
    }
    assert(s@.subrange(start as int, i as int) =~= d);
    Some(v)
}

/// A longer prefix of digits has at least the value of a shorter one.
pub proof fn lemma_digits_value_prefix_bound(d: Seq<char>, k: int)
    requires
        0 <= k <= d.len(),
    ensures
        digits_value(d.take(k)) <= digits_value(d),
    decreases d.len() - k,
{
    if k < d.len() {
        lemma_digits_value_prefix_bound(d, k + 1);
        assert(d.take(k + 1).drop_last() =~= d.take(k));
        assert(digits_value(d.take(k)) <= digits_value(d.take(k + 1))) by (nonlinear_arith)
            requires
                digits_value(d.take(k + 1)) == digits_value(d.take(k)) * 10 + digit_value(
                    d.take(k + 1).last(),
                ),
        ;
    } else {
        assert(d.take(k) =~= d);
    }
}

/// Decimal text is parsed back to the number it was written from.
pub proof fn lemma_parse_decimal(n: u64)
    ensures
        parse_u64(decimal(n as nat)) == Some(n),
{
    lemma_decimal_digits(n as nat);
    let s = decimal(n as nat);
    assert(s[0] != '+') by {
        assert(is_digit(s[0]));
    }
}

pub proof fn lemma_digit_char_value(d: nat)
    requires
        d < 10,
    ensures
        is_digit(digit_char(d)),
        digit_value(digit_char(d)) == d,
{
    let u = (48 + d) as u32;
    assert(u as char == digit_char(d));
    assert((u as char) as u32 == u);
}

/// Decimal text is a non-empty string of digits with the number's value.
pub proof fn lemma_decimal_digits(n: nat)
    ensures
        decimal(n).len() > 0,
        forall|i: int| 0 <= i < decimal(n).len() ==> is_digit(#[trigger] decimal(n)[i]),
        digits_value(decimal(n)) == n,
    decreases n,
{
    if n < 10 {
        assert(decimal(n).drop_last() =~= Seq::<char>::empty());
        lemma_digit_char_value(n);
        assert(decimal(n).last() == digit_char(n));
        assert(digits_value(decimal(n)) == digits_value(decimal(n).drop_last()) * 10 + digit_value(
            decimal(n).last(),
        ));
        assert(digits_value(Seq::<char>::empty()) == 0);
    } else {
        lemma_decimal_digits(n / 10);
        let s = decimal(n);
        assert(s.drop_last() =~= decimal(n / 10));
        lemma_digit_char_value(n % 10);
        assert(s.last() == digit_char(n % 10));
        assert((n / 10) * 10 + n % 10 == n) by (nonlinear_arith);
        assert(digits_value(s) == digits_value(s.drop_last()) * 10 + digit_value(s.last()));
        assert forall|i: int| 0 <= i < s.len() implies is_digit(#[trigger] s[i]) by {
            if i < s.len() - 1 {
                assert(s[i] == decimal(n / 10)[i]);
            }
        }
    }
}

} // verus!
