//! Crawled pages, crawl progress, and the decisions of a crawl.

use vstd::prelude::*;

use crate::entry::WorldInfoEntry;
use crate::extract::{all_classifiable, are_entries_for, build_entry_from_page};
use crate::api::{percent_encoded, url_encode};
use crate::text::{chars_of, occurs_at, push_all, replace_all, replace_chars, string_from_chars};
use crate::wikitext::{lines_view, strings_view};

verus! {

/// A page discovered during the crawl. Includes the wikitext content and
/// the explicit (non-hidden) categories.
pub struct PageData {
    pub pageid: u64,
    pub title: String,
    pub revid: u64,
    pub wikitext: String,
    pub categories: Vec<String>,
    pub url: String,
}

impl PageData {
    /// The categories as character sequences.
    pub open spec fn cats(&self) -> Seq<Seq<char>> {
        strings_view(self.categories@)
    }
}


/// What a crawl reports as it goes.
pub enum ProgressEvent {
    CategoryEntered { title: String, total_in: usize },
    PageFetched { title: String, pageid: u64, cached: bool },
    PageFailed { title: String, error: String },
    EntryBuilt { uid: u64, name: String, category: String },
    Cancelled,
    Done,
}

// ---------------------------------------------------------------------------
// Page URLs
// ---------------------------------------------------------------------------

/// `s` ends with `pat`.
pub open spec fn ends_with(s: Seq<char>, pat: Seq<char>) -> bool {
    occurs_at(s, pat, s.len() - pat.len())
}

/// `str::trim_end_matches`: `pat` removed from the end as often as it ends `s`.
pub open spec fn strip_suffixes(s: Seq<char>, pat: Seq<char>) -> Seq<char>
    decreases s.len(),
{
    if pat.len() > 0 && ends_with(s, pat) {
        strip_suffixes(s.take(s.len() - pat.len()), pat)
    } else {
        s
    }
}

/// The wiki's root URL from its API endpoint: `/api.php` and trailing
/// slashes removed, and `https://` added when the text does not start with
/// `http`.
pub open spec fn wiki_root(api_base: Seq<char>) -> Seq<char> {
    let root = strip_suffixes(strip_suffixes(api_base, "/api.php"@), "/"@);
    if crate::text::starts_with(root, "http"@) {
        root
    } else {
        "https://"@ + root
    }
}

/// The URL of a page: the root, `/wiki/`, and the percent-encoded title
/// with its slashes left as they are.
pub open spec fn page_url_text(api_base: Seq<char>, title: Seq<char>) -> Seq<char> {
    wiki_root(api_base) + "/wiki/"@ + replace_all(percent_encoded(title), "%2F"@, "/"@)
}

fn strip_suffixes_exec(s: &[char], pat: &[char]) -> (res: usize)
    requires
        pat@.len() > 0,
    ensures
        res <= s@.len(),
        s@.take(res as int) == strip_suffixes(s@, pat@),
{
    let mut n = s.len();
    assert(s@.take(n as int) =~= s@);
    while n >= pat.len() && crate::text::matches_at(s, pat, n - pat.len())
        invariant
            n <= s@.len(),
            pat@.len() > 0,
            strip_suffixes(s@.take(n as int), pat@) == strip_suffixes(s@, pat@),
        decreases n,
    {
        let ghost t = s@.take(n as int);
        assert(t.subrange(n - pat@.len(), n as int) =~= s@.subrange(n - pat@.len(), n as int));
        assert(ends_with(t, pat@));
        assert(t.take(n - pat@.len()) =~= s@.take(n - pat@.len()));
        n = n - pat.len();
    }
    proof {
        let t = s@.take(n as int);
        if pat@.len() <= n && ends_with(t, pat@) {
            assert(t.subrange(n - pat@.len(), n as int) =~= s@.subrange(n - pat@.len(), n as int));
        }
    }
    n
}

/// The URL of the wiki page `title`, for the wiki whose API endpoint is `api_base`.
pub fn page_url(api_base: &str, title: &str) -> (res: String)
    ensures
        res@ == page_url_text(api_base@, title@),
{
    let base = chars_of(api_base);
    let api = chars_of("/api.php");
    let slash = chars_of("/");
    proof {
        reveal_strlit("/api.php");
        reveal_strlit("/");
    }
    let a = strip_suffixes_exec(base.as_slice(), api.as_slice());
    let b = strip_suffixes_exec(crate::text::copy_range(base.as_slice(), 0, a).as_slice(), slash.as_slice());
    assert(base@.subrange(0, a as int) =~= base@.take(a as int));
    let root_chars = crate::text::copy_range(base.as_slice(), 0, b);
    assert(root_chars@ =~= base@.take(a as int).take(b as int));
    let http = chars_of("http");
    let mut out: Vec<char> = Vec::new();
    if !crate::text::matches_at(root_chars.as_slice(), http.as_slice(), 0) {
        let scheme = chars_of("https://");
        push_all(&mut out, scheme.as_slice());
    }
    push_all(&mut out, root_chars.as_slice());
    assert(out@ =~= wiki_root(api_base@));
    let wiki = chars_of("/wiki/");
    push_all(&mut out, wiki.as_slice());
    let enc = url_encode(title);
    let enc_chars = chars_of(enc.as_str());
    let pct = chars_of("%2F");
    proof {
        reveal_strlit("%2F");
    }
    let unslashed = replace_chars(enc_chars.as_slice(), pct.as_slice(), slash.as_slice());
    push_all(&mut out, unslashed.as_slice());
    string_from_chars(out.as_slice())
}

/// Build entries from a slice of pages with stable UIDs starting at `start_uid`.
pub fn materialize(pages: &[PageData], start_uid: u64, include_subpages: bool) -> (res: Vec<
    WorldInfoEntry,
>)
    requires
        start_uid + pages@.len() <= u64::MAX,
        all_classifiable(pages@),
    ensures
        are_entries_for(res@, pages@, start_uid),
{
    crate::extract::build_entries(pages, start_uid, include_subpages)
}


// ---------------------------------------------------------------------------
// Crawl requests
// ---------------------------------------------------------------------------

/// A string holding `s`.
pub fn owned(s: &str) -> (res: String)
    ensures
        res@ == s@,
{
    string_from_chars(chars_of(s).as_slice())
}

/// The continuation fields of an API answer that the next request repeats.
pub struct ContinueToken {
    /// Where a category listing goes on (`list=categorymembers`).
    pub cmcontinue: Option<String>,
    pub gcmcontinue: Option<String>,
    pub rvcontinue: Option<String>,
    pub cont: Option<String>,
}

pub open spec fn opt_param(name: Seq<char>, v: Option<String>) -> Seq<(Seq<char>, Seq<char>)> {
    match v {
        Some(x) => seq![(name, x@)],
        None => Seq::empty(),
    }
}

/// The parameters that carry a continuation on: for a page, `rvcontinue`;
/// for a category listing, `cmcontinue` (and `gcmcontinue` where the answer
/// gave one); then `continue`.
pub open spec fn continue_params(cont: Option<ContinueToken>, for_pages: bool) -> Seq<
    (Seq<char>, Seq<char>),
> {
    match cont {
        Some(c) => if for_pages {
            opt_param("rvcontinue"@, c.rvcontinue) + opt_param("continue"@, c.cont)
        } else {
            opt_param("cmcontinue"@, c.cmcontinue) + opt_param("gcmcontinue"@, c.gcmcontinue)
                + opt_param("continue"@, c.cont)
        },
        None => Seq::empty(),
    }
}

/// Parameters that list the members of a category.
pub open spec fn category_query(category: Seq<char>, cont: Option<ContinueToken>) -> Seq<
    (Seq<char>, Seq<char>),
> {
    seq![
        ("action"@, "query"@),
        ("list"@, "categorymembers"@),
        ("cmtitle"@, "Category:"@ + category),
        ("cmlimit"@, "500"@),
        ("formatversion"@, "2"@),
    ] + continue_params(cont, false)
}

/// Parameters that fetch a page's wikitext and visible categories.
pub open spec fn page_query(title: Seq<char>, cont: Option<ContinueToken>) -> Seq<
    (Seq<char>, Seq<char>),
> {
    seq![
        ("action"@, "query"@),
        ("titles"@, title),
        ("prop"@, "revisions|categories"@),
        ("rvprop"@, "ids|timestamp|content"@),
        ("rvslots"@, "main"@),
        ("clshow"@, "!hidden"@),
        ("cllimit"@, "500"@),
        ("formatversion"@, "2"@),
    ] + continue_params(cont, true)
}

fn push_param(out: &mut Vec<(String, String)>, k: &str, v: String)
    ensures
        crate::api::params_view(final(out)@) == crate::api::params_view(old(out)@).push((k@, v@)),
{
    let ghost before = crate::api::params_view(out@);
    let ghost vv = v@;
    out.push((owned(k), v));
    assert(crate::api::params_view(out@) =~= before.push((k@, vv)));
}

fn push_opt_param(out: &mut Vec<(String, String)>, k: &str, v: &Option<String>)
    ensures
        crate::api::params_view(final(out)@) == crate::api::params_view(old(out)@) + opt_param(
            k@,
            *v,
        ),
{
    let ghost before = crate::api::params_view(out@);
    match v {
        Some(x) => {
            push_param(out, k, x.clone());
            assert(crate::api::params_view(out@) =~= before + opt_param(k@, *v));
        },
        None => {
            assert(crate::api::params_view(out@) =~= before + opt_param(k@, *v));
        },
    }
}

/// The request parameters that list a category's members.
pub fn category_members_params(category: &str, cont: &Option<ContinueToken>) -> (res: Vec<
    (String, String),
>)
    ensures
        crate::api::params_view(res@) == category_query(category@, *cont),
{
    let mut out: Vec<(String, String)> = Vec::new();
    push_param(&mut out, "action", owned("query"));
    push_param(&mut out, "list", owned("categorymembers"));
    let mut t = chars_of("Category:");
    let cv = chars_of(category);
    push_all(&mut t, cv.as_slice());
    push_param(&mut out, "cmtitle", string_from_chars(t.as_slice()));
    push_param(&mut out, "cmlimit", owned("500"));
    push_param(&mut out, "formatversion", owned("2"));
    let ghost head = crate::api::params_view(out@);
    match cont {
        Some(c) => {
            push_opt_param(&mut out, "cmcontinue", &c.cmcontinue);
            push_opt_param(&mut out, "gcmcontinue", &c.gcmcontinue);
            push_opt_param(&mut out, "continue", &c.cont);
        },
        None => {},
    }
    assert(crate::api::params_view(out@) =~= category_query(category@, *cont));
    out
}

/// The request parameters that fetch a page.
pub fn page_params(title: &str, cont: &Option<ContinueToken>) -> (res: Vec<(String, String)>)
    ensures
        crate::api::params_view(res@) == page_query(title@, *cont),
{
    let mut out: Vec<(String, String)> = Vec::new();
    push_param(&mut out, "action", owned("query"));
    push_param(&mut out, "titles", owned(title));
    push_param(&mut out, "prop", owned("revisions|categories"));
    push_param(&mut out, "rvprop", owned("ids|timestamp|content"));
    push_param(&mut out, "rvslots", owned("main"));
    push_param(&mut out, "clshow", owned("!hidden"));
    push_param(&mut out, "cllimit", owned("500"));
    push_param(&mut out, "formatversion", owned("2"));
    match cont {
        Some(c) => {
            push_opt_param(&mut out, "rvcontinue", &c.rvcontinue);
            push_opt_param(&mut out, "continue", &c.cont);
        },
        None => {},
    }
    assert(crate::api::params_view(out@) =~= page_query(title@, *cont));
    out
}

// ---------------------------------------------------------------------------
// Crawl answers
// ---------------------------------------------------------------------------

/// One member of a category listing: its namespace and title, where given.
pub struct CategoryMember {
    pub ns: Option<i64>,
    pub title: Option<String>,
}

pub open spec fn member_ns(m: CategoryMember) -> i64 {
    match m.ns {
        Some(n) => n,
        None => -1i64,
    }
}

pub open spec fn member_title(m: CategoryMember) -> Seq<char> {
    match m.title {
        Some(t) => t@,
        None => Seq::empty(),
    }
}

/// Titles, in order, of the members in namespace `ns` (members without a
/// title skipped).
pub open spec fn members_in(ms: Seq<CategoryMember>, ns: i64) -> Seq<Seq<char>>
    decreases ms.len(),
{
    if ms.len() == 0 {
        Seq::empty()
    } else {
        members_in(ms.drop_last(), ns) + (if member_title(ms.last()).len() > 0 && member_ns(
            ms.last(),
        ) == ns {
            seq![member_title(ms.last())]
        } else {
            Seq::empty()
        })
    }
}

/// Sorts a batch of category members: subcategories (namespace 14) and
/// articles (namespace 0); other namespaces and untitled members are skipped.
pub fn sort_members(
    members: &Vec<CategoryMember>,
    subcats: &mut Vec<String>,
    pages: &mut Vec<String>,
)
    ensures
        strings_view(final(subcats)@) == strings_view(old(subcats)@) + members_in(members@, 14),
        strings_view(final(pages)@) == strings_view(old(pages)@) + members_in(members@, 0),
{
    let ghost sub0 = strings_view(subcats@);
    let ghost pg0 = strings_view(pages@);
    let mut i: usize = 0;
    while i < members.len()
        invariant
            i <= members@.len(),
            strings_view(subcats@) == sub0 + members_in(members@.take(i as int), 14),
            strings_view(pages@) == pg0 + members_in(members@.take(i as int), 0),
        decreases members@.len() - i,
    {
        let m = &members[i];
        let ns: i64 = match m.ns {
            Some(n) => n,
            None => -1,
        };
        let title: String = match &m.title {
            Some(t) => t.clone(),
            None => String::new(),
        };
        assert(members@.take(i + 1).drop_last() =~= members@.take(i as int));
        assert(members@.take(i + 1).last() == members@[i as int]);
        let ghost sb = strings_view(subcats@);
        let ghost pb = strings_view(pages@);
        let tv = chars_of(title.as_str());
        if tv.len() > 0 {
            if ns == 14 {
                subcats.push(title);
                assert(strings_view(subcats@) =~= sb.push(tv@));
            } else if ns == 0 {
                pages.push(title);
                assert(strings_view(pages@) =~= pb.push(tv@));
            }
        }
        assert(strings_view(subcats@) =~= sub0 + members_in(members@.take(i + 1), 14));
        assert(strings_view(pages@) =~= pg0 + members_in(members@.take(i + 1), 0));
        i = i + 1;
    }
    assert(members@.take(i as int) =~= members@);
}

/// One revision in a page answer.
pub struct RevisionRecord {
    pub revid: Option<u64>,
    /// The text of the main slot (`slots.main.content`), where given.
    pub main: Option<String>,
    /// The text in the legacy `*` field, where given.
    pub legacy: Option<String>,
}

/// One page in a page answer.
pub struct PageRecord {
    pub pageid: Option<u64>,
    pub revisions: Vec<RevisionRecord>,
    /// The `title` of each listed category, where given.
    pub categories: Vec<Option<String>>,
}

/// What a page fetch has gathered: page id, revision id, wikitext and
/// categories.
#[verifier::ext_equal]
pub struct FetchState {
    pub pageid: u64,
    pub revid: u64,
    pub wikitext: Seq<char>,
    pub categories: Seq<Seq<char>>,
}

/// `str::trim_start_matches`: `pat` removed from the start as often as it
/// starts `s`.
pub open spec fn strip_prefixes(s: Seq<char>, pat: Seq<char>) -> Seq<char>
    decreases s.len(),
{
    if pat.len() > 0 && crate::text::starts_with(s, pat) {
        strip_prefixes(s.skip(pat.len() as int), pat)
    } else {
        s
    }
}

/// The state after one revision: its id, and its text (main slot first,
/// else the legacy field) followed by a newline.
pub open spec fn after_revision(st: FetchState, r: RevisionRecord) -> FetchState {
    FetchState {
        pageid: st.pageid,
        revid: match r.revid {
            Some(x) => x,
            None => st.revid,
        },
        wikitext: match r.main {
            Some(t) => st.wikitext + t@ + seq!['\n'],
            None => match r.legacy {
                Some(t) => st.wikitext + t@ + seq!['\n'],
                None => st.wikitext,
            },
        },
        categories: st.categories,
    }
}

pub open spec fn after_revisions(st: FetchState, rs: Seq<RevisionRecord>) -> FetchState
    decreases rs.len(),
{
    if rs.len() == 0 {
        st
    } else {
        after_revision(after_revisions(st, rs.drop_last()), rs.last())
    }
}

/// Category titles without their `Category:` prefix.
pub open spec fn category_names(cs: Seq<Option<String>>) -> Seq<Seq<char>>
    decreases cs.len(),
{
    if cs.len() == 0 {
        Seq::empty()
    } else {
        category_names(cs.drop_last()) + match cs.last() {
            Some(t) => seq![strip_prefixes(t@, "Category:"@)],
            None => Seq::empty(),
        }
    }
}

pub open spec fn after_page(st: FetchState, pg: PageRecord) -> FetchState {
    let st1 = FetchState {
        pageid: match pg.pageid {
            Some(id) => id,
            None => st.pageid,
        },
        ..st
    };
    let st2 = after_revisions(st1, pg.revisions@);
    FetchState { categories: st2.categories + category_names(pg.categories@), ..st2 }
}

pub open spec fn after_pages(st: FetchState, pgs: Seq<PageRecord>) -> FetchState
    decreases pgs.len(),
{
    if pgs.len() == 0 {
        st
    } else {
        after_page(after_pages(st, pgs.drop_last()), pgs.last())
    }
}

pub open spec fn empty_fetch() -> FetchState {
    FetchState { pageid: 0, revid: 0, wikitext: Seq::empty(), categories: Seq::empty() }
}

/// Gathers a page from the answers to its requests.
pub struct PageFetch {
    pageid: u64,
    revid: u64,
    text: Vec<char>,
    categories: Vec<String>,
}

fn strip_prefixes_exec(s: &[char], pat: &[char]) -> (res: Vec<char>)
    requires
        pat@.len() > 0,
    ensures
        res@ == strip_prefixes(s@, pat@),
{
    let mut i: usize = 0;
    assert(s@.skip(0) =~= s@);
    while i <= s.len() && s.len() - i >= pat.len() && crate::text::matches_at(s, pat, i)
        invariant
            i <= s@.len(),
            pat@.len() > 0,
            strip_prefixes(s@.skip(i as int), pat@) == strip_prefixes(s@, pat@),
        decreases s@.len() - i,
    {
        assert(s@.skip(i as int).subrange(0, pat@.len() as int) =~= s@.subrange(
            i as int,
            i + pat@.len(),
        ));
        assert(s@.skip(i as int).skip(pat@.len() as int) =~= s@.skip(i + pat@.len()));
        i = i + pat.len();
    }
    proof {
        let t = s@.skip(i as int);
        if crate::text::starts_with(t, pat@) {
            assert(t.subrange(0, pat@.len() as int) =~= s@.subrange(i as int, i + pat@.len()));
        }
    }
    let res = crate::text::copy_range(s, i, s.len());
    assert(res@ =~= s@.skip(i as int));
    res
}

impl PageFetch {
    pub closed spec fn state(&self) -> FetchState {
        FetchState {
            pageid: self.pageid,
            revid: self.revid,
            wikitext: self.text@,
            categories: strings_view(self.categories@),
        }
    }

    pub fn new() -> (res: Self)
        ensures
            res.state() == empty_fetch(),
    {
        let res = PageFetch { pageid: 0, revid: 0, text: Vec::new(), categories: Vec::new() };
        assert(res.state() =~= empty_fetch());
        res
    }

    fn absorb_revision(&mut self, r: &RevisionRecord)
        ensures
            final(self).state() == after_revision(old(self).state(), *r),
    {
        if let Some(x) = r.revid {
            self.revid = x;
        }
        match &r.main {
            Some(t) => {
                let tv = chars_of(t.as_str());
                push_all(&mut self.text, tv.as_slice());
                self.text.push('\n');
            },
            None => match &r.legacy {
                Some(t) => {
                    let tv = chars_of(t.as_str());
                    push_all(&mut self.text, tv.as_slice());
                    self.text.push('\n');
                },
                None => {},
            },
        }
        assert(self.state() =~= after_revision(old(self).state(), *r));
    }

    fn absorb_page(&mut self, pg: &PageRecord)
        ensures
            final(self).state() == after_page(old(self).state(), *pg),
    {
        if let Some(id) = pg.pageid {
            self.pageid = id;
        }
        let ghost st1 = self.state();
        let mut i: usize = 0;
        while i < pg.revisions.len()
            invariant
                i <= pg.revisions@.len(),
                self.state() == after_revisions(st1, pg.revisions@.take(i as int)),
            decreases pg.revisions@.len() - i,
        {
            self.absorb_revision(&pg.revisions[i]);
            assert(pg.revisions@.take(i + 1).drop_last() =~= pg.revisions@.take(i as int));
            i = i + 1;
        }
        assert(pg.revisions@.take(i as int) =~= pg.revisions@);
        let ghost st2 = self.state();
        let prefix = chars_of("Category:");
        proof {
            reveal_strlit("Category:");
        }
        let mut j: usize = 0;
        while j < pg.categories.len()
            invariant
                j <= pg.categories@.len(),
                prefix@ == "Category:"@,
                prefix@.len() > 0,
                self.state() == (FetchState {
                    categories: st2.categories + category_names(pg.categories@.take(j as int)),
                    ..st2
                }),
            decreases pg.categories@.len() - j,
        {
            assert(pg.categories@.take(j + 1).drop_last() =~= pg.categories@.take(j as int));
            let ghost before = strings_view(self.categories@);
            if let Some(t) = &pg.categories[j] {
                let tv = chars_of(t.as_str());
                let stripped = strip_prefixes_exec(tv.as_slice(), prefix.as_slice());
                self.categories.push(string_from_chars(stripped.as_slice()));
                assert(strings_view(self.categories@) =~= before.push(stripped@));
            }
            assert(self.state().categories =~= st2.categories + category_names(
                pg.categories@.take(j + 1),
            ));
            j = j + 1;
        }
        assert(pg.categories@.take(j as int) =~= pg.categories@);
        assert(self.state() =~= after_page(old(self).state(), *pg));
    }

    /// Takes in the pages of one answer.
    pub fn absorb(&mut self, pages: &Vec<PageRecord>)
        ensures
            final(self).state() == after_pages(old(self).state(), pages@),
    {
        let ghost st0 = self.state();
        let mut i: usize = 0;
        while i < pages.len()
            invariant
                i <= pages@.len(),
                self.state() == after_pages(st0, pages@.take(i as int)),
            decreases pages@.len() - i,
        {
            self.absorb_page(&pages[i]);
            assert(pages@.take(i + 1).drop_last() =~= pages@.take(i as int));
            i = i + 1;
        }
        assert(pages@.take(i as int) =~= pages@);
    }

    /// The page gathered, or `None` when no answer gave a page id (the page
    /// does not exist).
    pub fn into_page(self, title: &str, api_base: &str) -> (res: Option<PageData>)
        ensures
            match res {
                Some(p) => {
                    &&& self.state().pageid != 0
                    &&& p.pageid == self.state().pageid
                    &&& p.title@ == title@
                    &&& p.revid == self.state().revid
                    &&& p.wikitext@ == self.state().wikitext
                    &&& p.cats() == self.state().categories
                    &&& p.url@ == page_url_text(api_base@, title@)
                },
                None => self.state().pageid == 0,
            },
    {
        if self.pageid == 0 {
            return None;
        }
        Some(PageData {
            pageid: self.pageid,
            title: owned(title),
            revid: self.revid,
            wikitext: string_from_chars(self.text.as_slice()),
            categories: self.categories,
            url: page_url(api_base, title),
        })
    }
}


// ---------------------------------------------------------------------------
// What a crawl has already visited
// ---------------------------------------------------------------------------

/// The categories entered and the pages taken during one crawl, so that
/// each is walked once.
pub struct CrawlVisits {
    categories: Vec<Vec<char>>,
    pages: std::collections::HashSet<u64>,
}

impl CrawlVisits {
    pub closed spec fn categories(&self) -> Set<Seq<char>> {
        Set::new(|x: Seq<char>| lines_view(self.categories@).contains(x))
    }

    pub closed spec fn pages(&self) -> Set<u64> {
        self.pages@
    }

    pub fn new() -> (res: Self)
        ensures
            res.categories() == Set::<Seq<char>>::empty(),
            res.pages() == Set::<u64>::empty(),
    {
        let res = CrawlVisits { categories: Vec::new(), pages: std::collections::HashSet::new() };
        assert(lines_view(res.categories@) =~= Seq::<Seq<char>>::empty());
        assert(res.categories() =~= Set::<Seq<char>>::empty());
        res
    }

    /// Records the category; true when it had not been entered before.
    pub fn enter_category(&mut self, title: &str) -> (res: bool)
        ensures
            res == !old(self).categories().contains(title@),
            final(self).categories() == old(self).categories().insert(title@),
            final(self).pages() == old(self).pages(),
    {
        let t = chars_of(title);
        let ghost cv = lines_view(self.categories@);
        let mut i: usize = 0;
        while i < self.categories.len()
            invariant
                i <= self.categories@.len(),
                cv == lines_view(self.categories@),
                t@ == title@,
                forall|k: int| 0 <= k < i ==> cv[k] != t@,
            decreases self.categories@.len() - i,
        {
            if crate::text::same_chars(self.categories[i].as_slice(), t.as_slice()) {
                assert(cv[i as int] == t@);
                assert(cv.contains(t@));
                assert(self.categories() =~= self.categories().insert(title@));
                return false;
            }
            i = i + 1;
        }
        assert(!cv.contains(t@));
        self.categories.push(t);
        let ghost nv = lines_view(self.categories@);
        assert(nv =~= cv.push(title@));
        assert forall|x: Seq<char>| nv.contains(x) <==> (cv.contains(x) || x == title@) by {
            if nv.contains(x) {
                let k = choose|k: int| 0 <= k < nv.len() && nv[k] == x;
                if k < cv.len() {
                    assert(cv[k] == x);
                }
            }
            if cv.contains(x) {
                let k = choose|k: int| 0 <= k < cv.len() && cv[k] == x;
                assert(nv[k] == x);
            }
            if x == title@ {
                assert(nv[cv.len() as int] == x);
            }
        }
        assert(self.categories() =~= old(self).categories().insert(title@));
        true
    }

    /// Records the page; true when it had not been taken before.
    pub fn take_page(&mut self, pageid: u64) -> (res: bool)
        ensures
            res == !old(self).pages().contains(pageid),
            final(self).pages() == old(self).pages().insert(pageid),
            final(self).categories() == old(self).categories(),
    {
        self.pages.insert(pageid)
    }
}


/// A crawl walks each category and takes each page at most once: once a
/// category has been entered (or a page taken), entering (taking) it again
/// reports that it was seen.
pub proof fn law_visit_once(categories: Set<Seq<char>>, pages: Set<u64>, title: Seq<char>, pageid: u64)
    ensures
        categories.insert(title).contains(title),
        pages.insert(pageid).contains(pageid),
{
}


/// A fetched page joins the crawl's pages unless a page with its id was
/// taken before; says whether it joined.
pub fn keep_new_page(visits: &mut CrawlVisits, out: &mut Vec<PageData>, page: PageData) -> (added: bool)
    ensures
        added == !old(visits).pages().contains(page.pageid),
        final(out)@ == if added {
            old(out)@.push(page)
        } else {
            old(out)@
        },
        final(visits).pages() == old(visits).pages().insert(page.pageid),
        final(visits).categories() == old(visits).categories(),
{
    let added = visits.take_page(page.pageid);
    if added {
        out.push(page);
    }
    added
}

/// The event that ends a crawl: `Cancelled` when it was stopped, else
/// `Done`.
pub fn final_event(cancelled: bool) -> (res: ProgressEvent)
    ensures
        if cancelled {
            res is Cancelled
        } else {
            res is Done
        },
{
    if cancelled {
        ProgressEvent::Cancelled
    } else {
        ProgressEvent::Done
    }
}


/// A category listing under way: the subcategories and pages gathered so
/// far, and where the next request goes on (or that the last answer gave
/// no continuation).
pub struct CategoryListing {
    pub subcats: Vec<String>,
    pub pages: Vec<String>,
    pub cont: Option<ContinueToken>,
    pub finished: bool,
}

impl CategoryListing {
    /// Nothing listed yet; the first request starts from the beginning.
    pub fn new() -> (res: Self)
        ensures
            res.subcats@.len() == 0,
            res.pages@.len() == 0,
            res.cont is None,
            !res.finished,
    {
        CategoryListing { subcats: Vec::new(), pages: Vec::new(), cont: None, finished: false }
    }

    /// The parameters of the next request for `category`, or `None` once the
    /// last answer gave no continuation.
    pub fn next_request(&self, category: &str) -> (res: Option<Vec<(String, String)>>)
        ensures
            match res {
                Some(p) => !self.finished && crate::api::params_view(p@) == category_query(
                    category@,
                    self.cont,
                ),
                None => self.finished,
            },
    {
        if self.finished {
            None
        } else {
            Some(category_members_params(category, &self.cont))
        }
    }

    /// Takes in one answer: its members, sorted into subcategories and
    /// pages, and its continuation; without one the listing is finished.
    pub fn take_answer(&mut self, members: &Vec<CategoryMember>, next: Option<ContinueToken>)
        ensures
            strings_view(final(self).subcats@) == strings_view(old(self).subcats@) + members_in(
                members@,
                14,
            ),
            strings_view(final(self).pages@) == strings_view(old(self).pages@) + members_in(
                members@,
                0,
            ),
            final(self).finished == (next is None),
            final(self).cont == (if next is None { old(self).cont } else { next }),
    {
        sort_members(members, &mut self.subcats, &mut self.pages);
        match next {
            Some(t) => {
                self.cont = Some(t);
                self.finished = false;
            },
            None => {
                self.finished = true;
            },
        }
    }
}


// ---------------------------------------------------------------------------
// The order of a crawl
// ---------------------------------------------------------------------------

/// A piece of work the crawl has still to do: enter a category, or fetch a
/// page.
#[derive(Debug)]
pub enum WalkItem {
    Enter(String),
    Fetch(String),
}

/// Every title as a category to enter, in order.
pub open spec fn enters(titles: Seq<String>) -> Seq<WalkItem> {
    titles.map_values(|t: String| WalkItem::Enter(t))
}

/// Every title as a page to fetch, in order.
pub open spec fn fetches(titles: Seq<String>) -> Seq<WalkItem> {
    titles.map_values(|t: String| WalkItem::Fetch(t))
}

/// Every title as a category to enter when `enter`, else as a page to
/// fetch.
pub open spec fn as_items(titles: Seq<String>, enter: bool) -> Seq<WalkItem> {
    if enter {
        enters(titles)
    } else {
        fetches(titles)
    }
}

/// One step of the walk from `agenda`, with the categories in `entered`
/// already walked: categories entered before are passed over; the first
/// other item is handed out, a category being marked as entered. Gives the
/// agenda left, the categories entered, and the item (`None` when nothing
/// is left to do).
pub open spec fn walk_next(agenda: Seq<WalkItem>, entered: Set<Seq<char>>) -> (
    Seq<WalkItem>,
    Set<Seq<char>>,
    Option<WalkItem>,
)
    decreases agenda.len(),
{
    if agenda.len() == 0 {
        (agenda, entered, None)
    } else {
        match agenda[0] {
            WalkItem::Enter(t) => {
                if entered.contains(t@) {
                    walk_next(agenda.drop_first(), entered)
                } else {
                    (agenda.drop_first(), entered.insert(t@), Some(agenda[0]))
                }
            },
            WalkItem::Fetch(_) => (agenda.drop_first(), entered, Some(agenda[0])),
        }
    }
}

/// The walk of a crawl, depth first: a category's subcategories are walked,
/// each in full, before its pages are fetched, and the seeds are walked in
/// order.
pub struct CategoryWalk {
    agenda: std::collections::VecDeque<WalkItem>,
}

impl CategoryWalk {
    /// What is left to do, next first.
    pub closed spec fn agenda(&self) -> Seq<WalkItem> {
        self.agenda@
    }

    /// A walk that starts with the seed categories, in order.
    pub fn new(seeds: Vec<String>) -> (res: Self)
        ensures
            res.agenda() == enters(seeds@),
    {
        let mut w = CategoryWalk { agenda: std::collections::VecDeque::new() };
        w.put_first(seeds, true);
        assert(w.agenda() =~= enters(seeds@));
        w
    }

    /// Puts `titles` before the rest of the agenda, in order: as
    /// categories to enter when `enter`, else as pages to fetch.
    fn put_first(&mut self, titles: Vec<String>, enter: bool)
        ensures
            final(self).agenda() == as_items(titles@, enter) + old(self).agenda(),
    {
        let ghost all = titles@;
        let ghost rest = self.agenda@;
        let mut titles = titles;
        while titles.len() > 0
            invariant
                as_items(titles@, enter) + self.agenda@ == as_items(all, enter) + rest,
            decreases titles@.len(),
        {
            let ghost before = titles@;
            let ghost prev = self.agenda@;
            let t = titles.pop().unwrap();
            assert(before =~= titles@.push(t));
            let item = if enter {
                WalkItem::Enter(t)
            } else {
                WalkItem::Fetch(t)
            };
            assert(as_items(before, enter) =~= as_items(titles@, enter).push(item));
            self.agenda.push_front(item);
            assert(as_items(titles@, enter) + self.agenda@ =~= as_items(before, enter) + prev);
        }
        assert(as_items(titles@, enter) =~= Seq::<WalkItem>::empty());
        assert(self.agenda@ =~= as_items(all, enter) + rest);
    }

    /// The next piece of work: categories already entered are passed over,
    /// and a category handed out is entered in `visits`. `None` when the
    /// walk is over.
    pub fn next_step(&mut self, visits: &mut CrawlVisits) -> (res: Option<WalkItem>)
        ensures
            (final(self).agenda(), final(visits).categories(), res) == walk_next(
                old(self).agenda(),
                old(visits).categories(),
            ),
            final(visits).pages() == old(visits).pages(),
    {
        loop
            invariant
                walk_next(self.agenda@, visits.categories()) == walk_next(
                    old(self).agenda(),
                    old(visits).categories(),
                ),
                visits.pages() == old(visits).pages(),
            decreases self.agenda@.len(),
        {
            let ghost a = self.agenda@;
            match self.agenda.pop_front() {
                None => {
                    return None;
                },
                Some(WalkItem::Enter(t)) => {
                    assert(a[0] == WalkItem::Enter(t));
                    assert(a.drop_first() =~= self.agenda@);
                    let ghost cats = visits.categories();
                    if visits.enter_category(t.as_str()) {
                        return Some(WalkItem::Enter(t));
                    }
                    assert(visits.categories() =~= cats);
                },
                Some(WalkItem::Fetch(t)) => {
                    assert(a[0] == WalkItem::Fetch(t));
                    assert(a.drop_first() =~= self.agenda@);
                    return Some(WalkItem::Fetch(t));
                },
            }
        }
    }

    /// Takes in the listing of the category just entered: its
    /// subcategories are walked next, in order, then its pages are fetched,
    /// before the rest of the walk.
    pub fn take_listing(&mut self, subcats: Vec<String>, pages: Vec<String>)
        ensures
            final(self).agenda() == enters(subcats@) + fetches(pages@) + old(self).agenda(),
    {
        self.put_first(pages, false);
        self.put_first(subcats, true);
        assert(enters(subcats@) + (fetches(pages@) + old(self).agenda()) =~= enters(subcats@)
            + fetches(pages@) + old(self).agenda());
    }
}

/// A walk enters each category once: a category handed out by a step had
/// not been entered before and is entered by it; a page handed out, or the
/// end of the walk, enters nothing. What is left is a tail of the agenda.
pub proof fn law_walk_enters_once(agenda: Seq<WalkItem>, entered: Set<Seq<char>>)
    ensures
        match walk_next(agenda, entered).2 {
            Some(WalkItem::Enter(t)) => !entered.contains(t@) && walk_next(agenda, entered).1
                == entered.insert(t@),
            _ => walk_next(agenda, entered).1 == entered,
        },
        walk_next(agenda, entered).0.len() <= agenda.len(),
        walk_next(agenda, entered).0 == agenda.subrange(
            agenda.len() - walk_next(agenda, entered).0.len(),
            agenda.len() as int,
        ),
    decreases agenda.len(),
{
    if agenda.len() > 0 {
        law_walk_enters_once(agenda.drop_first(), entered);
        let r = walk_next(agenda.drop_first(), entered).0;
        assert(agenda.drop_first().subrange(
            agenda.drop_first().len() - r.len(),
            agenda.drop_first().len() as int,
        ) =~= agenda.subrange(agenda.len() - r.len(), agenda.len() as int));
        assert(agenda.drop_first() =~= agenda.subrange(1, agenda.len() as int));
    } else {
        assert(agenda.subrange(0, 0) =~= agenda);
    }
}

} // verus!
