//! The state of the Crawl tab and how crawl progress moves it.

use vstd::prelude::*;

use std::sync::atomic::AtomicBool;
use std::sync::mpsc::Receiver;
use std::sync::Arc;
use std::time::Instant;

use crate::pages::{owned, PageData, ProgressEvent};
use crate::text::{
    chars_of, contains, contains_seq, decimal, push_all, push_decimal, string_from_chars, trim,
    trimmed,
};
use crate::wikitext::strings_view;

verus! {

/// The receiving end of a channel, as `std::sync::mpsc` gives it.
#[verifier::external_type_specification]
#[verifier::external_body]
#[verifier::reject_recursive_types(T)]
pub struct ExReceiver<T>(std::sync::mpsc::Receiver<T>);

/// A seed category and whether the crawl starts from it.
pub struct CategoryToggle {
    pub name: String,
    pub enabled: bool,
}

/// What the Crawl tab shows and remembers.
pub struct CrawlState {
    pub wiki_url: String,
    pub req_per_sec: u32,
    pub include_subpages: bool,
    pub use_cache: bool,
    pub categories: Vec<CategoryToggle>,
    pub running: bool,
    pub started_at: Option<Instant>,
    pub ok: u64,
    pub err: u64,
    pub cached: u64,
    pub entries_built: u64,
    pub total_in: u64,
    pub last_message: String,
    pub rx: Option<Receiver<ProgressEvent>>,
    pub cancel: Option<Arc<AtomicBool>>,
    pub error: Option<String>,
    pub log: Vec<(String, String)>,
}

pub open spec fn toggles_view(v: Seq<CategoryToggle>) -> Seq<(Seq<char>, bool)> {
    v.map_values(|c: CategoryToggle| (c.name@, c.enabled))
}

pub open spec fn log_view(v: Seq<(String, String)>) -> Seq<(Seq<char>, Seq<char>)> {
    v.map_values(|p: (String, String)| (p.0@, p.1@))
}

/// The names of the enabled categories, in order.
pub open spec fn enabled_names(v: Seq<(Seq<char>, bool)>) -> Seq<Seq<char>>
    decreases v.len(),
{
    if v.len() == 0 {
        Seq::empty()
    } else {
        let init = enabled_names(v.drop_last());
        if v.last().1 {
            init.push(v.last().0)
        } else {
            init
        }
    }
}

/// The seed categories a new Crawl tab offers, all enabled.
pub open spec fn default_seeds() -> Seq<Seq<char>> {
    seq![
        "Characters"@,
        "Locations"@,
        "Pathways"@,
        "Items"@,
        "Organizations"@,
        "Events"@,
        "Terminology"@,
    ]
}

fn toggle(name: &str) -> (res: CategoryToggle)
    ensures
        res.name@ == name@,
        res.enabled,
{
    CategoryToggle { name: owned(name), enabled: true }
}

/// What a crawl run is started with.
pub struct CrawlPlan {
    /// The wiki's API endpoint.
    pub api_base: String,
    pub seeds: Vec<String>,
    pub req_per_sec: u32,
    pub use_cache: bool,
    pub include_subpages: bool,
    /// The uid of the first entry the run stores.
    pub start_uid: u64,
}

/// The API endpoint of a wiki given by its host name.
pub open spec fn api_base_text(wiki_url: Seq<char>) -> Seq<char> {
    "https://"@ + trim(wiki_url) + "/api.php"@
}

/// What the application does besides updating the Crawl tab when an event
/// arrives.
pub enum CrawlNotice {
    Nothing,
    /// Count the library's entries again.
    RefreshCount,
    /// The crawl is over: count the entries again and say so.
    Complete,
    /// A failure that stopped the crawl from starting: show this message.
    CrawlError(String),
}

pub open spec fn fetched_message(title: Seq<char>) -> Seq<char> {
    "Fetched "@ + title
}

pub open spec fn category_message(title: Seq<char>, total_in: nat) -> Seq<char> {
    "→ Category "@ + title + " ("@ + decimal(total_in) + " pages)"@
}

pub open spec fn stored_message(name: Seq<char>) -> Seq<char> {
    "Stored entry: "@ + name
}

pub open spec fn failure_message(title: Seq<char>, error: Seq<char>) -> Seq<char> {
    "FAIL "@ + title + ": "@ + error
}

/// A failure to set the crawl up (its runtime or one of its parts) rather
/// than to fetch a page.
pub open spec fn is_setup_failure(error: Seq<char>) -> bool {
    contains_seq(error, "tokio"@) || contains_seq(error, "init"@)
}

fn join2(a: &str, b: &str) -> (res: String)
    ensures
        res@ == a@ + b@,
{
    let mut v = chars_of(a);
    push_all(&mut v, chars_of(b).as_slice());
    string_from_chars(v.as_slice())
}

fn join4(a: &str, b: &str, c: &str, d: &str) -> (res: String)
    ensures
        res@ == a@ + b@ + c@ + d@,
{
    let mut v = chars_of(a);
    push_all(&mut v, chars_of(b).as_slice());
    push_all(&mut v, chars_of(c).as_slice());
    push_all(&mut v, chars_of(d).as_slice());
    string_from_chars(v.as_slice())
}

fn category_message_exec(title: &str, total_in: usize) -> (res: String)
    ensures
        res@ == category_message(title@, total_in as nat),
{
    let mut v = chars_of("→ Category ");
    push_all(&mut v, chars_of(title).as_slice());
    push_all(&mut v, chars_of(" (").as_slice());
    push_decimal(&mut v, total_in as u64);
    push_all(&mut v, chars_of(" pages)").as_slice());
    string_from_chars(v.as_slice())
}

impl CrawlState {
    /// A fresh Crawl tab: the Lord of the Mysteries wiki, two requests a
    /// second, the disk cache on, subpages off, every seed category
    /// enabled, nothing running and nothing counted.
    pub fn new() -> (res: Self)
        ensures
            res.wiki_url@ == "lordofthemysteries.fandom.com"@,
            res.req_per_sec == 2,
            !res.include_subpages,
            res.use_cache,
            toggles_view(res.categories@) == default_seeds().map_values(
                |n: Seq<char>| (n, true),
            ),
            !res.running,
            res.started_at is None,
            res.ok == 0 && res.err == 0 && res.cached == 0,
            res.entries_built == 0 && res.total_in == 0,
            res.last_message@.len() == 0,
            res.rx is None,
            res.cancel is None,
            res.error is None,
            res.log@.len() == 0,
    {
        let categories = vec![
            toggle("Characters"),
            toggle("Locations"),
            toggle("Pathways"),
            toggle("Items"),
            toggle("Organizations"),
            toggle("Events"),
            toggle("Terminology"),
        ];
        assert(toggles_view(categories@) =~= default_seeds().map_values(|n: Seq<char>| (n, true)));
        CrawlState {
            wiki_url: owned("lordofthemysteries.fandom.com"),
            req_per_sec: 2,
            include_subpages: false,
            use_cache: true,
            categories,
            running: false,
            started_at: None,
            ok: 0,
            err: 0,
            cached: 0,
            entries_built: 0,
            total_in: 0,
            last_message: String::new(),
            rx: None,
            cancel: None,
            error: None,
            log: Vec::new(),
        }
    }

    /// The names of the enabled seed categories, in order.
    pub fn selected_seeds(&self) -> (res: Vec<String>)
        ensures
            strings_view(res@) == enabled_names(toggles_view(self.categories@)),
    {
        let mut out: Vec<String> = Vec::new();
        let mut i: usize = 0;
        while i < self.categories.len()
            invariant
                i <= self.categories@.len(),
                strings_view(out@) == enabled_names(toggles_view(self.categories@).take(i as int)),
            decreases self.categories@.len() - i,
        {
            let ghost taken = toggles_view(self.categories@).take(i + 1);
            assert(taken.drop_last() =~= toggles_view(self.categories@).take(i as int));
            let c = &self.categories[i];
            if c.enabled {
                let ghost before = strings_view(out@);
                out.push(c.name.clone());
                assert(strings_view(out@) =~= before.push(c.name@));
            }
            i = i + 1;
        }
        assert(toggles_view(self.categories@).take(i as int) =~= toggles_view(self.categories@));
        out
    }

    /// A crawl can start when none is running, a wiki is named and a seed
    /// category is enabled.
    pub fn can_start(&self) -> (res: bool)
        ensures
            res == (!self.running && trim(self.wiki_url@).len() > 0 && enabled_names(
                toggles_view(self.categories@),
            ).len() > 0),
    {
        if self.running {
            return false;
        }
        let url = trimmed(chars_of(self.wiki_url.as_str()).as_slice());
        if url.len() == 0 {
            return false;
        }
        let seeds = self.selected_seeds();
        seeds.len() > 0
    }

    /// What a run started now is given: the API endpoint of the named wiki,
    /// the enabled seeds, the tab's settings, and the first uid after the
    /// largest one in the library.
    pub fn plan(&self, max_uid: u64) -> (res: CrawlPlan)
        requires
            max_uid < u64::MAX,
        ensures
            res.api_base@ == api_base_text(self.wiki_url@),
            strings_view(res.seeds@) == enabled_names(toggles_view(self.categories@)),
            res.req_per_sec == self.req_per_sec,
            res.use_cache == self.use_cache,
            res.include_subpages == self.include_subpages,
            res.start_uid == max_uid + 1,
    {
        let mut v = chars_of("https://");
        let url = trimmed(chars_of(self.wiki_url.as_str()).as_slice());
        push_all(&mut v, url.as_slice());
        push_all(&mut v, chars_of("/api.php").as_slice());
        CrawlPlan {
            api_base: string_from_chars(v.as_slice()),
            seeds: self.selected_seeds(),
            req_per_sec: self.req_per_sec,
            use_cache: self.use_cache,
            include_subpages: self.include_subpages,
            start_uid: max_uid + 1,
        }
    }

    /// A run begins at `started_at`, reporting through `rx` and stopped
    /// through `cancel`: it is running, nothing is counted yet, and the
    /// error, the log and the last message are cleared.
    pub fn begin_run(&mut self, started_at: Instant, rx: Receiver<ProgressEvent>, cancel: Arc<AtomicBool>)
        ensures
            final(self).running,
            final(self).ok == 0 && final(self).err == 0 && final(self).cached == 0,
            final(self).entries_built == 0 && final(self).total_in == 0,
            final(self).started_at == Some(started_at),
            final(self).error is None,
            final(self).log@.len() == 0,
            final(self).last_message@.len() == 0,
            final(self).rx == Some(rx),
            final(self).cancel == Some(cancel),
            final(self).wiki_url == old(self).wiki_url,
            final(self).req_per_sec == old(self).req_per_sec,
            final(self).include_subpages == old(self).include_subpages,
            final(self).use_cache == old(self).use_cache,
            final(self).categories == old(self).categories,
    {
        self.running = true;
        self.ok = 0;
        self.err = 0;
        self.cached = 0;
        self.entries_built = 0;
        self.total_in = 0;
        self.started_at = Some(started_at);
        self.error = None;
        self.log = Vec::new();
        self.last_message = String::new();
        self.rx = Some(rx);
        self.cancel = Some(cancel);
    }

    /// No counter is at its largest value.
    pub open spec fn can_count(&self) -> bool {
        &&& self.ok < u64::MAX
        &&& self.err < u64::MAX
        &&& self.cached < u64::MAX
        &&& self.entries_built < u64::MAX
    }

    /// Moves the tab along with one event of the running crawl, stamped
    /// `at` in the log, and says what else the application is to do.
    pub fn apply_event(&mut self, ev: ProgressEvent, at: String) -> (notice: CrawlNotice)
        requires
            old(self).can_count(),
        ensures
            match ev {
                ProgressEvent::Done => {
                    &&& *final(self) == (CrawlState { running: false, cancel: None, ..*old(self) })
                    &&& notice is Complete
                },
                ProgressEvent::Cancelled => {
                    &&& *final(self) == (CrawlState { running: false, cancel: None, ..*old(self) })
                    &&& notice is Nothing
                },
                ProgressEvent::PageFetched { title, pageid, cached } => {
                    &&& log_view(final(self).log@) == log_view(old(self).log@).push(
                        (at@, fetched_message(title@)),
                    )
                    &&& *final(self) == (CrawlState {
                        log: final(self).log,
                        cached: if cached { (old(self).cached + 1) as u64 } else { old(self).cached },
                        ok: if cached { old(self).ok } else { (old(self).ok + 1) as u64 },
                        ..*old(self)
                    })
                    &&& notice is Nothing
                },
                ProgressEvent::CategoryEntered { title, total_in } => {
                    &&& log_view(final(self).log@) == log_view(old(self).log@).push(
                        (at@, category_message(title@, total_in as nat)),
                    )
                    &&& *final(self) == (CrawlState {
                        log: final(self).log,
                        total_in: if old(self).total_in + total_in > u64::MAX {
                            u64::MAX
                        } else {
                            (old(self).total_in + total_in) as u64
                        },
                        ..*old(self)
                    })
                    &&& notice is Nothing
                },
                ProgressEvent::EntryBuilt { uid, name, category } => {
                    &&& log_view(final(self).log@) == log_view(old(self).log@).push(
                        (at@, stored_message(name@)),
                    )
                    &&& *final(self) == (CrawlState {
                        log: final(self).log,
                        entries_built: (old(self).entries_built + 1) as u64,
                        ..*old(self)
                    })
                    &&& notice is RefreshCount
                },
                ProgressEvent::PageFailed { title, error } => {
                    &&& log_view(final(self).log@) == log_view(old(self).log@).push(
                        (at@, failure_message(title@, error@)),
                    )
                    &&& *final(self) == (CrawlState {
                        log: final(self).log,
                        err: (old(self).err + 1) as u64,
                        ..*old(self)
                    })
                    &&& match notice {
                        CrawlNotice::CrawlError(m) => is_setup_failure(error@) && m@ == "Crawl error: "@
                            + error@,
                        CrawlNotice::Nothing => !is_setup_failure(error@),
                        _ => false,
                    }
                },
            },
    {
        match ev {
            ProgressEvent::Done => {
                self.running = false;
                self.cancel = None;
                CrawlNotice::Complete
            },
            ProgressEvent::Cancelled => {
                self.running = false;
                self.cancel = None;
                CrawlNotice::Nothing
            },
            ProgressEvent::PageFetched { title, pageid, cached } => {
                if cached {
                    self.cached = self.cached + 1;
                } else {
                    self.ok = self.ok + 1;
                }
                let msg = join2("Fetched ", title.as_str());
                let ghost before = log_view(self.log@);
                self.log.push((at, msg));
                assert(log_view(self.log@) =~= before.push((at@, fetched_message(title@))));
                CrawlNotice::Nothing
            },
            ProgressEvent::CategoryEntered { title, total_in } => {
                self.total_in = self.total_in.saturating_add(total_in as u64);
                let msg = category_message_exec(title.as_str(), total_in);
                let ghost before = log_view(self.log@);
                self.log.push((at, msg));
                assert(log_view(self.log@) =~= before.push((at@, category_message(title@, total_in as nat))));
                CrawlNotice::Nothing
            },
            ProgressEvent::EntryBuilt { uid, name, category } => {
                self.entries_built = self.entries_built + 1;
                let msg = join2("Stored entry: ", name.as_str());
                let ghost before = log_view(self.log@);
                self.log.push((at, msg));
                assert(log_view(self.log@) =~= before.push((at@, stored_message(name@))));
                CrawlNotice::RefreshCount
            },
            ProgressEvent::PageFailed { title, error } => {
                self.err = self.err + 1;
                let msg = join4("FAIL ", title.as_str(), ": ", error.as_str());
                let ghost before = log_view(self.log@);
                self.log.push((at, msg));
                assert(log_view(self.log@) =~= before.push((at@, failure_message(title@, error@))));
                let e = chars_of(error.as_str());
                let tokio = chars_of("tokio");
                let init = chars_of("init");
                if contains(e.as_slice(), tokio.as_slice()) || contains(e.as_slice(), init.as_slice()) {
                    CrawlNotice::CrawlError(join2("Crawl error: ", error.as_str()))
                } else {
                    CrawlNotice::Nothing
                }
            },
        }
    }

    /// The Cancel button: the running crawl is asked to stop after its
    /// current page, and the tab says it is cancelling.
    pub fn request_cancel(&mut self)
        ensures
            final(self).last_message@ == "Cancelling…"@,
            *final(self) == (CrawlState { last_message: final(self).last_message, ..*old(self) }),
    {
        match &self.cancel {
            Some(c) => {
                c.store(true, std::sync::atomic::Ordering::Relaxed);
            },
            None => {},
        }
        self.last_message = owned("Cancelling…");
    }
}

/// The category an entry of `page` is stored under: its first category,
/// or nothing.
pub fn first_category(page: &PageData) -> (res: String)
    ensures
        res@ == if page.categories@.len() > 0 {
            page.categories@[0]@
        } else {
            Seq::<char>::empty()
        },
{
    if page.categories.len() > 0 {
        page.categories[0].clone()
    } else {
        String::new()
    }
}

/// `n` with at least two digits.
pub open spec fn two_digits(n: nat) -> Seq<char> {
    if n < 10 {
        seq!['0'] + decimal(n)
    } else {
        decimal(n)
    }
}

/// A number of seconds as the tab shows it: `42s`, `3m 07s`, `2h 05m`.
pub open spec fn duration_text(secs: nat) -> Seq<char> {
    if secs < 60 {
        decimal(secs) + "s"@
    } else if secs / 60 < 60 {
        decimal(secs / 60) + "m "@ + two_digits(secs % 60) + "s"@
    } else {
        decimal(secs / 3600) + "h "@ + two_digits((secs / 60) % 60) + "m"@
    }
}

fn push_two_digits(v: &mut Vec<char>, n: u64)
    ensures
        final(v)@ == old(v)@ + two_digits(n as nat),
{
    if n < 10 {
        v.push('0');
        let ghost mid = v@;
        push_decimal(v, n);
        assert(v@ =~= old(v)@ + (seq!['0'] + decimal(n as nat)));
    } else {
        push_decimal(v, n);
    }
}

/// A whole number of seconds as the tab shows elapsed and remaining time.
pub fn format_duration_secs(secs: u64) -> (res: String)
    ensures
        res@ == duration_text(secs as nat),
{
    let mut v: Vec<char> = Vec::new();
    if secs < 60 {
        push_decimal(&mut v, secs);
        v.push('s');
        assert(v@ =~= decimal(secs as nat) + "s"@) by {
            reveal_strlit("s");
        }
    } else {
        let m = secs / 60;
        let s = secs % 60;
        if m < 60 {
            push_decimal(&mut v, m);
            v.push('m');
            v.push(' ');
            let ghost a = v@;
            push_two_digits(&mut v, s);
            v.push('s');
            assert(v@ =~= decimal(m as nat) + "m "@ + two_digits(s as nat) + "s"@) by {
                reveal_strlit("m ");
                reveal_strlit("s");
            }
        } else {
            let h = m / 60;
            let mm = m % 60;
            assert(h == secs / 3600) by (nonlinear_arith)
                requires
                    m == secs / 60,
                    h == m / 60,
            ;
            push_decimal(&mut v, h);
            v.push('h');
            v.push(' ');
            push_two_digits(&mut v, mm);
            v.push('m');
            assert(v@ =~= decimal(h as nat) + "h "@ + two_digits(mm as nat) + "m"@) by {
                reveal_strlit("h ");
                reveal_strlit("m");
            }
        }
    }
    string_from_chars(v.as_slice())
}


/// The time of day of a moment given in seconds since the Unix epoch, as
/// `HH:MM:SS` (UTC).
pub open spec fn clock_text(secs: nat) -> Seq<char> {
    let day = secs % 86400;
    two_digits(day / 3600) + seq![':'] + two_digits((day % 3600) / 60) + seq![':'] + two_digits(day % 60)
}

/// The log's time stamp for a moment given in seconds since the Unix
/// epoch.
pub fn clock_stamp(secs: u64) -> (res: String)
    ensures
        res@ == clock_text(secs as nat),
{
    let day = secs % 86400;
    let mut v: Vec<char> = Vec::new();
    push_two_digits(&mut v, day / 3600);
    v.push(':');
    push_two_digits(&mut v, (day % 3600) / 60);
    v.push(':');
    push_two_digits(&mut v, day % 60);
    string_from_chars(v.as_slice())
}

} // verus!
