use std::path::PathBuf;

use lorebook::app::Tab;
use lorebook::config::UserConfig;
use lorebook::crawl_tab::{first_category, format_duration_secs, CrawlNotice, CrawlState};
use lorebook::entry::WorldInfoEntry;
use lorebook::export::{build_world_info, export_entry, ExportState, WorldInfo};
use lorebook::library::{duplicate_of, LibraryState, ViewMode};
use lorebook::pages::{PageData, ProgressEvent};
use lorebook::theme::ThemeChoice;
use lorebook::toast::{Toast, ToastKind, ToastQueue};

fn entry(uid: u64, name: &str) -> WorldInfoEntry {
    WorldInfoEntry::new(uid, name.to_string(), vec![name.to_string()], String::new(), String::new(), 50, 1)
}

#[test]
fn tab_labels_and_icons() {
    assert_eq!(Tab::Crawl.label(), "Crawl");
    assert_eq!(Tab::Library.label(), "Library");
    assert_eq!(Tab::Export.label(), "Export");
    assert_eq!(Tab::Crawl.icon(), "🜲");
    assert_eq!(Tab::Library.icon(), "🕮");
    assert_eq!(Tab::Export.icon(), "⇪");
}

#[test]
fn themes() {
    assert_eq!(ThemeChoice::all(), [ThemeChoice::Mocha, ThemeChoice::Macchiato, ThemeChoice::Frappe, ThemeChoice::Latte]);
    assert_eq!(ThemeChoice::Frappe.display(), "Frappé (dark)");
    assert_eq!(ThemeChoice::Latte.display(), "Latte (light)");
    assert!(ThemeChoice::Mocha.is_dark());
    assert!(!ThemeChoice::Latte.is_dark());
}

#[test]
fn config_lives_in_config_dir() {
    assert_eq!(UserConfig::config_path("/home/u/.config/lb"), "/home/u/.config/lb/config.json");
    let c = UserConfig::default();
    assert!(c.theme.is_none() && c.enabled_seeds.is_empty());
}

#[test]
fn crawl_tab_defaults_and_seeds() {
    let mut s = CrawlState::new();
    assert_eq!(s.wiki_url, "lordofthemysteries.fandom.com");
    assert_eq!(s.req_per_sec, 2);
    assert!(s.use_cache && !s.include_subpages && !s.running);
    assert_eq!(s.selected_seeds().len(), 7);
    s.categories[1].enabled = false;
    s.categories[6].enabled = false;
    assert_eq!(
        s.selected_seeds(),
        vec!["Characters", "Pathways", "Items", "Organizations", "Events"]
    );
    assert!(s.can_start());
    s.wiki_url = "   ".to_string();
    assert!(!s.can_start());
    s.wiki_url = " lotm.fandom.com ".to_string();
    let plan = s.plan(41);
    assert_eq!(plan.api_base, "https://lotm.fandom.com/api.php");
    assert_eq!(plan.start_uid, 42);
    assert_eq!(plan.seeds.len(), 5);
    for c in s.categories.iter_mut() {
        c.enabled = false;
    }
    assert!(!s.can_start());
}

#[test]
fn crawl_events_move_the_counters() {
    let mut s = CrawlState::new();
    s.running = true;
    let n = s.apply_event(ProgressEvent::CategoryEntered { title: "Characters".to_string(), total_in: 12 }, "10:00:00".to_string());
    assert!(matches!(n, CrawlNotice::Nothing));
    assert_eq!(s.total_in, 12);
    s.apply_event(ProgressEvent::PageFetched { title: "Klein".to_string(), pageid: 1, cached: false }, "t".to_string());
    s.apply_event(ProgressEvent::PageFetched { title: "Audrey".to_string(), pageid: 2, cached: true }, "t".to_string());
    assert_eq!((s.ok, s.cached), (1, 1));
    let n = s.apply_event(ProgressEvent::EntryBuilt { uid: 1, name: "Klein".to_string(), category: "C".to_string() }, "t".to_string());
    assert!(matches!(n, CrawlNotice::RefreshCount));
    assert_eq!(s.entries_built, 1);
    let n = s.apply_event(ProgressEvent::PageFailed { title: "X".to_string(), error: "HTTP 404".to_string() }, "t".to_string());
    assert!(matches!(n, CrawlNotice::Nothing));
    let n = s.apply_event(ProgressEvent::PageFailed { title: "init".to_string(), error: "tokio: no runtime".to_string() }, "t".to_string());
    match n {
        CrawlNotice::CrawlError(m) => assert_eq!(m, "Crawl error: tokio: no runtime"),
        _ => panic!("expected a crawl error"),
    }
    assert_eq!(s.err, 2);
    assert_eq!(s.log[0], ("10:00:00".to_string(), "→ Category Characters (12 pages)".to_string()));
    assert_eq!(s.log[1].1, "Fetched Klein");
    assert_eq!(s.log[3].1, "Stored entry: Klein");
    assert_eq!(s.log[4].1, "FAIL X: HTTP 404");
    let n = s.apply_event(ProgressEvent::Done, "t".to_string());
    assert!(matches!(n, CrawlNotice::Complete));
    assert!(!s.running);
    assert!(s.cancel.is_none());
}

#[test]
fn saturating_total() {
    let mut s = CrawlState::new();
    s.total_in = u64::MAX - 1;
    s.apply_event(ProgressEvent::CategoryEntered { title: "A".to_string(), total_in: 5 }, "t".to_string());
    assert_eq!(s.total_in, u64::MAX);
}

#[test]
fn cancel_request_says_so() {
    let mut s = CrawlState::new();
    s.request_cancel();
    assert_eq!(s.last_message, "Cancelling…");
}

#[test]
fn durations() {
    assert_eq!(format_duration_secs(0), "0s");
    assert_eq!(format_duration_secs(42), "42s");
    assert_eq!(format_duration_secs(187), "3m 07s");
    assert_eq!(format_duration_secs(3599), "59m 59s");
    assert_eq!(format_duration_secs(7500), "2h 05m");
}

#[test]
fn first_category_of_page() {
    let mut p = PageData { pageid: 1, title: "T".to_string(), revid: 1, wikitext: String::new(), categories: vec![], url: String::new() };
    assert_eq!(first_category(&p), "");
    p.categories = vec!["Characters".to_string(), "Nobles".to_string()];
    assert_eq!(first_category(&p), "Characters");
}

#[test]
fn library_search_and_edits() {
    let mut lib = LibraryState::new();
    assert_eq!(lib.view, ViewMode::Table);
    lib.reload_from(Ok(vec![entry(1, "Klein"), entry(2, "Audrey"), entry(3, "Alger")]));
    assert_eq!(lib.matching(), vec![0, 1, 2]);
    lib.search = "AUD".to_string();
    assert_eq!(lib.matching(), vec![1]);
    lib.reload_from(Err("disk full".to_string()));
    assert_eq!(lib.error.as_deref(), Some("load: disk full"));
    assert_eq!(lib.entries.len(), 3);

    let e = lib.new_entry(4);
    assert_eq!(e.name, "New entry #4");
    assert_eq!(e.priority, 50);
    lib.new_entry_name = "Custom".to_string();
    assert_eq!(lib.new_entry(5).name, "Custom");

    lib.selected = Some(2);
    assert_eq!(lib.selected_index(), Some(1));
    assert_eq!(lib.selected_name(), "Audrey");
    let copy = duplicate_of(&lib.entries[1], 10);
    assert_eq!(copy.name, "Audrey (copy)");
    assert_eq!((copy.uid, copy.order, copy.insertion_order), (10, 10, 10));
    assert_eq!(copy.keys, lib.entries[1].keys);
    lib.add_selected(copy);
    assert_eq!(lib.selected, Some(10));
    assert_eq!(lib.entries.len(), 4);

    lib.remove_entry(2);
    let uids: Vec<u64> = lib.entries.iter().map(|e| e.uid).collect();
    assert_eq!(uids, vec![1, 3, 10]);
    assert_eq!(lib.selected, None);
    assert_eq!(lib.selected_name(), "");
    lib.clear_entries();
    assert!(lib.entries.is_empty());
}

#[test]
fn export_defaults_and_keys() {
    let st = ExportState::new(PathBuf::from("lorebook.json"));
    assert_eq!(st.name, "Lorebook");
    assert_eq!((st.scan_depth, st.token_budget), (50, 2000));
    let mut e = entry(2, "Klein");
    e.priority = 0;
    e.depth = 0;
    e.probability = 0;
    let x = export_entry(e, &st);
    assert_eq!((x.priority, x.order, x.insertion_order, x.extensions.weight), (100, 100, 100, 100));
    assert_eq!((x.depth, x.extensions.depth), (4, 4));
    assert_eq!((x.probability, x.extensions.probability), (100, 100));

    let wb = build_world_info(&st, vec![entry(2, "B"), entry(10, "J"), entry(1, "A"), entry(2, "B2")]);
    let keys: Vec<&str> = wb.entries.iter().map(|(k, _)| k.as_str()).collect();
    assert_eq!(keys, vec!["1", "10", "2"]);
    assert_eq!(wb.entries[2].1.name, "B2");
    assert_eq!(wb.entries[1].1.order, 50);
    assert_eq!(wb.name, "Lorebook");
    let empty = WorldInfo::new("X".to_string());
    assert!(empty.entries.is_empty());
    assert_eq!(ExportState::typed_path("  /a/b.json "), Some("/a/b.json".to_string()));
    assert_eq!(ExportState::typed_path("   "), None);
}

#[test]
fn toasts() {
    let t = Toast::new(ToastKind::Error, "boom".to_string());
    assert_eq!(t.duration, 7000);
    assert_eq!(Toast::new(ToastKind::Info, String::new()).duration, 3000);
    assert_eq!(Toast::new(ToastKind::Success, String::new()).duration, 4000);
    assert_eq!(Toast::new(ToastKind::Warning, String::new()).duration, 5000);
    assert_eq!(t.expires_at(), t.created + 7000);
    assert!(t.age() < 60_000);
    let old = Toast::created_at(ToastKind::Info, "old".to_string(), 1_000);
    assert_eq!(old.expires_at(), 4_000);
    assert_eq!(old.age_at(2_500), 1_500);
    assert_eq!(old.age_at(500), 0);

    let mut q = ToastQueue::new();
    assert!(q.is_empty());
    assert_eq!(q.max_visible, 5);
    for i in 0..40 {
        q.info(format!("n{i}"));
    }
    assert_eq!(q.items.len(), 32);
    assert_eq!(q.items[0].message, "n8");
    assert_eq!(q.items[31].message, "n39");
    q.error("last".to_string());
    assert_eq!(q.items.len(), 32);
    assert_eq!(q.items[31].kind, ToastKind::Error);
    q.tick();
    assert_eq!(q.items.len(), 32);
}

#[test]
fn tick_drops_exactly_the_expired() {
    let mut q = ToastQueue::new();
    q.add(Toast::created_at(ToastKind::Info, "a".to_string(), 0));
    q.add(Toast::created_at(ToastKind::Error, "b".to_string(), 0));
    q.add(Toast::created_at(ToastKind::Success, "c".to_string(), 1_000));
    q.tick_at(3_000);
    let left: Vec<&str> = q.items.iter().map(|t| t.message.as_str()).collect();
    assert_eq!(left, vec!["b", "c"]);
    q.tick_at(5_000);
    let left: Vec<&str> = q.items.iter().map(|t| t.message.as_str()).collect();
    assert_eq!(left, vec!["b"]);
    q.tick_at(7_000);
    assert!(q.is_empty());
}

#[test]
fn toast_colours() {
    assert_eq!(ToastKind::Info.color(), (120, 170, 240));
    assert_eq!(ToastKind::Success.color(), (100, 200, 120));
    assert_eq!(ToastKind::Warning.color(), (230, 180, 60));
    assert_eq!(ToastKind::Error.color(), (220, 90, 90));
}
