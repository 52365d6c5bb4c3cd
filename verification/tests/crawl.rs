use lorebook::api::{after_attempt, api_url, effective_rate, request_attempts, url_encode, AttemptOutcome};
use lorebook::extract::{
    build_entries, build_entry_from_page, can_classify, classify, default_position,
    default_priority, extract_content, extract_keys, PageKind,
};
use lorebook::pages::{
    category_members_params, final_event, keep_new_page, page_params, page_url, sort_members,
    CategoryListing, CategoryMember, CategoryWalk, ContinueToken, CrawlVisits, PageData, PageFetch, PageRecord, ProgressEvent,
    RevisionRecord, WalkItem,
};

fn page(title: &str, wikitext: &str, cats: &[&str]) -> PageData {
    PageData {
        pageid: 1,
        title: title.to_string(),
        revid: 2,
        wikitext: wikitext.to_string(),
        categories: cats.iter().map(|c| c.to_string()).collect(),
        url: String::new(),
    }
}

#[test]
fn url_encode_escapes_all_but_alphanumerics() {
    assert_eq!(url_encode("a b/c"), "a%20b%2Fc");
    assert_eq!(url_encode("A-z_9"), "A%2Dz%5F9");
    assert_eq!(url_encode("é"), "%C3%A9");
    assert_eq!(url_encode(""), "");
}

#[test]
fn api_url_joins_parameters() {
    let params = vec![
        ("action".to_string(), "query".to_string()),
        ("titles".to_string(), "A B".to_string()),
    ];
    assert_eq!(
        api_url("https://w.org/api.php", &params),
        "https://w.org/api.php?action=query&titles=A%20B&format=json"
    );
    assert_eq!(api_url("https://w.org/api.php", &Vec::new()), "https://w.org/api.php?&format=json");
}

#[test]
fn page_url_from_api_base() {
    assert_eq!(
        page_url("https://lotm.fandom.com/api.php", "Klein Moretti"),
        "https://lotm.fandom.com/wiki/Klein%20Moretti"
    );
    assert_eq!(page_url("lotm.fandom.com/api.php", "A/B"), "https://lotm.fandom.com/wiki/A/B");
    assert_eq!(page_url("http://x.org//", "C"), "http://x.org/wiki/C");
}

#[test]
fn request_params_in_order() {
    let p = category_members_params("Characters", &None);
    let p: Vec<(&str, &str)> = p.iter().map(|(k, v)| (k.as_str(), v.as_str())).collect();
    assert_eq!(
        p,
        vec![
            ("action", "query"),
            ("list", "categorymembers"),
            ("cmtitle", "Category:Characters"),
            ("cmlimit", "500"),
            ("formatversion", "2"),
        ]
    );
    let cont = Some(ContinueToken {
        cmcontinue: None,
        gcmcontinue: None,
        rvcontinue: Some("r1".to_string()),
        cont: Some("||".to_string()),
    });
    let q = page_params("Audrey", &cont);
    assert_eq!(q.len(), 10);
    assert_eq!(q[1], ("titles".to_string(), "Audrey".to_string()));
    assert_eq!(q[8], ("rvcontinue".to_string(), "r1".to_string()));
    assert_eq!(q[9], ("continue".to_string(), "||".to_string()));
}

#[test]
fn category_listing_goes_on_where_the_answer_left_off() {
    let cont = Some(ContinueToken {
        cmcontinue: Some("page|4b4c|123".to_string()),
        gcmcontinue: None,
        rvcontinue: None,
        cont: Some("-||".to_string()),
    });
    let p = category_members_params("Characters", &cont);
    assert_eq!(p.len(), 7);
    assert_eq!(p[5], ("cmcontinue".to_string(), "page|4b4c|123".to_string()));
    assert_eq!(p[6], ("continue".to_string(), "-||".to_string()));
}

#[test]
fn members_sorted_by_namespace() {
    let members = vec![
        CategoryMember { ns: Some(14), title: Some("Category:Sub".to_string()) },
        CategoryMember { ns: Some(0), title: Some("Klein".to_string()) },
        CategoryMember { ns: Some(6), title: Some("File:x.png".to_string()) },
        CategoryMember { ns: Some(0), title: Some(String::new()) },
        CategoryMember { ns: None, title: Some("Odd".to_string()) },
        CategoryMember { ns: Some(0), title: None },
    ];
    let mut subcats = Vec::new();
    let mut pages = vec!["Earlier".to_string()];
    sort_members(&members, &mut subcats, &mut pages);
    assert_eq!(subcats, vec!["Category:Sub".to_string()]);
    assert_eq!(pages, vec!["Earlier".to_string(), "Klein".to_string()]);
}

#[test]
fn page_fetch_gathers_revisions_and_categories() {
    let mut f = PageFetch::new();
    f.absorb(&vec![PageRecord {
        pageid: Some(42),
        revisions: vec![
            RevisionRecord { revid: Some(7), main: Some("Hello".to_string()), legacy: None },
            RevisionRecord { revid: None, main: None, legacy: Some("World".to_string()) },
        ],
        categories: vec![Some("Category:Characters".to_string()), None],
    }]);
    let p = f.into_page("Klein", "https://lotm.fandom.com/api.php").unwrap();
    assert_eq!(p.pageid, 42);
    assert_eq!(p.revid, 7);
    assert_eq!(p.wikitext, "Hello\nWorld\n");
    assert_eq!(p.categories, vec!["Characters".to_string()]);
    assert_eq!(p.url, "https://lotm.fandom.com/wiki/Klein");
}

#[test]
fn missing_page_gives_nothing() {
    let f = PageFetch::new();
    assert!(f.into_page("Nowhere", "w.org/api.php").is_none());
}

#[test]
fn visits_are_counted_once() {
    let mut v = CrawlVisits::new();
    assert!(v.enter_category("Characters"));
    assert!(!v.enter_category("Characters"));
    assert!(v.enter_category("Locations"));
    assert!(v.take_page(7));
    assert!(!v.take_page(7));
    let mut out = Vec::new();
    assert!(keep_new_page(&mut v, &mut out, page("A", "", &[])));
    assert!(!keep_new_page(&mut v, &mut out, page("B", "", &[])));
    assert_eq!(out.len(), 1);
    assert_eq!(out[0].title, "A");
}

#[test]
fn crawl_ends_with_done_or_cancelled() {
    assert!(matches!(final_event(true), ProgressEvent::Cancelled));
    assert!(matches!(final_event(false), ProgressEvent::Done));
}

#[test]
fn retry_decisions() {
    assert_eq!(request_attempts(), 3);
    assert!(matches!(after_attempt(0, Some(200)), AttemptOutcome::Parse));
    assert!(matches!(after_attempt(0, Some(429)), AttemptOutcome::Retry { backoff_ms: 200 }));
    assert!(matches!(after_attempt(1, Some(503)), AttemptOutcome::Retry { backoff_ms: 400 }));
    assert!(matches!(after_attempt(2, None), AttemptOutcome::Retry { backoff_ms: 800 }));
    assert!(matches!(after_attempt(0, Some(404)), AttemptOutcome::Fail));
    assert!(matches!(after_attempt(1, Some(302)), AttemptOutcome::Fail));
    assert_eq!(effective_rate(0), 1);
    assert_eq!(effective_rate(5), 5);
}

#[test]
fn classify_by_categories_and_templates() {
    assert_eq!(classify(&page("X", "", &["Sequence 9 Pathway"])), PageKind::Pathway);
    assert_eq!(classify(&page("X", "{{Pathway_template}}", &[])), PageKind::Pathway);
    assert_eq!(classify(&page("X", "", &["Sealed_Artifacts"])), PageKind::Item);
    assert_eq!(classify(&page("X", "{{Char temp|name=X}}", &[])), PageKind::Character);
    assert_eq!(classify(&page("X", "", &["Beyonders"])), PageKind::Character);
    assert_eq!(classify(&page("X", "{{Infobox location}}", &[])), PageKind::Location);
    assert_eq!(classify(&page("X", "", &["Churches"])), PageKind::Organization);
    assert_eq!(classify(&page("X", "", &["Battles"])), PageKind::Event);
    assert_eq!(classify(&page("X", "", &["Terminology"])), PageKind::Terminology);
    assert_eq!(classify(&page("X", "plain", &["Misc"])), PageKind::Unknown);
}

#[test]
fn classify_refuses_a_cut_inside_a_character() {
    let w = format!("{}é", "a".repeat(8191));
    assert!(!can_classify(&page("X", &w, &[])));
    assert!(can_classify(&page("X", &w, &["Items"])));
    assert!(can_classify(&page("X", &"a".repeat(9000), &[])));
}

#[test]
fn priorities_by_kind() {
    assert_eq!(default_priority(PageKind::Character), 100);
    assert_eq!(default_priority(PageKind::Pathway), 80);
    assert_eq!(default_priority(PageKind::Location), 60);
    assert_eq!(default_priority(PageKind::Event), 40);
    assert_eq!(default_priority(PageKind::Unknown), 30);
    assert_eq!(default_position(), 1);
}

#[test]
fn keys_from_title_and_aliases_sorted() {
    let p = page(
        "Klein_Moretti",
        "{{Char temp|name=Klein|aliases=The Fool, Mr. Fool; 克莱恩 |type=Human}}\nText.",
        &["Characters"],
    );
    let keys = extract_keys(&p, PageKind::Character);
    assert_eq!(keys, vec!["Human", "Klein Moretti", "Mr. Fool", "The Fool"]);
}

#[test]
fn pathway_keys_add_stem() {
    let p = page("Seer Pathway", "", &["Pathways"]);
    let keys = extract_keys(&p, PageKind::Pathway);
    assert_eq!(keys, vec!["Seer", "Seer Pathway"]);
}

#[test]
fn content_is_intro_then_prose() {
    let p = page("A", "'''A''' is here.\n\n== History ==\nLong ago.", &[]);
    assert_eq!(extract_content(&p, PageKind::Unknown), "A is here.\n\nA is here.\n\nHistory\n\nLong ago.");
}

#[test]
fn entry_built_from_page() {
    let p = page("Audrey Hall", "{{Char temp|alias=Justice}}\n'''Audrey''' is a noble.", &["Characters", "Nobles"]);
    let e = build_entry_from_page(&p, 9, false).unwrap();
    assert_eq!(e.uid, 9);
    assert_eq!(e.id, 9);
    assert_eq!(e.name, "Audrey Hall");
    assert_eq!(e.keys, vec!["Audrey Hall", "Justice"]);
    assert_eq!(e.key, e.keys);
    assert_eq!(e.comment, "Audrey Hall — Category:Characters");
    assert_eq!(e.content, "Audrey is a noble.\n\nAudrey is a noble.");
    assert_eq!(e.priority, 100);
    assert_eq!(e.order, 100);
    assert_eq!(e.position, 1);
    assert_eq!(e.probability, 100);
    assert_eq!(e.depth, 4);
    assert!(e.enabled && e.selective && !e.constant);
}

#[test]
fn entries_get_consecutive_uids() {
    let pages = vec![page("A", "x", &[]), page("B", "y", &[]), page("C", "z", &[])];
    let es = build_entries(&pages, 5, false);
    let uids: Vec<u64> = es.iter().map(|e| e.uid).collect();
    assert_eq!(uids, vec![5, 6, 7]);
    assert_eq!(es[1].name, "B");
}

#[test]
fn category_listing_in_batches() {
    let member = |ns: i64, t: &str| CategoryMember { ns: Some(ns), title: Some(t.to_string()) };
    let batches = vec![
        (vec![member(0, "A"), member(14, "Category:S")], Some("t1")),
        (vec![member(0, "B")], Some("t2")),
        (vec![member(0, "C")], None),
    ];
    let mut listing = CategoryListing::new();
    let mut requests = Vec::new();
    let mut k = 0;
    while let Some(params) = listing.next_request("Characters") {
        requests.push(params);
        let (ms, next) = &batches[k];
        let cont = next.map(|t| ContinueToken {
            cmcontinue: Some(t.to_string()),
            gcmcontinue: None,
            rvcontinue: None,
            cont: Some("-||".to_string()),
        });
        listing.take_answer(ms, cont);
        k += 1;
    }
    assert_eq!(requests.len(), 3);
    assert_eq!(requests[0].len(), 5);
    assert_eq!(requests[2][5], ("cmcontinue".to_string(), "t2".to_string()));
    assert_eq!(listing.pages, vec!["A", "B", "C"]);
    assert_eq!(listing.subcats, vec!["Category:S"]);
}

fn step_name(s: Option<WalkItem>) -> String {
    match s {
        Some(WalkItem::Enter(t)) => format!("enter {t}"),
        Some(WalkItem::Fetch(t)) => format!("fetch {t}"),
        None => "over".to_string(),
    }
}

#[test]
fn walk_goes_depth_first_and_enters_once() {
    let mut visits = CrawlVisits::new();
    let mut walk = CategoryWalk::new(vec!["Category:A".to_string(), "Category:B".to_string()]);
    let mut steps = Vec::new();
    steps.push(step_name(walk.next_step(&mut visits)));
    walk.take_listing(vec!["Category:B".to_string()], vec!["P1".to_string()]);
    steps.push(step_name(walk.next_step(&mut visits)));
    walk.take_listing(vec!["Category:A".to_string()], vec!["P2".to_string()]);
    for _ in 0..4 {
        steps.push(step_name(walk.next_step(&mut visits)));
    }
    assert_eq!(
        steps,
        vec!["enter Category:A", "enter Category:B", "fetch P2", "fetch P1", "over", "over"]
    );
}
