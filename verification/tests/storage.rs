use lorebook::cache::{cache_file_name, join, sanitize, Cache, CacheIndex};
use lorebook::entry::WorldInfoEntry;
use lorebook::store::{
    count_of, entries_from_rows, entry_from_row, entry_key_rows, entry_to_row, hydrate,
    like_pattern, max_uid_of, split_keys, sql_int, EntryRow, KeyRow,
};

fn fresh(uid: u64, name: &str, keys: &[&str]) -> WorldInfoEntry {
    WorldInfoEntry::new(
        uid,
        name.to_string(),
        keys.iter().map(|k| k.to_string()).collect(),
        "content".to_string(),
        "comment".to_string(),
        60,
        1,
    )
}

#[test]
fn sanitized_file_names() {
    assert_eq!(sanitize("Klein Moretti/é-x_1"), "Klein_Moretti__-x_1");
    assert_eq!(cache_file_name("A b", 42), "A_b-42.json");
    assert_eq!(cache_file_name("", 0), "-0.json");
}

#[test]
fn paths_join_with_one_separator() {
    assert_eq!(join("/tmp/c", "x.json"), "/tmp/c/x.json");
    assert_eq!(join("/tmp/c/", "x.json"), "/tmp/c/x.json");
    assert_eq!(join("", "x.json"), "x.json");
}

#[test]
fn index_reads_back_what_it_wrote() {
    let mut idx = CacheIndex::new();
    idx.record("Klein".to_string(), "/c/Klein-7.json".to_string(), 7);
    idx.record("Audrey Hall".to_string(), "/c/Audrey_Hall-9.json".to_string(), 9);
    idx.record("Klein".to_string(), "/c/Klein-8.json".to_string(), 8);
    assert_eq!(idx.len(), 2);
    let text = idx.to_text();
    assert_eq!(text, "Klein\t/c/Klein-8.json\t8\nAudrey Hall\t/c/Audrey_Hall-9.json\t9\n");
    let back = CacheIndex::from_text(&text);
    assert_eq!(back.len(), 2);
    assert_eq!(back.lookup("Klein"), Some(("/c/Klein-8.json".to_string(), 8)));
    assert_eq!(back.lookup("Audrey Hall"), Some(("/c/Audrey_Hall-9.json".to_string(), 9)));
    assert_eq!(back.lookup("Nobody"), None);
}

#[test]
fn index_skips_malformed_lines_and_later_lines_win() {
    let text = "a\tp1\t1\nbad line\nb\tp2\nc\tp3\tx\nd\tp4\t+5\r\na\tp9\t9";
    let idx = CacheIndex::from_text(text);
    assert_eq!(idx.len(), 2);
    assert_eq!(idx.lookup("a"), Some(("p9".to_string(), 9)));
    assert_eq!(idx.lookup("d"), Some(("p4".to_string(), 5)));
    assert_eq!(idx.lookup("b"), None);
    assert_eq!(idx.lookup("c"), None);
}

#[test]
fn cache_records_pages_in_its_directory() {
    let mut c = Cache::from_index_text("/cache".to_string(), "");
    assert_eq!(c.dir(), "/cache");
    assert_eq!(c.index_path(), "/cache/index.txt");
    assert_eq!(c.page_path("Klein"), None);
    let p = c.file_path("Klein Moretti", 12);
    assert_eq!(p, "/cache/Klein_Moretti-12.json");
    c.record("Klein Moretti", p.clone(), 12);
    assert_eq!(c.page_path("Klein Moretti"), Some(p.clone()));
    let reopened = Cache::from_index_text("/cache".to_string(), &c.index_text());
    assert_eq!(reopened.page_path("Klein Moretti"), Some(p));
}

#[test]
fn entry_row_round_trip() {
    let e = fresh(3, "Klein", &["Klein", "The Fool"]);
    let row = entry_to_row(&e);
    assert_eq!(row.uid, 3);
    assert_eq!(row.priority, 60);
    assert_eq!(row.enabled, 1);
    assert_eq!(row.constant, 0);
    let keys = entry_key_rows(&e);
    assert_eq!(keys.len(), 2);
    assert_eq!(keys[0].kind, "primary");
    let back = hydrate(entry_from_row(&row), &keys);
    assert_eq!(back.uid, e.uid);
    assert_eq!(back.name, e.name);
    assert_eq!(back.keys, e.keys);
    assert_eq!(back.key, e.key);
    assert!(back.secondary_keys.is_empty());
    assert_eq!(back.order, e.order);
    assert_eq!(back.insertion_order, e.insertion_order);
    assert_eq!(back.extensions.weight, e.extensions.weight);
    assert_eq!(back.probability, e.probability);
    assert_eq!(back.depth, e.depth);
    assert_eq!(back.display_index, e.display_index);
}

#[test]
fn rows_read_back_with_clamps() {
    let row = EntryRow {
        uid: -4,
        name: "N".to_string(),
        comment: String::new(),
        content: String::new(),
        priority: -5,
        position: 300,
        depth: 4_294_967_297,
        probability: 256,
        enabled: 2,
        constant: 0,
        selective: 1,
        selective_logic: -1,
        disable: 0,
        add_memo: 1,
        exclude_recursion: 1,
        use_probability: 1,
        case_sensitive: 0,
        insertion_order: 70,
    };
    let e = entry_from_row(&row);
    assert_eq!(e.uid, 0);
    assert_eq!(e.id, 0);
    assert_eq!(e.priority, 0);
    assert_eq!(e.order, 0);
    assert_eq!(e.position, 255);
    assert_eq!(e.depth, 1);
    assert_eq!(e.probability, 255);
    assert!(e.enabled);
    assert_eq!(e.selective_logic, 0);
    assert_eq!(e.insertion_order, 70);
    assert!(e.keys.is_empty());
}

#[test]
fn keys_grouped_by_kind() {
    let rows = vec![
        KeyRow { uid: 1, key: "a".to_string(), kind: "primary".to_string() },
        KeyRow { uid: 2, key: "x".to_string(), kind: "primary".to_string() },
        KeyRow { uid: 1, key: "b".to_string(), kind: "secondary".to_string() },
        KeyRow { uid: 1, key: "c".to_string(), kind: "other".to_string() },
    ];
    let (p, s) = split_keys(&rows, 1);
    assert_eq!(p, vec!["a".to_string(), "c".to_string()]);
    assert_eq!(s, vec!["b".to_string()]);
    let entry_rows = vec![entry_to_row(&fresh(1, "One", &[])), entry_to_row(&fresh(2, "Two", &[]))];
    let es = entries_from_rows(&entry_rows, &rows);
    assert_eq!(es.len(), 2);
    assert_eq!(es[0].keys, vec!["a".to_string(), "c".to_string()]);
    assert_eq!(es[1].keys, vec!["x".to_string()]);
}

#[test]
fn query_helpers() {
    assert_eq!(like_pattern("fool"), "%fool%");
    assert_eq!(max_uid_of(None), 0);
    assert_eq!(max_uid_of(Some(-3)), 0);
    assert_eq!(max_uid_of(Some(17)), 17);
    assert_eq!(count_of(-1), 0);
    assert_eq!(count_of(12), 12);
    assert_eq!(sql_int(u64::MAX), -1);
    assert_eq!(sql_int(5), 5);
}
