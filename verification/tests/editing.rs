use lorebook::crawl_tab::clock_stamp;
use lorebook::entry::WorldInfoEntry;
use lorebook::icon::{icon_pixel, IconPixel};
use lorebook::library::{
    content_preview, join_keys, parse_key_list, set_depth, set_position, set_priority,
    set_probability,
};

fn blank_entry() -> WorldInfoEntry {
    WorldInfoEntry::new(1, "N".to_string(), vec![], String::new(), String::new(), 60, 1)
}

#[test]
fn key_lists_split_at_commas() {
    assert_eq!(parse_key_list(" a, ,b ,"), vec!["a".to_string(), "b".to_string()]);
    assert_eq!(parse_key_list(""), Vec::<String>::new());
    assert_eq!(parse_key_list("The Fool"), vec!["The Fool".to_string()]);
    let keys = vec!["a".to_string(), "b c".to_string()];
    assert_eq!(join_keys(&keys), "a, b c");
    assert_eq!(parse_key_list(&join_keys(&keys)), keys);
    assert_eq!(join_keys(&Vec::new()), "");
}

#[test]
fn edited_numbers_are_clamped_and_repeated() {
    let mut e = blank_entry();
    set_priority(&mut e, -3);
    assert_eq!((e.priority, e.order, e.insertion_order, e.extensions.weight), (0, 0, 0, 0));
    set_priority(&mut e, 250);
    assert_eq!((e.priority, e.order, e.insertion_order, e.extensions.weight), (250, 250, 250, 250));
    set_position(&mut e, 300);
    assert_eq!(e.position, 255);
    set_position(&mut e, -1);
    assert_eq!(e.position, 0);
    set_probability(&mut e, 42);
    assert_eq!((e.probability, e.extensions.probability), (42, 42));
    set_depth(&mut e, -7);
    assert_eq!((e.depth, e.extensions.depth), (0, 0));
    set_depth(&mut e, 9);
    assert_eq!((e.depth, e.extensions.depth), (9, 9));
}

#[test]
fn content_preview_is_cut_after_120_characters() {
    let short = "é".repeat(120);
    assert_eq!(content_preview(&short), short);
    let long = "é".repeat(121);
    assert_eq!(content_preview(&long), format!("{}…", "é".repeat(120)));
}

#[test]
fn clock_stamps() {
    assert_eq!(clock_stamp(0), "00:00:00");
    assert_eq!(clock_stamp(3661), "01:01:01");
    assert_eq!(clock_stamp(86400 + 86399), "23:59:59");
}

#[test]
fn icon_shape() {
    assert_eq!(icon_pixel(0, 0), IconPixel::Clear);
    assert_eq!(icon_pixel(3, 3), IconPixel::Clear);
    assert_eq!(icon_pixel(63, 63), IconPixel::Clear);
    assert_eq!(icon_pixel(4, 0), IconPixel::Background);
    assert_eq!(icon_pixel(2, 10), IconPixel::Background);
    assert_eq!(icon_pixel(20, 30), IconPixel::Page);
    assert_eq!(icon_pixel(40, 44), IconPixel::Page);
    assert_eq!(icon_pixel(32, 23), IconPixel::Spine);
    assert_eq!(icon_pixel(32, 46), IconPixel::Spine);
    assert_eq!(icon_pixel(32, 47), IconPixel::Background);
}
