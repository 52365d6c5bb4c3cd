use lorebook::wikitext::{
    clean_prose, decode_wiki_links, find_templates, first_paragraph, parse_template,
    split_sections, split_top_level,
};

#[test]
fn parse_template_named() {
    let t = parse_template("Char temp | name = Klein | aliases = The Fool, The World").unwrap();
    assert_eq!(t.name, "Char temp");
    assert_eq!(t.named.get("name").map(String::as_str), Some("Klein"));
    assert_eq!(
        t.named.get("aliases").map(String::as_str),
        Some("The Fool, The World")
    );
}

#[test]
fn split_sections_basic() {
    let w = "Intro\n\n== Appearance ==\nLooks neat.\n\n== References ==\n[[1]]\n";
    let s = split_sections(w);
    assert_eq!(s.len(), 3);
    assert_eq!(s[0].0, "");
    assert_eq!(s[1].0, "Appearance");
}

#[test]
fn link_decode() {
    let t = decode_wiki_links("Hello [[Klein Moretti|the fool]] world");
    assert!(t.contains("the fool"));
}

#[test]
fn link_without_text_shows_target() {
    let t = decode_wiki_links("See [[Tingen_City#History]] and [[Audrey Hall/Gallery]].");
    assert_eq!(t, "See Tingen City and Audrey Hall.");
}

#[test]
fn template_positional_and_later_named_wins() {
    let t = parse_template("Quote|first|second| k = a | k = b ").unwrap();
    assert_eq!(t.name, "Quote");
    assert_eq!(t.params, vec!["first".to_string(), "second".to_string()]);
    assert_eq!(t.named.get("k").map(String::as_str), Some("b"));
}

#[test]
fn top_level_split_keeps_nested_pipes() {
    let parts = split_top_level(&"a|{{b|c}}|[[d|e]]".chars().collect::<Vec<char>>());
    let parts: Vec<String> = parts.iter().map(|p| p.iter().collect()).collect();
    assert_eq!(parts, vec!["a", "{{b|c}}", "[[d|e]]"]);
}

#[test]
fn templates_found_with_byte_offsets() {
    let w = "é{{A|x}} text {{B|{{C}}}}";
    let found = find_templates(w);
    assert_eq!(found.len(), 2);
    assert_eq!(found[0], (2, 9, "{{A|x}}".to_string()));
    assert_eq!(&w[found[1].0..found[1].1], "{{B|{{C}}}}");
    assert_eq!(found[1].2, "{{B|{{C}}}}");
}

#[test]
fn prose_drops_noise_sections_and_markup() {
    let w = "{{Char temp|name=X}}\n'''Klein''' is a [[Seer|seer]].\n\n== Appearance ==\nTall   and <!-- hidden -->thin.\n\n== References ==\nref\n";
    let p = clean_prose(w);
    assert_eq!(p, "Klein is a seer.\n\nAppearance\n\nTall and thin.");
    assert!(p.contains("Klein is a seer."));
    assert!(p.contains("Appearance"));
    assert!(p.contains("Tall and thin."));
    assert!(!p.contains("References"));
    assert!(!p.contains("ref\n"));
    assert!(!p.contains("{{"));
}

#[test]
fn first_paragraph_stops_at_blank_line() {
    let w = "{{Infobox}}\n'''Audrey''' is a noble.\nShe reads.\n\nSecond paragraph.";
    assert_eq!(first_paragraph(w), "Audrey is a noble.\nShe reads.");
}

#[test]
fn first_paragraph_of_empty_text_is_empty() {
    assert_eq!(first_paragraph(""), "");
}

#[test]
fn list_marks_take_the_blank_line_before_them() {
    assert_eq!(first_paragraph("a\n\n* b"), "a\nb");
    assert_eq!(first_paragraph("* one\n# two\n: three"), "one\ntwo\nthree");
}

#[test]
fn bold_and_italic_markup_is_dropped() {
    assert_eq!(first_paragraph("'''a''' and ''b'' end"), "a and b end");
}

#[test]
fn spaces_and_blank_lines_collapse() {
    assert_eq!(clean_prose("x  \t y\n\n\n\nz"), "x y\n\nz");
}

#[test]
fn headings_need_closing_equals() {
    let s = split_sections("== A ==\nbody\n=B\n== C = D ==\n==E== \nend\n");
    let heads: Vec<&str> = s.iter().map(|p| p.0.as_str()).collect();
    assert_eq!(heads, vec!["A", "E"]);
    assert_eq!(s[0].1, "body\n=B\n== C = D ==\n");
}

#[test]
fn comments_and_tables_are_removed() {
    let w = "Start <!-- a\nb --> mid\n{| class=\"x\"\n| cell\n|}\nEnd";
    assert_eq!(clean_prose(w), "Start mid\n\nEnd");
}

#[test]
fn collapsing_twice_changes_nothing() {
    let once = clean_prose("a \t b\n\n\n\n c  ");
    assert_eq!(once, "a b\n\n c");
    assert_eq!(clean_prose(&once), once);
}

#[test]
fn top_level_parts_join_back() {
    let s = "Char temp|name=[[A|B]]|x={{y|z}}||";
    let parts = split_top_level(&s.chars().collect::<Vec<char>>());
    let joined: Vec<String> = parts.iter().map(|p| p.iter().collect()).collect();
    assert_eq!(joined.join("|"), s);
    assert_eq!(joined.len(), 5);
}

#[test]
fn sections_have_the_documented_shape() {
    let s = split_sections("== A ==\nx\n\n== B ==\n== C ==\ny");
    assert_eq!(
        s,
        vec![
            ("A".to_string(), "x\n\n".to_string()),
            ("B".to_string(), String::new()),
            ("C".to_string(), "y\n".to_string()),
        ]
    );
    let lead = split_sections("intro\n== H ==\nbody");
    assert_eq!(lead[0], (String::new(), "intro\n".to_string()));
    assert!(lead[1..].iter().all(|(h, _)| !h.is_empty()));
}

#[test]
fn found_templates_are_braced_slices_in_order() {
    let w = "é {{a|{{b}}}} and {{c}}";
    let found = find_templates(w);
    assert_eq!(found.len(), 2);
    for (a, b, t) in &found {
        assert_eq!(&w[*a..*b], t.as_str());
        assert!(t.starts_with("{{") && t.ends_with("}}"));
    }
    assert!(found[0].1 <= found[1].0);
}

#[test]
fn prose_is_in_whitespace_normal_form() {
    let p = clean_prose("  a\t\tb  \n\n\n\n c  \n");
    assert!(!p.contains('\t') && !p.contains("  ") && !p.contains("\n\n\n"));
    assert_eq!(p, p.trim());
}

#[test]
fn first_paragraph_is_where_the_lead_starts() {
    let p = first_paragraph("  '''Klein''' is a [[Fool|man]].  \n\nMore text.\n== H ==\nx");
    assert_eq!(p, "Klein is a man.");
}
