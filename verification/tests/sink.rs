use mhrice::sink::{content_hash, entity_tag, is_unchanged, mime_type, short_hash, tag_matches};
use mhrice::msg::MsgEntry;
use mhrice::toc::{OutputTocEntry, Toc, TocEntry, TocSink};

fn strings(items: &[&str]) -> Vec<String> {
    items.iter().map(|s| s.to_string()).collect()
}

fn title(items: &[&str]) -> MsgEntry {
    MsgEntry { name: "Title".to_string(), content: strings(items) }
}

#[test]
fn content_types_by_extension() {
    assert_eq!(mime_type("index.html"), Some("text/html"));
    assert_eq!(mime_type("a/b.min.css"), Some("text/css"));
    assert_eq!(mime_type("app.js"), Some("text/javascript"));
    assert_eq!(mime_type("resources/item/001.png"), Some("image/png"));
    assert_eq!(mime_type("en.json"), Some("application/json"));
    assert_eq!(mime_type("json"), Some("application/json"));
    assert_eq!(mime_type("index.htm"), None);
    assert_eq!(mime_type("index.HTML"), None);
    assert_eq!(mime_type("html."), None);
    assert_eq!(mime_type(""), None);
    assert_eq!(mime_type("noext"), None);
    assert_eq!(mime_type("x.html.bak"), None);
}

#[test]
fn entity_tag_is_the_quoted_hex_digest() {
    assert_eq!(entity_tag(&[0x5e, 0xb6, 0x3b, 0xbb]), "\"5eb63bbb\"");
    assert_eq!(entity_tag(&[]), "\"\"");
}

#[test]
fn tag_comparison_ignores_the_case_of_the_stored_tag() {
    let digest = [0xAB, 0xCD, 0x01];
    assert!(tag_matches(&digest, "\"abcd01\""));
    assert!(tag_matches(&digest, "\"ABCD01\""));
    assert!(tag_matches(&digest, "\"aBcD01\""));
    assert!(!tag_matches(&digest, "\"abcd02\""));
    assert!(!tag_matches(&digest, "abcd01"));
    assert!(!tag_matches(&digest, "\"abcd01\" "));
    assert!(!tag_matches(&digest, ""));
}

#[test]
fn unchanged_content_is_recognised_by_its_md5() {
    let data = b"hello world".to_vec();
    let tag = "\"5eb63bbbe01eeed093cb22bb8f5acdc3\"".to_string();
    assert!(is_unchanged(&data, Some(&tag)));
    assert!(is_unchanged(&data, Some(&tag.to_uppercase())));
    assert!(!is_unchanged(&b"hello worle".to_vec(), Some(&tag)));
    assert!(!is_unchanged(&data, None));
    assert!(!is_unchanged(&data, Some(&"5eb63bbbe01eeed093cb22bb8f5acdc3".to_string())));
    let empty = "\"d41d8cd98f00b204e9800998ecf8427e\"".to_string();
    assert!(is_unchanged(&vec![], Some(&empty)));
    assert!(!is_unchanged(&data, Some(&empty)));
}

#[test]
fn short_content_hash() {
    assert_eq!(content_hash(&b"hello world".to_vec()), "5eb63bbb");
    assert_eq!(content_hash(&vec![]), "d41d8cd9");
    assert_eq!(short_hash(&[1, 2, 3, 4, 5, 6]), "01020304");
    assert_eq!(short_hash(&[0xFF, 0x00]), "ff00");
    assert_eq!(short_hash(&[]), "");
}

#[test]
fn toc_sink_collects_trimmed_titles_by_language() {
    let mut sink = TocSink::new("/map/01.html".to_string());
    assert_eq!(sink.path(), "/map/01.html");
    sink.add(&title(&[" Shrine Ruins ", "", "\u{5927}\u{793e}\u{8de1}"]));
    sink.add(&title(&["Area 1", "  \t", ""]));
    sink.add(&title(&["x", "y", "z", " w "]));
    let mut toc = Toc::new();
    sink.finish(&mut toc);
    let tables = toc.finalize();
    assert_eq!(tables.len(), 4);
    let line = |title: &[&str]| OutputTocEntry { title: strings(title), path: "/map/01.html".to_string() };
    assert_eq!(tables[0], vec![line(&["Shrine Ruins", "Area 1", "x"])]);
    assert_eq!(tables[1], vec![line(&["y"])]);
    assert_eq!(tables[2], vec![line(&["\u{5927}\u{793e}\u{8de1}", "z"])]);
    assert_eq!(tables[3], vec![line(&["w"])]);
}

#[test]
fn toc_groups_pages_by_language_and_skips_untitled_ones() {
    let mut toc = Toc::new();
    assert_eq!(toc.languages(), 0);
    assert_eq!(toc.for_language(0), vec![]);
    toc.push(TocEntry { title: vec![strings(&["One"]), vec![]], path: "/1".to_string() });
    toc.push(TocEntry { title: vec![], path: "/2".to_string() });
    toc.push(TocEntry {
        title: vec![strings(&["Three", "Drei"]), strings(&["Trois"]), strings(&["Tres"])],
        path: "/3".to_string(),
    });
    assert_eq!(toc.languages(), 3);
    let line = |title: &[&str], path: &str| OutputTocEntry { title: strings(title), path: path.to_string() };
    assert_eq!(toc.for_language(0), vec![line(&["One"], "/1"), line(&["Three", "Drei"], "/3")]);
    assert_eq!(toc.for_language(1), vec![line(&["Trois"], "/3")]);
    assert_eq!(toc.for_language(2), vec![line(&["Tres"], "/3")]);
    assert_eq!(toc.for_language(3), vec![]);
    let tables = toc.finalize();
    assert_eq!(tables.len(), 3);
    assert_eq!(tables[1], vec![line(&["Trois"], "/3")]);
}

#[test]
fn empty_toc_has_no_tables() {
    assert_eq!(Toc::new().finalize(), Vec::<Vec<OutputTocEntry>>::new());
    let mut toc = Toc::new();
    let sink = TocSink::new("p".to_string());
    sink.finish(&mut toc);
    assert_eq!(toc.languages(), 0);
    assert_eq!(toc.finalize().len(), 0);
}

#[test]
fn push_title_grows_the_rows_and_skips_empty_text() {
    let mut sink = TocSink::new("/p".to_string());
    sink.push_title(2, "two");
    sink.push_title(0, "");
    sink.push_title(2, " kept as given ");
    sink.push_title(4, "");
    let mut toc = Toc::new();
    sink.finish(&mut toc);
    assert_eq!(toc.languages(), 5);
    let line = |title: &[&str]| OutputTocEntry { title: strings(title), path: "/p".to_string() };
    assert_eq!(toc.for_language(0), vec![]);
    assert_eq!(toc.for_language(2), vec![line(&["two", " kept as given "])]);
    assert_eq!(toc.for_language(4), vec![]);
}
