use html_bench::corpus::{is_html_file, iterations_for_size, sort_corpus, CorpusEntry};
use std::path::Path;

fn entry(path: &str, filename: &str, size_bytes: usize) -> CorpusEntry {
    CorpusEntry { path: path.to_string(), filename: filename.to_string(), size_bytes }
}

fn names(entries: &[CorpusEntry]) -> Vec<(String, String, usize)> {
    entries.iter().map(|e| (e.path.clone(), e.filename.clone(), e.size_bytes)).collect()
}

#[test]
fn iteration_count_at_the_thresholds() {
    assert_eq!(iterations_for_size(100_000), 50);
    assert_eq!(iterations_for_size(100_001), 25);
    assert_eq!(iterations_for_size(500_000), 25);
    assert_eq!(iterations_for_size(500_001), 10);
    assert_eq!(iterations_for_size(5_000_000), 10);
    assert_eq!(iterations_for_size(5_000_001), 3);
}

#[test]
fn iteration_count_away_from_the_thresholds() {
    assert_eq!(iterations_for_size(0), 50);
    assert_eq!(iterations_for_size(9), 50);
    assert_eq!(iterations_for_size(99_999), 50);
    assert_eq!(iterations_for_size(250_000), 25);
    assert_eq!(iterations_for_size(1_000_000), 10);
    assert_eq!(iterations_for_size(usize::MAX), 3);
}

#[test]
fn sort_corpus_orders_by_filename_only() {
    let mut entries = vec![
        entry("samples/zebra.html", "zebra.html", 10),
        entry("test_files/apple.html", "apple.html", 20),
        entry("samples/mango.html", "mango.html", 30),
    ];
    sort_corpus(&mut entries);
    assert_eq!(
        names(&entries),
        vec![
            ("test_files/apple.html".to_string(), "apple.html".to_string(), 20),
            ("samples/mango.html".to_string(), "mango.html".to_string(), 30),
            ("samples/zebra.html".to_string(), "zebra.html".to_string(), 10),
        ]
    );
}

#[test]
fn sort_corpus_keeps_files_of_one_name_side_by_side() {
    let mut entries = vec![
        entry("samples/b.html", "b.html", 1),
        entry("samples/a.html", "a.html", 2),
        entry("test_files/c.html", "c.html", 3),
        entry("test_files/a.html", "a.html", 4),
        entry("test_files/b.html", "b.html", 5),
    ];
    sort_corpus(&mut entries);
    assert_eq!(
        names(&entries),
        vec![
            ("samples/a.html".to_string(), "a.html".to_string(), 2),
            ("test_files/a.html".to_string(), "a.html".to_string(), 4),
            ("samples/b.html".to_string(), "b.html".to_string(), 1),
            ("test_files/b.html".to_string(), "b.html".to_string(), 5),
            ("test_files/c.html".to_string(), "c.html".to_string(), 3),
        ]
    );
}

#[test]
fn sort_corpus_of_nothing_and_of_one() {
    let mut entries: Vec<CorpusEntry> = Vec::new();
    sort_corpus(&mut entries);
    assert!(entries.is_empty());
    let mut entries = vec![entry("d/x.html", "x.html", 7)];
    sort_corpus(&mut entries);
    assert_eq!(names(&entries), vec![("d/x.html".to_string(), "x.html".to_string(), 7)]);
}

#[test]
fn sort_corpus_is_case_sensitive() {
    let mut entries =
        vec![entry("1", "b.html", 0), entry("2", "B.html", 0), entry("3", "a.html", 0)];
    sort_corpus(&mut entries);
    let order: Vec<String> = entries.iter().map(|e| e.filename.clone()).collect();
    assert_eq!(order, vec!["B.html", "a.html", "b.html"]);
}

#[test]
fn clone_copies_every_field() {
    let e = entry("p/q.html", "q.html", 99);
    let d = e.clone();
    assert_eq!(d.path, "p/q.html");
    assert_eq!(d.filename, "q.html");
    assert_eq!(d.size_bytes, 99);
}

#[test]
fn html_files_are_told_by_their_extension() {
    assert!(is_html_file("index.html"));
    assert!(is_html_file("a.html"));
    assert!(is_html_file("archive.tar.html"));
    assert!(is_html_file("..html"));
    assert!(is_html_file("\u{e9}t\u{e9}.html"));
    assert!(!is_html_file(".html"));
    assert!(!is_html_file("html"));
    assert!(!is_html_file(""));
    assert!(!is_html_file("index.htm"));
    assert!(!is_html_file("index.HTML"));
    assert!(!is_html_file("index.html "));
    assert!(!is_html_file("index.html.bak"));
    assert!(!is_html_file("indexhtml"));
    assert!(!is_html_file("index.xhtml"));
    assert!(!is_html_file("index.htmI"));
}

#[test]
fn html_files_are_those_that_std_gives_the_extension_html() {
    let names = [
        "index.html", "a.html", ".html", "..html", "...html", "html", "x.", "x", "", ".", "a.b",
        "a.b.html", "a.html.b", "A.HTML", "a.htm", "a.htmlx", "a.xhtml", ".a.html", "a..html",
        "\u{e9}.html", "\u{10348}.html", "a.ht\u{e9}l", "ab.cdhtml", "abcde.html", "12345",
        "123456", ".htmlx", "x.html.html",
    ];
    for name in names {
        let by_std = Path::new(name).extension().map(|e| e == "html").unwrap_or(false);
        assert_eq!(is_html_file(name), by_std, "{:?}", name);
    }
}
