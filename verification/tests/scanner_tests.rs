use linegrep::matcher::CompiledPattern;
use linegrep::matcher::SearchMode;
use linegrep::scanner::FileEntry;
use linegrep::scanner::scan_content;
use linegrep::scanner::scan_entries;
use linegrep::scanner::split_lines;

#[test]
fn split_lines_basic() {
    assert_eq!(split_lines("apple\nbanana\ngrape"), vec!["apple", "banana", "grape"]);
    assert_eq!(split_lines("apple\nbanana\n"), vec!["apple", "banana"]);
    assert_eq!(split_lines(""), Vec::<String>::new());
    assert_eq!(split_lines("\n"), vec![""]);
    assert_eq!(split_lines("a\n\nb"), vec!["a", "", "b"]);
}

#[test]
fn split_lines_strips_carriage_return_before_line_feed() {
    assert_eq!(split_lines("a\r\nb\r\n"), vec!["a", "b"]);
    assert_eq!(split_lines("a\rb"), vec!["a\rb"]);
    assert_eq!(split_lines("a\r"), vec!["a\r"]);
    assert_eq!(split_lines("\r\n"), vec![""]);
}

#[test]
fn scan_content_keeps_matching_lines_in_order() {
    let c = CompiledPattern::compile("an", SearchMode::Literal).unwrap();
    let out = scan_content(&c, "apple\nbanana\ngrape");
    assert_eq!(out, vec!["banana"]);
}

#[test]
fn scan_content_inverted_keeps_the_complement() {
    let c = CompiledPattern::compile("an", SearchMode::LiteralInverted).unwrap();
    let out = scan_content(&c, "apple\nbanana\ngrape");
    assert_eq!(out, vec!["apple", "grape"]);
}

#[test]
fn scan_content_with_regex_pattern() {
    let c = CompiledPattern::compile("^g", SearchMode::RegexAnchored).unwrap();
    let out = scan_content(&c, "apple\nbanana\ngrape");
    assert_eq!(out, vec!["grape"]);
}

#[test]
fn scan_entries_prefixes_records_with_the_path() {
    let c = CompiledPattern::compile("foo", SearchMode::Literal).unwrap();
    let entries = vec![
        FileEntry { path: "a.txt".to_string(), content: Some("foo".to_string()) },
        FileEntry { path: "b.txt".to_string(), content: Some("foobar".to_string()) },
    ];
    let out = scan_entries(&c, &entries);
    assert_eq!(out, vec!["a.txt: foo", "b.txt: foobar"]);
}

#[test]
fn scan_entries_skips_unreadable_entries_silently() {
    let c = CompiledPattern::compile("match", SearchMode::Literal).unwrap();
    let entries = vec![
        FileEntry { path: "good.txt".to_string(), content: Some("a match here\nnothing".to_string()) },
        FileEntry { path: "bad.bin".to_string(), content: None },
    ];
    let out = scan_entries(&c, &entries);
    assert_eq!(out, vec!["good.txt: a match here"]);

    let reordered = vec![
        FileEntry { path: "bad.bin".to_string(), content: None },
        FileEntry { path: "good.txt".to_string(), content: Some("a match here\nnothing".to_string()) },
    ];
    assert_eq!(scan_entries(&c, &reordered), vec!["good.txt: a match here"]);
}

#[test]
fn scan_entries_keeps_line_order_within_a_file() {
    let c = CompiledPattern::compile("a", SearchMode::Literal).unwrap();
    let entries = vec![FileEntry {
        path: "f".to_string(),
        content: Some("alpha\nbeta\ngamma\nxyz".to_string()),
    }];
    let out = scan_entries(&c, &entries);
    assert_eq!(out, vec!["f: alpha", "f: beta", "f: gamma"]);
}

#[test]
fn scan_entries_with_no_entries_yields_nothing() {
    let c = CompiledPattern::compile("a", SearchMode::Literal).unwrap();
    let out = scan_entries(&c, &Vec::new());
    assert_eq!(out, Vec::<String>::new());
}
