use linegrep::matcher::CompiledPattern;
use linegrep::matcher::PatternError;
use linegrep::matcher::SearchMode;
use linegrep::matcher::literal_contains;

#[test]
fn literal_contains_finds_substrings() {
    assert!(literal_contains("banana", "an"));
    assert!(literal_contains("banana", "banana"));
    assert!(literal_contains("banana", ""));
    assert!(literal_contains("", ""));
    assert!(!literal_contains("banana", "x"));
    assert!(!literal_contains("banana", "bananas"));
    assert!(!literal_contains("", "a"));
    assert!(literal_contains("abcabc", "cab"));
}

#[test]
fn literal_contains_is_case_sensitive() {
    assert!(literal_contains("Gutenberg", "Guten"));
    assert!(!literal_contains("Gutenberg", "guten"));
}

#[test]
fn literal_mode_matches_iff_contains() {
    let c = CompiledPattern::compile("an", SearchMode::Literal).unwrap();
    assert!(c.is_match("banana"));
    assert!(!c.is_match("apple"));
    assert!(!c.is_match("grape"));
    assert!(!c.is_match(""));
}

#[test]
fn inverted_mode_is_exact_complement() {
    let plain = CompiledPattern::compile("an", SearchMode::Literal).unwrap();
    let inverted = CompiledPattern::compile("an", SearchMode::LiteralInverted).unwrap();
    for line in ["apple", "banana", "grape", "", "an", "nan"] {
        assert_eq!(inverted.is_match(line), !plain.is_match(line));
    }
}

#[test]
fn regex_mode_matches_anywhere() {
    let c = CompiledPattern::compile("\\d", SearchMode::Regex).unwrap();
    assert!(c.is_match("line 42"));
    assert!(c.is_match("7"));
    assert!(!c.is_match("no digits here"));
    let w = CompiledPattern::compile("\\w", SearchMode::Regex).unwrap();
    assert!(w.is_match("word"));
    assert!(!w.is_match("..."));
}

#[test]
fn anchors_bind_to_line_start_and_end() {
    let start = CompiledPattern::compile("^abc", SearchMode::RegexAnchored).unwrap();
    assert!(start.is_match("abcdef"));
    assert!(!start.is_match("xabcdef"));
    let end = CompiledPattern::compile("xyz$", SearchMode::RegexAnchored).unwrap();
    assert!(end.is_match("...xyz"));
    assert!(!end.is_match("xyz..."));
}

#[test]
fn case_insensitive_mode_ignores_pattern_case() {
    let lower = CompiledPattern::compile("gutenberg", SearchMode::RegexCaseInsensitive).unwrap();
    let mixed = CompiledPattern::compile("GuTeNbErG", SearchMode::RegexCaseInsensitive).unwrap();
    let upper = CompiledPattern::compile("GUTENBERG", SearchMode::RegexCaseInsensitive).unwrap();
    for line in ["Gutenberg", "gutenberg", "GUTENBERG", "the gUtEnBeRg press", "guten"] {
        assert_eq!(lower.is_match(line), mixed.is_match(line));
        assert_eq!(lower.is_match(line), upper.is_match(line));
    }
    assert!(lower.is_match("Project GUTENBERG archive"));
    assert!(!lower.is_match("gutenber"));
}

#[test]
fn case_insensitive_directive_covers_whole_pattern() {
    let c = CompiledPattern::compile("ab+c", SearchMode::RegexCaseInsensitive).unwrap();
    assert!(c.is_match("xABBBCx"));
    assert!(!c.is_match("xACx"));
}

#[test]
fn invalid_pattern_is_a_fatal_compile_error() {
    let r = CompiledPattern::compile("(", SearchMode::Regex);
    match r {
        Err(PatternError::Invalid(msg)) => assert!(!msg.is_empty()),
        Ok(_) => panic!("an unbalanced group must not compile"),
    }
    assert!(CompiledPattern::compile("(", SearchMode::RegexAnchored).is_err());
    assert!(CompiledPattern::compile("(", SearchMode::RegexCaseInsensitive).is_err());
}

#[test]
fn literal_modes_never_fail_to_compile() {
    assert!(CompiledPattern::compile("(", SearchMode::Literal).is_ok());
    assert!(CompiledPattern::compile("(", SearchMode::LiteralInverted).is_ok());
    let c = CompiledPattern::compile("(", SearchMode::Literal).unwrap();
    assert!(c.is_match("f(x)"));
    assert!(!c.is_match("fx"));
}
