use marten::glob::matches_any;
use marten::glob::pattern_matches;

#[test]
fn literal_path_matches_exactly() {
    assert!(pattern_matches("src/main.rs", "src/main.rs"));
    assert!(!pattern_matches("src/main.rs", "src/lib.rs"));
    assert!(!pattern_matches("src/main.rs", "backend/src/main.rs"));
}

#[test]
fn no_slash_pattern_matches_basename_at_any_depth() {
    assert!(pattern_matches("*.lock", "Cargo.lock"));
    assert!(pattern_matches("*.lock", "backend/Cargo.lock"));
    assert!(pattern_matches("*.lock", "a/b/c/Cargo.lock"));
    assert!(!pattern_matches("*.lock", "Cargo.toml"));
}

#[test]
fn star_does_not_cross_segments() {
    assert!(pattern_matches("src/*.rs", "src/main.rs"));
    assert!(!pattern_matches("src/*.rs", "src/sub/main.rs"));
}

#[test]
fn double_star_matches_any_depth() {
    assert!(pattern_matches("**/generated/**", "generated/out.js"));
    assert!(pattern_matches("**/generated/**", "src/generated/out.js"));
    assert!(pattern_matches("**/generated/**", "src/a/generated/b/out.js"));
    assert!(!pattern_matches("**/generated/**", "src/out.js"));
    assert!(pattern_matches("**/README.md", "README.md"));
    assert!(pattern_matches("**/README.md", "docs/README.md"));
}

#[test]
fn double_star_can_match_zero_segments() {
    assert!(pattern_matches("src/**", "src/main.rs"));
    assert!(pattern_matches("src/**", "src/deep/main.rs"));
    assert!(pattern_matches("src/**/main.rs", "src/main.rs"));
    assert!(pattern_matches("src/**/main.rs", "src/a/b/main.rs"));
}

#[test]
fn trailing_slash_matches_everything_beneath() {
    assert!(pattern_matches("vendor/", "vendor/x.js"));
    assert!(pattern_matches("vendor/", "vendor/deep/y.js"));
    assert!(!pattern_matches("vendor/", "src/vendor/x.js"));
}

#[test]
fn question_mark_matches_single_char() {
    assert!(pattern_matches("Cargo.l?ck", "Cargo.lock"));
    assert!(!pattern_matches("Cargo.l?ck", "Cargo.lcks"));
    assert!(!pattern_matches("a?c", "ac"));
}

#[test]
fn char_class_matches_ranges() {
    assert!(pattern_matches("file[0-9].txt", "file3.txt"));
    assert!(!pattern_matches("file[0-9].txt", "filex.txt"));
    assert!(pattern_matches("file[a-c].txt", "fileb.txt"));
}

#[test]
fn negated_char_class() {
    assert!(pattern_matches("file[!0-9].txt", "filex.txt"));
    assert!(!pattern_matches("file[!0-9].txt", "file3.txt"));
    assert!(pattern_matches("file[^0-9].txt", "filex.txt"));
}

#[test]
fn unclosed_class_is_literal() {
    assert!(pattern_matches("weird[file", "weird[file"));
    assert!(!pattern_matches("weird[file", "weirdfile"));
}

#[test]
fn patterns_are_case_sensitive() {
    assert!(!pattern_matches("*.LOCK", "Cargo.lock"));
}

#[test]
fn empty_and_whitespace_patterns_never_match() {
    assert!(!pattern_matches("", "Cargo.lock"));
    assert!(!pattern_matches("   ", "Cargo.lock"));
}

#[test]
fn wildcard_in_directory_segment() {
    assert!(pattern_matches("gen*/", "generated/a.txt"));
    assert!(pattern_matches("gen*/", "genx/deep/a.txt"));
    assert!(!pattern_matches("gen*/", "src/generated/a.txt"));
}

#[test]
fn matches_any_needs_one_matching_pattern() {
    let patterns = vec!["*.lock".to_string(), "generated/**".to_string()];
    assert!(matches_any(&patterns, "backend/Cargo.lock"));
    assert!(matches_any(&patterns, "generated/a/b.rs"));
    assert!(!matches_any(&patterns, "src/generated/b.rs"));
    assert!(!matches_any(&Vec::new(), "Cargo.lock"));
}

#[test]
fn surrounding_whitespace_is_trimmed_from_patterns() {
    assert!(pattern_matches("  *.lock\t", "Cargo.lock"));
    assert!(pattern_matches(" vendor/ ", "vendor/a.js"));
}

#[test]
fn class_range_with_trailing_dash_is_literal() {
    assert!(pattern_matches("a[x-]b", "a-b"));
    assert!(pattern_matches("a[x-]b", "axb"));
    assert!(!pattern_matches("a[x-]b", "ayb"));
}

#[test]
fn white_space_is_what_std_calls_white_space() {
    for n in 0u32..=0x10FFFF {
        if let Some(c) = char::from_u32(n) {
            assert_eq!(marten::text::is_whitespace(c), c.is_whitespace(), "U+{n:04X}");
        }
    }
}
