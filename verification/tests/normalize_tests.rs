use sxhkd_cheatsheet::text::{decimal_string, normalize, check_binding_line, check_comment_line};

#[test]
fn normalize_strips_marker_and_capitalizes() {
    assert_eq!(normalize("# launch terminal"), "Launch terminal");
}

#[test]
fn normalize_removes_every_hash() {
    assert_eq!(normalize("   ### x"), "X");
    assert_eq!(normalize("a#b#c"), "Abc");
}

#[test]
fn normalize_empty_passes_through() {
    assert_eq!(normalize(""), "");
    assert_eq!(normalize("###"), "");
}

#[test]
fn normalize_only_spaces_and_hashes_is_empty() {
    assert_eq!(normalize("##  "), "");
    assert_eq!(normalize("  ## "), "");
}

#[test]
fn normalize_keeps_nonletter_first_character() {
    assert_eq!(normalize("1abc"), "1abc");
}

#[test]
fn normalize_preserves_multicharacter_uppercase() {
    assert_eq!(normalize("\u{df} x"), "SS x");
}

#[test]
fn normalize_leaves_inner_spaces() {
    assert_eq!(normalize("  hello  world"), "Hello  world");
}

#[test]
fn decimal_renders_exact_values() {
    assert_eq!(decimal_string(0), "0");
    assert_eq!(decimal_string(7), "7");
    assert_eq!(decimal_string(10), "10");
    assert_eq!(decimal_string(907), "907");
}

#[test]
fn binding_line_is_a_prefix_match() {
    assert!(check_binding_line("super + a"));
    assert!(check_binding_line("alt + Tab"));
    assert!(check_binding_line("ctrl + c"));
    assert!(check_binding_line("shift + Return"));
    assert!(check_binding_line("superfluous keys"));
    assert!(!check_binding_line(" super + a"));
    assert!(!check_binding_line("Super + a"));
    assert!(!check_binding_line(""));
}

#[test]
fn comment_line_starts_with_marker() {
    assert!(check_comment_line("# a comment"));
    assert!(check_comment_line("#"));
    assert!(!check_comment_line(" #"));
    assert!(!check_comment_line(""));
}
