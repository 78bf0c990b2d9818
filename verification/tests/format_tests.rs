use sxhkd_cheatsheet::cheatsheet::format_cheatsheet;
use sxhkd_cheatsheet::parse::{extract_bindings, extract_headers};

fn lines_of(xs: &[&str]) -> Vec<String> {
    xs.iter().map(|s| s.to_string()).collect()
}

fn displays_of(lines: &Vec<String>) -> Vec<String> {
    format_cheatsheet(lines).ok().unwrap().display_lines()
}

const EDIT_BSPWMRC: &str = "alacritty -e nvim /home/pablo/.config/bspwm/bspwmrc";
const EDIT_SXHKDRC: &str = "alacritty -e nvim /home/pablo/.config/sxhkd/sxhkdrc";

#[test]
fn binding_pairs_with_next_and_previous_line() {
    let lines = lines_of(&[
        "# Title line",
        "# Title line2",
        "# Title line3",
        "# launch terminal",
        "super + a",
        "alacritty",
    ]);
    let bindings = extract_bindings(&lines).ok().unwrap();
    assert_eq!(bindings.len(), 1);
    assert_eq!(bindings[0].binding_text, "super + a");
    assert_eq!(bindings[0].command_text, "alacritty");
    assert_eq!(bindings[0].description_text, "# launch terminal");
    assert_eq!(bindings[0].source_line, 4);

    let sheet = format_cheatsheet(&lines).ok().unwrap();
    let displays = sheet.display_lines();
    let commands = sheet.commands();
    assert_eq!(
        displays,
        vec![
            "0. EDIT CONFIG FILES".to_string(),
            "0.1 bspwmrc".to_string(),
            "0.2 sxhkdrc".to_string(),
            "1. Title line2".to_string(),
            "1.1 super + a \u{25B6} Launch terminal".to_string(),
        ]
    );
    assert_eq!(
        commands,
        vec![
            "".to_string(),
            EDIT_BSPWMRC.to_string(),
            EDIT_SXHKDRC.to_string(),
            "".to_string(),
            "alacritty".to_string(),
        ]
    );
}

#[test]
fn description_comes_from_the_line_directly_before() {
    let lines = lines_of(&[
        "# Title line",
        "# Title line2",
        "# Title line3",
        "super + a",
        "alacritty",
        "# launch terminal",
    ]);
    let bindings = extract_bindings(&lines).ok().unwrap();
    assert_eq!(bindings.len(), 1);
    assert_eq!(bindings[0].command_text, "alacritty");
    assert_eq!(bindings[0].description_text, "# Title line3");
}

#[test]
fn binding_on_first_line_is_malformed() {
    let lines = lines_of(&["super + a", "alacritty"]);
    let err = match format_cheatsheet(&lines) {
        Err(e) => e,
        Ok(_) => panic!("a binding line at index 0 must be rejected"),
    };
    assert_eq!(err.source_line, 0);
}

#[test]
fn binding_on_last_line_is_malformed() {
    let lines = lines_of(&["# open a terminal", "super + a"]);
    let err = match extract_bindings(&lines) {
        Err(e) => e,
        Ok(_) => panic!("a binding line at the last index must be rejected"),
    };
    assert_eq!(err.source_line, 1);
}

#[test]
fn overlapping_comment_runs_duplicate_headers() {
    let lines = lines_of(&["#", "# Title", "#", "# extra", "x", "y"]);
    let headers = extract_headers(&lines);
    assert_eq!(headers.len(), 2);
    assert_eq!(headers[0].title_text, "# Title");
    assert_eq!(headers[0].source_line, 1);
    assert_eq!(headers[1].title_text, "#");
    assert_eq!(headers[1].source_line, 2);
}

#[test]
fn last_pending_header_never_opens_a_section() {
    let lines = lines_of(&["x", "#", "# Only section", "#", "super + a", "cmd"]);
    let headers = extract_headers(&lines);
    assert_eq!(headers.len(), 1);
    let displays = displays_of(&lines);
    assert_eq!(
        displays,
        vec![
            "0. EDIT CONFIG FILES".to_string(),
            "0.1 bspwmrc".to_string(),
            "0.2 sxhkdrc".to_string(),
            "0.3 super + a \u{25B6} ".to_string(),
        ]
    );
}

#[test]
fn empty_header_queue_leaves_section_zero() {
    let lines = lines_of(&["# comment", "super + x", "cmd"]);
    let displays = displays_of(&lines);
    assert_eq!(
        displays,
        vec![
            "0. EDIT CONFIG FILES".to_string(),
            "0.1 bspwmrc".to_string(),
            "0.2 sxhkdrc".to_string(),
            "0.3 super + x \u{25B6} Comment".to_string(),
        ]
    );
}

#[test]
fn empty_document_yields_builtin_entries_only() {
    let lines: Vec<String> = Vec::new();
    let sheet = format_cheatsheet(&lines).ok().unwrap();
    assert_eq!(
        sheet.display_lines(),
        vec![
            "0. EDIT CONFIG FILES".to_string(),
            "0.1 bspwmrc".to_string(),
            "0.2 sxhkdrc".to_string(),
        ]
    );
    assert_eq!(
        sheet.commands(),
        vec!["".to_string(), EDIT_BSPWMRC.to_string(), EDIT_SXHKDRC.to_string()]
    );
}

#[test]
fn display_lines_and_commands_have_one_length() {
    let lines = lines_of(&[
        "#",
        "# One",
        "#",
        "# first",
        "super + a",
        "cmd_a",
        "# second",
        "alt + b",
        "cmd_b",
        "trailer",
    ]);
    let sheet = format_cheatsheet(&lines).ok().unwrap();
    assert_eq!(sheet.display_lines().len(), sheet.commands().len());
    assert_eq!(sheet.display_lines().len(), sheet.len());
}

#[test]
fn formatting_twice_is_byte_identical() {
    let lines = lines_of(&[
        "#",
        "# Section",
        "#",
        "# run it",
        "super + r",
        "runner",
        "plain line",
    ]);
    let first = format_cheatsheet(&lines).ok().unwrap();
    let second = format_cheatsheet(&lines).ok().unwrap();
    assert_eq!(first.rendered(), second.rendered());
    assert_eq!(first.display_lines(), second.display_lines());
    assert_eq!(first.commands(), second.commands());
}

#[test]
fn rendered_joins_with_newlines() {
    let lines: Vec<String> = Vec::new();
    let sheet = format_cheatsheet(&lines).ok().unwrap();
    assert_eq!(sheet.rendered(), "0. EDIT CONFIG FILES\n0.1 bspwmrc\n0.2 sxhkdrc\n");
}

#[test]
fn superfluous_prefix_still_matches() {
    let lines = lines_of(&["# described", "superfluous keys", "cmd"]);
    let bindings = extract_bindings(&lines).ok().unwrap();
    assert_eq!(bindings.len(), 1);
    assert_eq!(bindings[0].binding_text, "superfluous keys");
}
