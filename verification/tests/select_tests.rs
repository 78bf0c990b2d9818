use sxhkd_cheatsheet::cheatsheet::{format_cheatsheet, Cheatsheet, CheatsheetLine};

fn lines_of(xs: &[&str]) -> Vec<String> {
    xs.iter().map(|s| s.to_string()).collect()
}

fn sheet_for(xs: &[&str]) -> Cheatsheet {
    format_cheatsheet(&lines_of(xs)).ok().unwrap()
}

#[test]
fn selecting_the_title_runs_nothing() {
    let sheet = sheet_for(&["# launch terminal", "super + a", "alacritty"]);
    let command = sheet.select_command("0. EDIT CONFIG FILES");
    assert_eq!(command, Some("".to_string()));
}

#[test]
fn selecting_a_binding_runs_its_command() {
    let sheet = sheet_for(&["# launch terminal", "super + a", "alacritty"]);
    let command = sheet.select_command("0.3 super + a \u{25B6} Launch terminal");
    assert_eq!(command, Some("alacritty".to_string()));
}

#[test]
fn unmatched_selection_is_a_clean_no_op() {
    let sheet = sheet_for(&["# launch terminal", "super + a", "alacritty"]);
    assert_eq!(sheet.select_command("no such line"), None);
    assert_eq!(sheet.select_command(""), None);
}

#[test]
fn identical_bindings_under_two_headers_stay_distinct() {
    let sheet = sheet_for(&[
        "#",
        "# Section one",
        "#",
        "# run terminal",
        "super + t",
        "alacritty",
        "#",
        "# Section two",
        "#",
        "# run terminal",
        "super + t",
        "firefox",
    ]);
    let displays = sheet.display_lines();
    let first = "1.1 super + t \u{25B6} Run terminal".to_string();
    let second = "2.1 super + t \u{25B6} Run terminal".to_string();
    assert!(displays.contains(&first));
    assert!(displays.contains(&second));
    assert_ne!(first, second);
    assert_eq!(sheet.select_command(&first), Some("alacritty".to_string()));
    assert_eq!(sheet.select_command(&second), Some("firefox".to_string()));
}

#[test]
fn duplicate_display_lines_resolve_to_the_first() {
    let sheet = Cheatsheet {
        lines: vec![
            CheatsheetLine {
                display_text: "dup".to_string(),
                command_text: "first".to_string(),
            },
            CheatsheetLine {
                display_text: "dup".to_string(),
                command_text: "second".to_string(),
            },
        ],
    };
    assert_eq!(sheet.select_command("dup"), Some("first".to_string()));
}
