use slipcase_desktop::policy::{displayed, is_protected, RequiredKeys};

fn path(parts: &[&str]) -> Vec<String> {
    parts.iter().map(|p| (*p).to_owned()).collect()
}

#[test]
fn lib_the_required_keys_and_what_holds_them_are_protected() {
    assert!(RequiredKeys.protected(&path(&["slipcase_version"])));
    assert!(RequiredKeys.protected(&path(&["payload", "file"])));
    assert!(RequiredKeys.protected(&path(&["payload"])));

    assert!(!RequiredKeys.protected(&path(&["title"])));
    assert!(!RequiredKeys.protected(&path(&["payload", "size"])));
    assert!(!RequiredKeys.protected(&path(&["elsewhere", "slipcase_version"])));
}

#[test]
fn tree_the_required_keys_and_what_holds_them_are_protected() {
    assert!(is_protected(&path(&["slipcase_version"])));
    assert!(is_protected(&path(&["payload", "file"])));
    assert!(is_protected(&path(&["payload"])));

    assert!(!is_protected(&path(&["title"])));
    assert!(!is_protected(&path(&["payload", "size"])));
    assert!(!is_protected(&path(&["elsewhere", "slipcase_version"])));
}

#[test]
fn a_prefix_that_is_not_a_whole_segment_is_not_protected() {
    assert!(!is_protected(&path(&["pay"])));
    assert!(!is_protected(&path(&["slipcase"])));
    assert!(!is_protected(&path(&[])));
    assert!(!is_protected(&path(&["payload", "file", "deeper"])));
}

#[test]
fn lib_a_protected_name_is_shown_escaped() {
    assert_eq!(
        RequiredKeys.display_protected("report\u{202E}fdp.exe"),
        "report\\u{202E}fdp.exe"
    );
}

#[test]
fn tree_a_protected_name_is_shown_escaped() {
    assert_eq!(
        displayed("report\u{202E}fdp.exe", false),
        "report\\u{202E}fdp.exe"
    );
}

#[test]
fn an_editable_string_is_shown_as_it_is() {
    assert_eq!(
        displayed("report\u{202E}fdp.exe", true),
        "report\u{202E}fdp.exe"
    );
}

#[test]
fn every_bidirectional_character_and_a_backslash_are_escaped() {
    assert_eq!(
        RequiredKeys.display_protected("a\u{061C}b\u{200E}c\u{2069}d"),
        "a\\u{061C}b\\u{200E}c\\u{2069}d"
    );
    assert_eq!(
        RequiredKeys.display_protected("report\\u{202E}fdp.exe"),
        "report\\\\u{202E}fdp.exe"
    );
    assert_eq!(RequiredKeys.display_protected("report.pdf"), "report.pdf");
}
