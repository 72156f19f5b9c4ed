use slipcase_desktop::tree::{comment_lines, hour_padded, joined, parse_datetime};
use slpc::toml_edit::{DocumentMut, RawString};

const EVERY_TYPE: &str = r#"# a document comment
slipcase_version = "1.0"   # the version

[payload]
file = "report.pdf"

[types]
text = "a string"
count = 44
flag = true
local_date = 1979-05-27
list = [1, 2, 3]
inline = { a = 1, b = "two" }
# above a dotted key
dotted.key = "reached by a dot"

[[runs]]
id = 1

# a comment attached to nothing
"#;

fn parsed() -> DocumentMut {
    EVERY_TYPE.parse().expect("the fixture is valid TOML")
}

fn lines_of(raw: Option<&RawString>) -> Vec<String> {
    comment_lines(raw.and_then(RawString::as_str))
}

#[test]
fn an_hour_without_its_leading_zero_is_still_a_time() {
    let read = |s: &str| parse_datetime(s);

    assert_eq!(read("9:00").as_deref(), Some("09:00"));
    assert_eq!(read("9:00:00").as_deref(), Some("09:00:00"));
    assert_eq!(read("2026-08-21T9:00:00").as_deref(), Some("2026-08-21T09:00:00"));

    assert_eq!(read("19:00").as_deref(), Some("19:00"));
    assert_eq!(read("2026-08-21").as_deref(), Some("2026-08-21"));

    assert_eq!(read("18.00.00"), None);
    assert_eq!(read("1800"), None);
    assert_eq!(read("9"), None);
    assert_eq!(read("abc:def"), None);
    assert_eq!(read(""), None);
}

#[test]
fn only_a_single_digit_hour_is_padded() {
    assert_eq!(hour_padded("9:00").as_deref(), Some("09:00"));
    assert_eq!(hour_padded("2026-08-21T9:00").as_deref(), Some("2026-08-21T09:00"));
    assert_eq!(hour_padded("19:00"), None);
    assert_eq!(hour_padded("T:00"), None);
    assert_eq!(hour_padded("9"), None);
}

#[test]
fn a_comment_above_a_key_is_found_and_blank_lines_are_not() {
    let doc = parsed();
    let key = doc.as_table().key("slipcase_version").expect("the key");
    assert_eq!(lines_of(key.leaf_decor().prefix()), ["a document comment"]);
}

#[test]
fn a_comment_after_a_value_is_found() {
    let doc = parsed();
    let v = doc.as_table()["slipcase_version"].as_value().expect("a value");
    assert_eq!(lines_of(v.decor().suffix()), ["the version"]);
}

#[test]
fn a_comment_after_the_last_item_attaches_to_nothing() {
    let doc = parsed();
    assert_eq!(
        lines_of(Some(doc.trailing())),
        ["a comment attached to nothing"]
    );
}

#[test]
fn a_comment_above_a_dotted_key_attaches_to_its_leaf() {
    let doc = parsed();
    let types = doc.as_table()["types"].as_table().expect("a table");

    let outer = types.key("dotted").expect("the segment the dot implies");
    assert!(lines_of(outer.leaf_decor().prefix()).is_empty());

    let implied = types["dotted"].as_table().expect("the implied table");
    let leaf = implied.key("key").expect("the leaf segment");
    assert_eq!(lines_of(leaf.leaf_decor().prefix()), ["above a dotted key"]);
}

#[test]
fn decor_with_no_text_has_no_comments() {
    assert!(comment_lines(None).is_empty());
    assert_eq!(
        comment_lines(Some("\n  #  one  \r\n\n# two\n#\n")),
        ["one", "two", ""]
    );
}

#[test]
fn several_comment_lines_join_into_one() {
    assert_eq!(joined(&[]), None);
    assert_eq!(joined(&["one".to_owned()]).as_deref(), Some("one"));
    assert_eq!(
        joined(&["one".to_owned(), "two".to_owned()]).as_deref(),
        Some("one two")
    );
}
