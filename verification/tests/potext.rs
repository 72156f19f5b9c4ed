use slipcase_desktop::potext::{
    activate, choose_catalog, fill, language_tag, normalise, preferred_from, t, tc, tn,
    two_form_rule, unquote, Catalog, Message,
};

fn catalog(text: &str) -> Catalog {
    Catalog::parse(text)
}

fn single<'a>(catalog: &'a Catalog, id: &str) -> Option<&'a str> {
    match catalog.message(id) {
        Some(Message::Single(text)) => Some(text.as_str()),
        _ => None,
    }
}

#[test]
fn a_fuzzy_entry_is_not_loaded_so_the_english_is_shown() {
    let catalog = catalog(
        "#, fuzzy\nmsgid \"Save\"\nmsgstr \"Sichern\"\n\nmsgid \"Undo\"\nmsgstr \"Rückgängig\"\n",
    );
    assert_eq!(single(&catalog, "Save"), None, "the guess must not be loaded");
    assert_eq!(single(&catalog, "Undo"), Some("Rückgängig"));
}

#[test]
fn fuzzy_is_found_among_other_flags() {
    let catalog = catalog("#, fuzzy, rust-format\nmsgid \"Not saved: {e}\"\nmsgstr \"x\"\n");
    assert_eq!(single(&catalog, "Not saved: {e}"), None);
}

#[test]
fn an_obsolete_entry_is_not_loaded() {
    let catalog = catalog("#~ msgid \"Gone\"\n#~ msgstr \"Weg\"\n");
    assert_eq!(single(&catalog, "Gone"), None);
}

#[test]
fn an_empty_translation_is_absent_rather_than_empty() {
    let catalog = catalog("msgid \"Save\"\nmsgstr \"\"\n");
    assert_eq!(single(&catalog, "Save"), None);
}

#[test]
fn a_fuzzy_header_still_declares_the_plural_rule() {
    let catalog = catalog(
        "#, fuzzy\n\
         msgid \"\"\n\
         msgstr \"Plural-Forms: nplurals=2; plural=(n != 1);\\n\"\n\
         \n\
         msgid \"{n} byte\"\n\
         msgid_plural \"{n} bytes\"\n\
         msgstr[0] \"{n} Byte\"\n\
         msgstr[1] \"{n} Bytes\"\n",
    );
    assert!(catalog.two_forms(), "the rule is the header's, not the mark's");
    assert!(matches!(catalog.message("{n} byte"), Some(Message::Plural(_))));
}

#[test]
fn the_header_is_not_a_message() {
    let catalog = catalog("msgid \"\"\nmsgstr \"Language: de\\n\"\n");
    assert_eq!(catalog.plain_len(), 0);
}

#[test]
fn continuation_lines_join_with_nothing_between_them() {
    let catalog = catalog(
        "msgid \"\"\n\"This container arrived from elsewhere, \"\n\"and the payload will carry that.\"\nmsgstr \"\"\n\"Dieser Behälter kam von anderswo, \"\n\"und die Nutzlast trägt das weiter.\"\n",
    );
    assert_eq!(
        single(
            &catalog,
            "This container arrived from elsewhere, and the payload will carry that."
        ),
        Some("Dieser Behälter kam von anderswo, und die Nutzlast trägt das weiter.")
    );
}

#[test]
fn escapes_are_read() {
    assert_eq!(unquote(r#""a\nb\t\"c\\d""#), "a\nb\t\"c\\d");
}

#[test]
fn an_unknown_escape_keeps_its_backslash() {
    assert_eq!(unquote(r#""a\qb""#), r"a\qb");
}

#[test]
fn a_context_keeps_two_senses_apart() {
    let catalog = catalog(
        "msgctxt \"verb\"\nmsgid \"Open\"\nmsgstr \"Öffnen\"\n\nmsgctxt \"adjective\"\nmsgid \"Open\"\nmsgstr \"Offen\"\n",
    );
    assert_eq!(catalog.keyed_len(), 2, "both senses are kept");
    assert_eq!(catalog.plain_len(), 0, "and neither is filed without one");
}

#[test]
fn plural_forms_are_kept_in_rule_order() {
    let catalog = catalog(
        "msgid \"{n} byte\"\nmsgid_plural \"{n} bytes\"\nmsgstr[0] \"{n} Byte\"\nmsgstr[1] \"{n} Bytes\"\n",
    );
    match catalog.message("{n} byte") {
        Some(Message::Plural(forms)) => assert_eq!(forms, &["{n} Byte", "{n} Bytes"]),
        _ => panic!("the plural entry was not filed as one"),
    }
}

#[test]
fn only_the_two_form_rule_is_accepted() {
    assert!(two_form_rule("Plural-Forms: nplurals=2; plural=(n != 1);\n"));
    assert!(two_form_rule("Plural-Forms: nplurals=2; plural=n != 1;\n"));
    assert!(
        !two_form_rule("Plural-Forms: nplurals=3; plural=(n%10==1 && n%100!=11) ? 0 : 1;\n"),
        "three forms cannot be chosen between by a rule this module does not evaluate"
    );
}

#[test]
fn a_substituted_value_is_not_substituted_into() {
    assert_eq!(
        fill(
            "{file} was extracted, and the system would not open it: {reason}",
            &[("file", "{reason}.pdf"), ("reason", "no application")],
        ),
        "{reason}.pdf was extracted, and the system would not open it: no application"
    );
}

#[test]
fn an_unknown_placeholder_keeps_its_braces() {
    assert_eq!(fill("a {nope} b", &[("x", "y")]), "a {nope} b");
    assert_eq!(fill("a {unclosed b", &[]), "a {unclosed b");
}

#[test]
fn locale_names_normalise_to_one_spelling() {
    assert_eq!(normalise("de_DE.UTF-8").as_deref(), Some("de-de"));
    assert_eq!(normalise("de-DE").as_deref(), Some("de-de"));
    assert_eq!(normalise("de").as_deref(), Some("de"));
    assert_eq!(normalise("de_AT@euro").as_deref(), Some("de-at"));
}

#[test]
fn the_c_locale_is_not_a_language() {
    assert_eq!(normalise("C"), None);
    assert_eq!(normalise("POSIX"), None);
    assert_eq!(normalise(""), None);
}

#[test]
fn a_region_falls_back_to_its_language() {
    let available = [("de", "msgid \"Save\"\nmsgstr \"Sichern\"\n")];
    assert_eq!(choose_catalog(&available, "de-AT").map(|(tag, _)| tag), Some("de"));
    assert_eq!(choose_catalog(&available, "de").map(|(tag, _)| tag), Some("de"));
    assert_eq!(choose_catalog(&available, "fr-FR").map(|(tag, _)| tag), None);
}

#[test]
fn an_exact_region_wins_over_its_language() {
    let available = [("en", "msgid \"Colour\"\nmsgstr \"Color\"\n"), ("en-GB", "")];
    assert_eq!(
        choose_catalog(&available, "en_GB.UTF-8").map(|(tag, _)| tag),
        Some("en-GB")
    );
}

// Beyond the original's own tests.

const GERMAN: &str = "msgid \"\"\n\
msgstr \"Plural-Forms: nplurals=2; plural=(n != 1);\\n\"\n\
\n\
msgid \"Save\"\n\
msgstr \"Sichern\"\n\
\n\
msgctxt \"verb\"\n\
msgid \"Open\"\n\
msgstr \"Öffnen\"\n\
\n\
msgid \"{n} byte\"\n\
msgid_plural \"{n} bytes\"\n\
msgstr[1] \"{n} Bytes\"\n\
msgstr[0] \"{n} Byte\"\n";

#[test]
fn with_no_catalogue_in_force_the_english_comes_back() {
    assert_eq!(t(None, "Save"), "Save");
    assert_eq!(tc(None, "verb", "Open"), "Open");
    assert_eq!(tn(None, "{n} byte", "{n} bytes", 1), "{n} byte");
    assert_eq!(tn(None, "{n} byte", "{n} bytes", 0), "{n} bytes");
    assert_eq!(tn(None, "{n} byte", "{n} bytes", 2), "{n} bytes");
}

#[test]
fn a_catalogue_in_force_answers_in_its_language() {
    let c = Catalog::parse(GERMAN);
    assert_eq!(t(Some(&c), "Save"), "Sichern");
    assert_eq!(t(Some(&c), "Not there"), "Not there");
    assert_eq!(tc(Some(&c), "verb", "Open"), "Öffnen");
    assert_eq!(tc(Some(&c), "adjective", "Open"), "Open");
    assert_eq!(t(Some(&c), "Open"), "Open", "a keyed entry is not a plain one");
    // Written out of order, filed in index order.
    assert_eq!(tn(Some(&c), "{n} byte", "{n} bytes", 1), "{n} Byte");
    assert_eq!(tn(Some(&c), "{n} byte", "{n} bytes", 5), "{n} Bytes");
    // A plural entry reached through `t` is not a translation.
    assert_eq!(t(Some(&c), "{n} byte"), "{n} byte");
}

#[test]
fn without_the_two_form_rule_the_english_forms_are_used() {
    let c = Catalog::parse(
        "msgid \"{n} byte\"\nmsgid_plural \"{n} bytes\"\nmsgstr[0] \"{n} Byte\"\nmsgstr[1] \"{n} Bytes\"\n",
    );
    assert!(!c.two_forms());
    assert_eq!(tn(Some(&c), "{n} byte", "{n} bytes", 1), "{n} byte");
}

#[test]
fn a_plural_with_one_form_is_not_filed() {
    let c = Catalog::parse("msgid \"a\"\nmsgid_plural \"as\"\nmsgstr[0] \"x\"\n");
    assert!(c.message("a").is_none());
}

#[test]
fn a_later_entry_replaces_an_earlier_one() {
    let c = Catalog::parse("msgid \"a\"\nmsgstr \"x\"\n\nmsgid \"a\"\nmsgstr \"y\"\n");
    assert_eq!(c.plain_len(), 1);
    assert_eq!(t(Some(&c), "a"), "y");
}

#[test]
fn a_crlf_file_reads_as_the_same_catalogue() {
    let c = Catalog::parse("msgid \"Save\"\r\nmsgstr \"Sichern\"\r\n");
    assert_eq!(t(Some(&c), "Save"), "Sichern");
}

#[test]
fn an_index_that_does_not_read_is_zero() {
    let c = Catalog::parse(
        "msgid \"\"\nmsgstr \"Plural-Forms: nplurals=2; plural=n != 1;\\n\"\n\n\
         msgid \"a\"\nmsgid_plural \"as\"\nmsgstr[+1] \"two\"\nmsgstr[x] \"one\"\n",
    );
    assert_eq!(tn(Some(&c), "a", "as", 1), "one");
    assert_eq!(tn(Some(&c), "a", "as", 3), "two");
}

#[test]
fn filling_with_nothing_changes_nothing() {
    for t in ["", "plain", "{a} and {b}", "{unclosed", "}{", "{{x}}"] {
        assert_eq!(fill(t, &[]), t);
    }
}

#[test]
fn the_first_value_for_a_name_is_used() {
    assert_eq!(fill("{a}", &[("a", "1"), ("a", "2")]), "1");
}

#[test]
fn activation_picks_and_reads() {
    let available = [("de", GERMAN)];
    let (tag, c) = activate(&available, Some("de_CH.UTF-8")).expect("German is on the shelf");
    assert_eq!(tag, "de");
    assert_eq!(t(Some(&c), "Save"), "Sichern");
    assert!(activate(&available, Some("C")).is_none());
    assert!(activate(&available, None).is_none());
}

#[test]
fn a_comment_between_continuations_does_not_close_the_field() {
    let c = Catalog::parse("msgid \"a\"\n# note\n\"b\"\nmsgstr \"x\"\n");
    assert_eq!(t(Some(&c), "ab"), "x");
}

#[test]
fn only_a_name_that_is_a_language_is_a_tag() {
    assert_eq!(language_tag("de-at").as_deref(), Some("de-at"));
    assert_eq!(language_tag("c"), None);
    assert_eq!(language_tag("posix"), None);
    assert_eq!(language_tag(""), None);
    assert_eq!(language_tag("cy").as_deref(), Some("cy"));
}

#[test]
fn the_first_setting_that_says_something_decides() {
    let set = |v: &[Option<&str>]| -> Vec<Option<String>> {
        v.iter().map(|s| s.map(ToOwned::to_owned)).collect()
    };
    assert_eq!(
        preferred_from(&set(&[None, Some("de_AT.UTF-8:fr"), Some("en_GB")]), None).as_deref(),
        Some("de-at")
    );
    assert_eq!(
        preferred_from(&set(&[Some(""), None, Some("C"), Some("de_DE")]), None),
        None,
        "C means no locale and does not fall through"
    );
    assert_eq!(
        preferred_from(&set(&[None, None]), Some("fr".to_owned())).as_deref(),
        Some("fr")
    );
    assert_eq!(preferred_from(&set(&[]), None), None);
}

#[test]
fn plural_forms_follow_their_index_not_the_file_order() {
    let catalog = catalog(
        "msgid \"{n} file\"\nmsgid_plural \"{n} files\"\nmsgstr[1] \"{n} Dateien\"\nmsgstr[0] \"{n} Datei\"\n",
    );
    match catalog.message("{n} file") {
        Some(Message::Plural(forms)) => assert_eq!(forms, &["{n} Datei", "{n} Dateien"]),
        _ => panic!("the plural entry was not filed as one"),
    }
}
