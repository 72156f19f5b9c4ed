use std::path::Path;

use slipcase_desktop::card::{card_lines, Tone};
use slipcase_desktop::naming::{container_name_for, executable_in, why_not_a_payload, Chosen};
use slipcase_desktop::Payload;

fn why(path: &Path) -> Option<String> {
    let chosen = match path.file_name() {
        None => Chosen::Nameless,
        Some(name) => match name.to_str() {
            None => Chosen::NotUtf8,
            Some(name) => Chosen::Named(name),
        },
    };
    why_not_a_payload(chosen, &path.display().to_string(), None)
}

#[test]
fn a_file_that_cannot_be_a_payload_says_so() {
    assert_eq!(why(Path::new("/anywhere/report.pdf")), None);

    let reserved = why(Path::new("/anywhere/slipcase.metadata.toml"))
        .expect("the metadata member's own name is reserved");
    assert!(reserved.contains("slipcase.metadata.toml"), "{reserved}");

    let colon = why(Path::new("/anywhere/notes:2026.txt")).expect("a colon is not a member name");
    assert!(colon.contains("notes:2026.txt"), "{colon}");
}

#[test]
fn each_refusal_is_in_the_librarys_words() {
    assert_eq!(
        why(Path::new("/anywhere/notes:2026.txt")).as_deref(),
        Some("notes:2026.txt cannot be a payload's name: payload.file contains ':', which is read as rooting a path on some platforms (SPEC 2.3)")
    );
    assert_eq!(
        why(Path::new("/anywhere/slipcase.metadata.toml")).as_deref(),
        Some("slipcase.metadata.toml cannot be a payload's name: payload.file is \"slipcase.metadata.toml\", which names the metadata member (SPEC 2.3)")
    );
    assert_eq!(
        why(Path::new("/anywhere/rep\u{1}ort.pdf")).as_deref(),
        Some("rep\u{1}ort.pdf cannot be a payload's name: payload.file contains U+0001, a control character (SPEC 2.3)")
    );
    assert_eq!(
        why_not_a_payload(Chosen::Named("a\\b"), "a\\b", None).as_deref(),
        Some("a\\b cannot be a payload's name: payload.file contains '\\\\', so it is a path rather than a filename (SPEC 2.3)")
    );
    assert_eq!(
        why_not_a_payload(Chosen::Named(""), "", None).as_deref(),
        Some(" cannot be a payload's name: payload.file is empty (SPEC 2.3)")
    );
    assert_eq!(
        why_not_a_payload(Chosen::Named(".."), "..", None).as_deref(),
        Some(".. cannot be a payload's name: payload.file is `.` or `..` (SPEC 2.3)")
    );
}

#[test]
fn a_path_with_no_file_name_says_nothing() {
    assert_eq!(why(Path::new("/")), None);
}

#[test]
fn a_name_that_is_not_utf8_is_refused_for_its_encoding() {
    assert_eq!(
        why_not_a_payload(Chosen::NotUtf8, "/anywhere/r\u{FFFD}port.pdf", None).as_deref(),
        Some("/anywhere/r\u{FFFD}port.pdf has a name that is not UTF-8, and payload.file is a TOML string")
    );
}

#[test]
fn any_execute_bit_makes_an_executable() {
    assert!(executable_in(Some(0o100_755)));
    assert!(executable_in(Some(0o010)));
    assert!(!executable_in(Some(0o100_644)));
    assert!(!executable_in(Some(0)));
    assert!(!executable_in(None));
}

#[test]
fn the_card_says_what_it_knows_and_nothing_else() {
    let plain = Payload {
        name: "report.pdf".to_owned(),
        size: 7,
        opens_with: None,
        executable: false,
        unreadable: None,
    };
    let lines = card_lines(&plain, false, None);
    let said: Vec<(Tone, &str)> = lines.iter().map(|l| (l.tone, l.text.as_str())).collect();
    assert_eq!(said, [(Tone::Heading, "report.pdf"), (Tone::Plain, "7 bytes")]);

    let everything = Payload {
        name: "report\u{202E}fdp.exe".to_owned(),
        size: 1024,
        opens_with: Some("Document Viewer".to_owned()),
        executable: true,
        unreadable: Some("the member is encrypted (SPEC 2.5)".to_owned()),
    };
    let lines = card_lines(&everything, true, None);
    let said: Vec<(Tone, &str)> = lines.iter().map(|l| (l.tone, l.text.as_str())).collect();
    assert_eq!(
        said,
        [
            (Tone::Heading, "report\\u{202E}fdp.exe"),
            (Tone::Plain, "1.0 KiB (1024 bytes)"),
            (Tone::Plain, "Opens with Document Viewer"),
            (Tone::Refusal, "Cannot be opened here: the member is encrypted (SPEC 2.5)"),
            (
                Tone::Caution,
                "The payload is an executable file; the extracted copy will not be executable."
            ),
            (
                Tone::Caution,
                "This container arrived from elsewhere, and the payload will carry that."
            ),
        ]
    );
}

#[test]
fn a_new_container_is_offered_under_its_payloads_name() {
    assert_eq!(container_name_for("report.pdf"), "report.pdf.slpc");
    assert_eq!(container_name_for(""), ".slpc");
}
