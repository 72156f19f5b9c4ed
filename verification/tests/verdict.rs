use std::path::PathBuf;

use slipcase_desktop::corpus::{
    detail, disagreements, is_known, judge_came_back, judge_extraction, judge_file_moved,
    judge_metadata_kept, judge_rename, judge_replacement, judge_rewrite, judge_unedited,
    order_kept, owed_card, owed_tree, run_answer, s, CameBack, Case, Extracting, Finding,
    SaveAnswer,
};
use slipcase_desktop::extraction::{what_to_write, Extracted, Rewrite};
use slipcase_desktop::verdict::{verdict_line, verdict_word, Outcome, Verdict};
use slipcase_desktop::Watch;

#[test]
fn each_outcome_has_its_word() {
    let judged = |v: Verdict| Outcome::Judged(v, "said".to_owned());
    assert_eq!(verdict_word(&judged(Verdict::Conformant)), "accept");
    assert_eq!(verdict_word(&judged(Verdict::NonConformant)), "reject");
    assert_eq!(verdict_word(&judged(Verdict::Undetermined)), "undetermined");
    assert_eq!(verdict_word(&judged(Verdict::OutOfScope)), "out-of-scope");
    assert_eq!(verdict_word(&judged(Verdict::Unrecognised)), "unknown-verdict");
    assert_eq!(
        verdict_word(&Outcome::Unreadable("No such file".to_owned())),
        "unreadable"
    );
}

#[test]
fn an_unreadable_path_says_why() {
    let line = verdict_line(&Outcome::Unreadable("No such file or directory".to_owned()), None);
    assert!(line.starts_with("cannot be read: "));
    assert_eq!(line, "cannot be read: No such file or directory");
}

#[test]
fn a_verdict_states_itself() {
    let line = verdict_line(
        &Outcome::Judged(Verdict::NonConformant, "not conformant: no metadata member".to_owned()),
        None,
    );
    assert_eq!(line, "not conformant: no metadata member");
}

#[test]
fn what_each_answer_is_owed() {
    assert_eq!(owed_tree("accept"), Some(true));
    assert_eq!(owed_tree("out-of-scope"), Some(true));
    assert_eq!(owed_tree("undetermined"), Some(false));
    assert_eq!(owed_tree("reject"), None);
    assert!(owed_card("accept"));
    assert!(!owed_card("reject"));
    assert!(!owed_card("out-of-scope"));
    for known in ["accept", "reject", "undetermined", "out-of-scope"] {
        assert!(is_known(known));
    }
    assert!(!is_known("unreadable"));
    assert!(!is_known("Accept"));
}

#[test]
fn one_case_is_not_one_cases() {
    assert_eq!(s(1), "");
    assert_eq!(s(0), "s");
    assert_eq!(s(2), "s");
}

#[test]
fn a_disagreement_names_the_case_and_its_note() {
    let mut c = Case {
        id: "reject/no-metadata".to_owned(),
        expect: "reject".to_owned(),
        note: String::new(),
        file: PathBuf::from("c.slpc"),
    };
    assert_eq!(detail(&c, "accepted"), "  reject/no-metadata\n      accepted");
    c.note = "SPEC 2.1".to_owned();
    assert_eq!(
        detail(&c, "accepted"),
        "  reject/no-metadata\n      accepted\n      SPEC 2.1"
    );
}

#[test]
fn a_save_writes_only_what_changed() {
    assert_eq!(what_to_write(false, false, false), None);
    assert_eq!(what_to_write(false, true, false), None);
    assert_eq!(what_to_write(true, false, false), None);
    assert_eq!(
        what_to_write(false, false, true),
        Some(Rewrite { metadata: false, payload: true })
    );
    assert_eq!(
        what_to_write(false, true, true),
        Some(Rewrite { metadata: false, payload: true })
    );
    assert_eq!(
        what_to_write(true, true, false),
        Some(Rewrite { metadata: true, payload: false })
    );
    assert_eq!(
        what_to_write(true, false, true),
        Some(Rewrite { metadata: false, payload: true })
    );
    assert_eq!(
        what_to_write(true, true, true),
        Some(Rewrite { metadata: true, payload: true })
    );
}

#[test]
fn an_extraction_says_where_it_landed() {
    let done = Extracted::Done(PathBuf::from("/tmp/report.pdf"));
    assert!(matches!(done, Extracted::Done(ref p) if p == &PathBuf::from("/tmp/report.pdf")));
    assert!(matches!(Extracted::Cancelled, Extracted::Cancelled));
}

#[test]
fn a_watch_counts_and_stops() {
    let watch = Watch::new();
    let other = watch.clone();
    assert_eq!(watch.done(), 0);
    assert!(!watch.is_cancelled());
    other.advance(100);
    other.advance(24);
    assert_eq!(watch.done(), 124);
    watch.cancel();
    assert!(other.is_cancelled());
}

#[test]
fn a_case_disagrees_column_by_column() {
    assert!(disagreements("accept", "accept", true, true).is_empty());
    assert!(disagreements("reject", "reject", true, false).is_empty());
    assert!(disagreements("reject", "reject", false, false).is_empty());
    assert_eq!(
        disagreements("accept", "reject", false, false),
        [
            "verdict expected accept, got reject",
            "the tree: a accept container showed no tree, where §6 shows the verdict and the tree",
            "the card: a accept container showed no card, where §6 shows everything",
        ]
    );
    assert_eq!(
        disagreements("undetermined", "undetermined", true, true),
        [
            "the tree: a undetermined container showed a tree, where §6 shows the verdict and nothing further",
            "the card: a undetermined container showed a card, where §6 gives one to a conformant container alone",
        ]
    );
}

#[test]
fn an_extraction_is_held_to_what_the_card_said() {
    let enc = "the member is encrypted (SPEC 2.5)";
    assert_eq!(judge_extraction(None, &Extracting::Arrived(7), 7), Finding::Extracted);
    assert_eq!(
        judge_extraction(None, &Extracting::Arrived(5), 7),
        Finding::Disagreed(
            "the payload: extracted a different length than the central directory declared".to_owned(),
            "5 bytes arrived, 7 declared".to_owned()
        )
    );
    assert_eq!(
        judge_extraction(Some(enc), &Extracting::Unsupported(enc.to_owned()), 7),
        Finding::Foretold
    );
    assert_eq!(
        judge_extraction(Some("other"), &Extracting::Unsupported(enc.to_owned()), 7),
        Finding::Disagreed(
            "the pre-flight: the card refused for a different reason".to_owned(),
            format!("the card said other, extraction said {enc}")
        )
    );
    assert_eq!(
        judge_extraction(None, &Extracting::Unsupported(enc.to_owned()), 7),
        Finding::Disagreed(
            "the pre-flight: the card offered a payload that cannot be decoded".to_owned(),
            enc.to_owned()
        )
    );
    assert_eq!(
        judge_extraction(Some(enc), &Extracting::Arrived(7), 7),
        Finding::Disagreed(
            "the pre-flight: the card refused a payload that then extracted".to_owned(),
            enc.to_owned()
        )
    );
    assert_eq!(
        judge_extraction(None, &Extracting::Failed("truncated".to_owned()), 7),
        Finding::Disagreed(
            "the payload: a conformant container would not extract".to_owned(),
            "truncated".to_owned()
        )
    );
}

fn texts(v: &[&str]) -> Vec<String> {
    v.iter().map(|k| (*k).to_owned()).collect()
}

fn finding(what: &str, said: &str) -> Option<(String, String)> {
    Some((what.to_owned(), said.to_owned()))
}

#[test]
fn the_order_is_kept_with_the_moved_key_left_out() {
    let before = texts(&["title", "author"]);
    assert!(order_kept(&texts(&["title", "author", "added"]), "added", &before));
    assert!(order_kept(&texts(&["title", "added", "author"]), "added", &before));
    assert!(!order_kept(&texts(&["author", "title", "added"]), "added", &before));
    assert!(!order_kept(&texts(&["title", "added"]), "added", &before));
    assert!(!order_kept(&texts(&["title", "author", "other"]), "added", &before));
}

#[test]
fn a_replacement_is_judged_in_order() {
    let went_in: &[u8] = b"four";
    let card = Some(("p.bin", 4u64));
    assert_eq!(judge_replacement(&SaveAnswer::Written, "accept", "line", card, "p.bin", went_in), None);
    assert_eq!(
        judge_replacement(&SaveAnswer::Unchanged, "accept", "line", card, "p.bin", went_in),
        finding(
            "the replacement: a payload to write is something to write",
            "save said nothing had changed"
        )
    );
    assert_eq!(
        judge_replacement(&SaveAnswer::Refused("no".to_owned()), "accept", "line", card, "p.bin", went_in),
        finding("the replacement: what was written did not read back conformant", "no")
    );
    assert_eq!(
        judge_replacement(&SaveAnswer::Failed("disk".to_owned()), "accept", "line", card, "p.bin", went_in),
        finding("the replacement: the write failed", "disk")
    );
    assert_eq!(
        judge_replacement(&SaveAnswer::Written, "reject", "bad zip", card, "p.bin", went_in),
        finding("the replacement: the container is no longer conformant", "bad zip")
    );
    assert_eq!(
        judge_replacement(&SaveAnswer::Written, "accept", "line", None, "p.bin", went_in),
        finding("the replacement: the replaced container has no card", "line")
    );
    assert_eq!(
        judge_replacement(&SaveAnswer::Written, "accept", "line", Some(("q.bin", 12)), "p.bin", went_in),
        finding(
            "the replacement: the card describes something other than what went in",
            "q.bin at 12 bytes, expecting p.bin at 4"
        )
    );
}

#[test]
fn a_replaced_payload_must_come_back_as_it_went_in() {
    let went_in: &[u8] = b"four";
    assert_eq!(judge_came_back(&CameBack::Bytes(b"four".to_vec()), went_in), None);
    assert_eq!(
        judge_came_back(&CameBack::Bytes(b"fivee".to_vec()), went_in),
        finding(
            "the replacement: the payload that came back is not the one that went in",
            "5 bytes back, 4 in"
        )
    );
    assert_eq!(
        judge_came_back(&CameBack::Bytes(b"fous".to_vec()), went_in),
        finding(
            "the replacement: the payload that came back is not the one that went in",
            "4 bytes back, 4 in"
        )
    );
    assert_eq!(
        judge_came_back(&CameBack::NotOut("gone".to_owned()), went_in),
        finding("the replacement: the new payload would not come back out", "gone")
    );
    assert_eq!(
        judge_came_back(&CameBack::Unread("denied".to_owned()), went_in),
        finding("the replacement: the extracted payload could not be read", "denied")
    );
}

#[test]
fn untouched_metadata_comes_back_byte_for_byte() {
    let before: &[u8] = b"title = 'x'\n";
    assert_eq!(judge_metadata_kept(&Ok(before.to_vec()), before), None);
    assert_eq!(
        judge_metadata_kept(&Ok(b"title = \"x\"\n".to_vec()), before),
        finding(
            "the replacement: replacing the payload rewrote metadata nobody edited",
            "the metadata member came back with different bytes"
        )
    );
    assert_eq!(
        judge_metadata_kept(&Err("truncated".to_owned()), before),
        finding("the replacement: the replaced container could not be read", "truncated")
    );
}

#[test]
fn the_payload_file_moves_with_the_payload() {
    let document = "[payload]\nfile = \"new.bin\"\n";
    assert_eq!(judge_file_moved(document, "new.bin"), None);
    assert_eq!(
        judge_file_moved(document, "old.bin"),
        finding("the replacement: payload.file did not move with the payload", document)
    );
    assert_eq!(judge_file_moved("", ""), None);
}

#[test]
fn an_unedited_save_writes_nothing() {
    let before: &[u8] = b"PK";
    assert_eq!(judge_unedited(&SaveAnswer::Unchanged, before, Some(b"PK")), None);
    assert_eq!(
        judge_unedited(&SaveAnswer::Unchanged, before, Some(b"PK!")),
        finding(
            "the rewrite: an unedited save changed the file",
            "the bytes on disk moved with nothing edited"
        )
    );
    assert_eq!(
        judge_unedited(&SaveAnswer::Unchanged, before, None),
        finding(
            "the rewrite: an unedited save changed the file",
            "the bytes on disk moved with nothing edited"
        )
    );
    assert_eq!(
        judge_unedited(&SaveAnswer::Written, before, Some(b"PK")),
        finding(
            "the rewrite: an unedited container was written anyway",
            "DESIGN §5 says a container nothing has changed in is not written"
        )
    );
    assert_eq!(
        judge_unedited(&SaveAnswer::Failed("full".to_owned()), before, Some(b"PK")),
        finding("the rewrite: an unedited container would not save", "full")
    );
}

#[test]
fn a_rewrite_keeps_the_added_key_and_the_order() {
    let before = texts(&["title", "author"]);
    let after = texts(&["title", "author", "added"]);
    let judge = |saved: &SaveAnswer, verdict: &str, has: bool, keys: &[String]| {
        judge_rewrite(saved, verdict, "line", has, keys, "added", &before)
    };
    assert_eq!(judge(&SaveAnswer::Written, "accept", true, &after), None);
    assert_eq!(
        judge(&SaveAnswer::Unchanged, "accept", true, &after),
        finding(
            "the rewrite: an edited container was not written",
            "a key was added and the save reported nothing to do"
        )
    );
    assert_eq!(
        judge(&SaveAnswer::Refused("no".to_owned()), "accept", true, &after),
        finding("the rewrite: what was written back did not validate", "no")
    );
    assert_eq!(
        judge(&SaveAnswer::Failed("disk".to_owned()), "accept", true, &after),
        finding("the rewrite: the save failed", "disk")
    );
    assert_eq!(
        judge(&SaveAnswer::Written, "reject", true, &after),
        finding("the rewrite: the rewritten container is no longer conformant", "line")
    );
    assert_eq!(
        judge(&SaveAnswer::Written, "accept", false, &after),
        finding(
            "the rewrite: the edit did not survive the round trip",
            "the key added before saving is not in the container that came back"
        )
    );
    assert_eq!(
        judge(&SaveAnswer::Written, "accept", true, &texts(&["author", "added", "title"])),
        finding(
            "the rewrite: the keys came back in a different order",
            "[\"title\", \"author\"] became [\"author\", \"title\"]"
        )
    );
}

#[test]
fn a_rename_keeps_its_place() {
    let before = texts(&["title", "author"]);
    let judge = |saved: &SaveAnswer, verdict: &str, keys: &[String]| {
        judge_rename(saved, verdict, "line", keys, "renamed", &before)
    };
    let after = texts(&["title", "author", "renamed"]);
    assert_eq!(judge(&SaveAnswer::Written, "accept", &after), None);
    assert_eq!(
        judge(&SaveAnswer::Unchanged, "accept", &after),
        finding("the rename: not written", "a rename reported nothing to do")
    );
    assert_eq!(
        judge(&SaveAnswer::Refused("bad".to_owned()), "accept", &after),
        finding("the rename: not written", "what was written did not validate: bad")
    );
    assert_eq!(
        judge(&SaveAnswer::Failed("disk".to_owned()), "accept", &after),
        finding("the rename: the save failed", "disk")
    );
    assert_eq!(
        judge(&SaveAnswer::Written, "undetermined", &after),
        finding("the rename: the container is no longer conformant", "line")
    );
    assert_eq!(
        judge(&SaveAnswer::Written, "accept", &texts(&["title", "author", "added"])),
        finding(
            "the rename: the new name is not there",
            "[\"title\", \"author\", \"added\"]"
        )
    );
    assert_eq!(
        judge(&SaveAnswer::Written, "accept", &texts(&["renamed", "author", "title"])),
        finding(
            "the rename: it moved the other keys",
            "[\"title\", \"author\"] became [\"author\", \"title\"]"
        )
    );
}

#[test]
fn a_run_fails_with_how_many_disagreed() {
    assert_eq!(run_answer(10, 10, false), Ok(()));
    assert_eq!(run_answer(10, 7, true), Err("3 of 10 cases did not agree".to_owned()));
}
