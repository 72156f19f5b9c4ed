//! What the conformance corpus owes each case: the columns of the state
//! table the window is checked against, by the answer a case expects.

use std::path::PathBuf;

use vstd::prelude::*;

use crate::text::{chars_of, decimal, decimal_chars, push_chars, same, starts_with, starts_with_at, string_of};

verus! {

/// One case, as the corpus's manifest describes it.
pub struct Case {
    /// The case's name.
    pub id: String,
    /// The answer it expects.
    pub expect: String,
    /// What the manifest has to say about it.
    pub note: String,
    /// The container.
    pub file: PathBuf,
}

/// The four answers a case may expect.
pub open spec fn is_known_answer(expect: Seq<char>) -> bool {
    expect == "accept"@ || expect == "reject"@ || expect == "undetermined"@ || expect
        == "out-of-scope"@
}

/// Whether `a` and `b` are the same text.
fn same_text(a: &str, b: &str) -> (r: bool)
    ensures
        r == (a@ == b@),
{
    same(&chars_of(a), &chars_of(b))
}

/// Whether a case expects one of the four answers. An expectation outside
/// them is a manifest this build cannot check rather than a case that failed.
pub fn is_known(expect: &str) -> (r: bool)
    ensures
        r == is_known_answer(expect@),
{
    same_text(expect, "accept") || same_text(expect, "reject") || same_text(expect, "undetermined")
        || same_text(expect, "out-of-scope")
}

/// Whether a container owes a metadata tree past its verdict, where that is
/// decided by the answer it expects.
pub open spec fn tree_owed(expect: Seq<char>) -> Option<bool> {
    if expect == "accept"@ || expect == "out-of-scope"@ {
        Some(true)
    } else if expect == "undetermined"@ {
        Some(false)
    } else {
        None
    }
}

/// Whether a container owes a tree past its verdict.
///
/// A conformant container's metadata member parsed, and so did that of one
/// declaring a version this build does not implement, so both show a tree.
/// Undetermined is the answer given when the metadata could not be read, so
/// there is nothing to show. A rejection covers rows on both sides, and
/// nothing is owed there.
pub fn owed_tree(expect: &str) -> (r: Option<bool>)
    ensures
        r == tree_owed(expect@),
{
    if same_text(expect, "accept") || same_text(expect, "out-of-scope") {
        Some(true)
    } else if same_text(expect, "undetermined") {
        Some(false)
    } else {
        None
    }
}

/// Whether a container owes a payload card: only a conformant one has a
/// payload this build has located.
pub fn owed_card(expect: &str) -> (r: bool)
    ensures
        r == (expect@ == "accept"@),
{
    same_text(expect, "accept")
}

/// An `s` where one is owed.
pub fn s(n: usize) -> (r: &'static str)
    ensures
        r@ == (if n == 1 {
            ""@
        } else {
            "s"@
        }),
{
    if n == 1 {
        ""
    } else {
        "s"
    }
}

/// How one disagreement reads in the report.
pub open spec fn detail_text(id: Seq<char>, note: Seq<char>, said: Seq<char>) -> Seq<char> {
    let head = "  "@ + id + "\n      "@ + said;
    if note.len() == 0 {
        head
    } else {
        head + "\n      "@ + note
    }
}

/// One disagreement, for the report: which case, what this build said about
/// it, and whatever the manifest had to say.
pub fn detail(c: &Case, said: &str) -> (r: String)
    ensures
        r@ == detail_text(c.id@, c.note@, said@),
{
    let mut out = String::new();
    assert(out@ =~= Seq::<char>::empty());
    let indent = chars_of("  ");
    let under = chars_of("\n      ");
    push_chars(&mut out, &indent);
    push_chars(&mut out, &chars_of(c.id.as_str()));
    push_chars(&mut out, &under);
    push_chars(&mut out, &chars_of(said));
    let note = chars_of(c.note.as_str());
    if note.len() > 0 {
        push_chars(&mut out, &under);
        push_chars(&mut out, &note);
    }
    out
}

/// The headline of a disagreement about the verdict.
pub open spec fn verdict_headline(expect: Seq<char>, got: Seq<char>) -> Seq<char> {
    "verdict expected "@ + expect + ", got "@ + got
}

/// The headline of a disagreement about the tree.
pub open spec fn tree_headline(expect: Seq<char>, shown: bool) -> Seq<char> {
    "the tree: a "@ + expect + " container showed "@ + if shown {
        "a tree, where §6 shows the verdict and nothing further"@
    } else {
        "no tree, where §6 shows the verdict and the tree"@
    }
}

/// The headline of a disagreement about the card.
pub open spec fn card_headline(expect: Seq<char>, shown: bool) -> Seq<char> {
    "the card: a "@ + expect + " container showed "@ + if shown {
        "a card, where §6 gives one to a conformant container alone"@
    } else {
        "no card, where §6 shows everything"@
    }
}

/// What a case's first three columns disagree about, in the order they are
/// checked: the verdict against the one expected, the tree against the one
/// owed where one is decided, and the card against the one owed.
pub open spec fn column_disagreements(expect: Seq<char>, got: Seq<char>, tree: bool, card: bool) -> Seq<Seq<char>> {
    let verdict = if got != expect {
        seq![verdict_headline(expect, got)]
    } else {
        Seq::empty()
    };
    let trees = match tree_owed(expect) {
        Some(owed) => if tree != owed {
            seq![tree_headline(expect, tree)]
        } else {
            Seq::empty()
        },
        None => Seq::empty(),
    };
    let cards = if card != (expect == "accept"@) {
        seq![card_headline(expect, card)]
    } else {
        Seq::empty()
    };
    verdict + trees + cards
}

/// A text made of three pieces.
fn joined3(a: &str, b: &str, c: &str) -> (r: String)
    ensures
        r@ == a@ + b@ + c@,
{
    let mut out = String::new();
    assert(out@ =~= Seq::<char>::empty());
    push_chars(&mut out, &chars_of(a));
    push_chars(&mut out, &chars_of(b));
    push_chars(&mut out, &chars_of(c));
    out
}

/// The texts of some strings.
pub open spec fn texts_of(v: Seq<String>) -> Seq<Seq<char>> {
    v.map_values(|s: String| s@)
}

/// What a case's verdict, tree and card disagree about, as the report heads
/// each disagreement: `got` is this build's answer, and `tree` and `card`
/// whether the window showed one.
pub fn disagreements(expect: &str, got: &str, tree: bool, card: bool) -> (r: Vec<String>)
    ensures
        texts_of(r@) == column_disagreements(expect@, got@, tree, card),
{
    let mut out: Vec<String> = Vec::new();
    if !same_text(got, expect) {
        let mut line = joined3("verdict expected ", expect, ", got ");
        push_chars(&mut line, &chars_of(got));
        out.push(line);
    }
    let ghost verdict = texts_of(out@);
    match owed_tree(expect) {
        Some(owed) => {
            if tree != owed {
                let said = if tree {
                    "a tree, where §6 shows the verdict and nothing further"
                } else {
                    "no tree, where §6 shows the verdict and the tree"
                };
                let mut line = joined3("the tree: a ", expect, " container showed ");
                push_chars(&mut line, &chars_of(said));
                out.push(line);
            }
        },
        None => {},
    }
    let ghost trees = texts_of(out@).skip(verdict.len() as int);
    assert(texts_of(out@) =~= verdict + trees);
    if card != owed_card(expect) {
        let said = if card {
            "a card, where §6 gives one to a conformant container alone"
        } else {
            "no card, where §6 shows everything"
        };
        let mut line = joined3("the card: a ", expect, " container showed ");
        push_chars(&mut line, &chars_of(said));
        out.push(line);
    }
    assert(texts_of(out@) =~= column_disagreements(expect@, got@, tree, card));
    out
}

/// How a run that did not agree ends: how many cases did not, of how many.
pub open spec fn run_failure(total: nat, agreed: nat) -> Seq<char> {
    decimal((total - agreed) as nat) + " of "@ + decimal(total) + " cases did not agree"@
}

/// How a run ends: well where nothing disagreed, and otherwise with how many
/// of the `total` cases did not agree, `agreed` of them having agreed.
pub fn run_answer(total: usize, agreed: usize, disagreed: bool) -> (r: Result<(), String>)
    requires
        disagreed ==> agreed <= total,
    ensures
        match r {
            Ok(()) => !disagreed,
            Err(e) => disagreed && e@ == run_failure(total as nat, agreed as nat),
        },
{
    if !disagreed {
        return Ok(());
    }
    let failed = total - agreed;
    let mut said = joined3(
        string_of(&decimal_chars(failed as u128)).as_str(),
        " of ",
        string_of(&decimal_chars(total as u128)).as_str(),
    );
    push_chars(&mut said, &chars_of(" cases did not agree"));
    Err(said)
}

/// What extracting a conformant container's payload did.
pub enum Extracting {
    /// The payload came out, this many bytes long.
    Arrived(u64),
    /// This build cannot decode it, in the library's words.
    Unsupported(String),
    /// It would not come out for another reason, in the library's words.
    Failed(String),
}

/// What the corpus makes of an extraction.
#[derive(Debug, Clone, PartialEq, Eq)]
pub enum Finding {
    /// The payload came out at its declared length.
    Extracted,
    /// The card refused it before anything was pressed, in the words
    /// extraction then used.
    Foretold,
    /// A disagreement: its headline, and what was said.
    Disagreed(String, String),
}

/// A finding, as text.
pub enum FindingText {
    /// The payload came out at its declared length.
    Extracted,
    /// Refused, as the card foretold.
    Foretold,
    /// A headline and what was said.
    Disagreed(Seq<char>, Seq<char>),
}

/// A finding's text.
pub open spec fn finding_text(f: Finding) -> FindingText {
    match f {
        Finding::Extracted => FindingText::Extracted,
        Finding::Foretold => FindingText::Foretold,
        Finding::Disagreed(what, said) => FindingText::Disagreed(what@, said@),
    }
}

/// What the corpus makes of an extraction: the card's refusal, where it
/// gave one, is held against what extracting did. A payload the card refused
/// must not come out, and one it offered must; a refusal must be the one the
/// card foretold, in the same words; and what comes out must be the length
/// the central directory declared.
pub open spec fn judged_extraction(foretold: Option<Seq<char>>, seen: Extracting, declared: u64) -> FindingText {
    match seen {
        Extracting::Arrived(arrived) => match foretold {
            Some(why) => FindingText::Disagreed(
                "the pre-flight: the card refused a payload that then extracted"@,
                why,
            ),
            None => if arrived == declared {
                FindingText::Extracted
            } else {
                FindingText::Disagreed(
                    "the payload: extracted a different length than the central directory declared"@,
                    decimal(arrived as nat) + " bytes arrived, "@ + decimal(declared as nat) + " declared"@,
                )
            },
        },
        Extracting::Unsupported(said) => match foretold {
            Some(why) => if why == said@ {
                FindingText::Foretold
            } else {
                FindingText::Disagreed(
                    "the pre-flight: the card refused for a different reason"@,
                    "the card said "@ + why + ", extraction said "@ + said@,
                )
            },
            None => FindingText::Disagreed(
                "the pre-flight: the card offered a payload that cannot be decoded"@,
                said@,
            ),
        },
        Extracting::Failed(why) => FindingText::Disagreed(
            "the payload: a conformant container would not extract"@,
            why@,
        ),
    }
}

/// What the corpus makes of an extraction, given the card's refusal where
/// it gave one, what extracting did, and the declared length.
pub fn judge_extraction(foretold: Option<&str>, seen: &Extracting, declared: u64) -> (r: Finding)
    ensures
        finding_text(r) == judged_extraction(
            match foretold {
                Some(w) => Some(w@),
                None => None,
            },
            *seen,
            declared,
        ),
{
    match seen {
        Extracting::Arrived(arrived) => match foretold {
            Some(why) => Finding::Disagreed(
                "the pre-flight: the card refused a payload that then extracted".to_owned(),
                why.to_owned(),
            ),
            None => if *arrived == declared {
                Finding::Extracted
            } else {
                let got = string_of(&decimal_chars(*arrived as u128));
                let want = string_of(&decimal_chars(declared as u128));
                let mut said = joined3(got.as_str(), " bytes arrived, ", want.as_str());
                push_chars(&mut said, &chars_of(" declared"));
                Finding::Disagreed(
                    "the payload: extracted a different length than the central directory declared".to_owned(),
                    said,
                )
            },
        },
        Extracting::Unsupported(said) => match foretold {
            Some(why) => if same_text(why, said.as_str()) {
                Finding::Foretold
            } else {
                let mut text = joined3("the card said ", why, ", extraction said ");
                push_chars(&mut text, &chars_of(said.as_str()));
                Finding::Disagreed(
                    "the pre-flight: the card refused for a different reason".to_owned(),
                    text,
                )
            },
            None => Finding::Disagreed(
                "the pre-flight: the card offered a payload that cannot be decoded".to_owned(),
                said.clone(),
            ),
        },
        Extracting::Failed(why) => Finding::Disagreed(
            "the payload: a conformant container would not extract".to_owned(),
            why.clone(),
        ),
    }
}

/// What a save answered, as the corpus reads it.
pub enum SaveAnswer {
    /// Written, read back, and conformant.
    Written,
    /// Nothing had changed, so nothing was written.
    Unchanged,
    /// What was written did not read back conformant: the library's verdict.
    Refused(String),
    /// The save failed, in the library's words.
    Failed(String),
}

/// A disagreement's headline and what was said, as text.
pub open spec fn finding_of(r: Option<(String, String)>) -> Option<(Seq<char>, Seq<char>)> {
    match r {
        Some((what, said)) => Some((what@, said@)),
        None => None,
    }
}

/// A disagreement found.
fn found(what: &str, said: &str) -> (r: Option<(String, String)>)
    ensures
        finding_of(r) == Some((what@, said@)),
{
    Some((what.to_owned(), said.to_owned()))
}

/// How `{:?}` writes a list of texts: `["a", "b"]`, each text quoted and
/// escaped as `str`'s `Debug` escapes it.
pub uninterp spec fn debug_listing(keys: Seq<Seq<char>>) -> Seq<char>;

/// A list of keys as `{:?}` writes it.
///
/// `format!("{:?}")` on a slice of `String`: what it writes depends on the
/// texts alone, and is named [`debug_listing`] of them.
#[verifier::external_body]
fn listing(keys: &[String]) -> (r: String)
    ensures
        r@ == debug_listing(texts_of(keys@)),
{
    format!("{keys:?}")
}

/// The keys other than `moved`, in their order.
pub open spec fn others_than(keys: Seq<Seq<char>>, moved: Seq<char>) -> Seq<Seq<char>> {
    keys.filter(|k: Seq<char>| k != moved)
}

/// The keys other than `moved`, in their order.
fn others(keys: &[String], moved: &str) -> (r: Vec<String>)
    ensures
        texts_of(r@) == others_than(texts_of(keys@), moved@),
{
    let mut out: Vec<String> = Vec::new();
    let mut i: usize = 0;
    while i < keys.len()
        invariant
            i <= keys.len(),
            texts_of(out@) == others_than(texts_of(keys@).take(i as int), moved@),
        decreases keys.len() - i,
    {
        let ghost before = out@;
        proof {
            reveal(Seq::filter);
            assert(texts_of(keys@).take(i + 1).drop_last() =~= texts_of(keys@).take(i as int));
            assert(texts_of(keys@).take(i + 1).last() == keys@[i as int]@);
        }
        if !same_text(keys[i].as_str(), moved) {
            out.push(keys[i].clone());
            assert(texts_of(out@) =~= texts_of(before).push(keys@[i as int]@));
        }
        i = i + 1;
    }
    assert(texts_of(keys@).take(keys.len() as int) =~= texts_of(keys@));
    out
}

/// Whether two lists of texts are the same.
fn same_list(a: &[String], b: &[String]) -> (r: bool)
    ensures
        r == (texts_of(a@) == texts_of(b@)),
{
    if a.len() != b.len() {
        assert(texts_of(a@).len() != texts_of(b@).len());
        return false;
    }
    let mut i: usize = 0;
    while i < a.len()
        invariant
            i <= a.len() == b.len(),
            forall|j: int| 0 <= j < i ==> a@[j]@ == b@[j]@,
        decreases a.len() - i,
    {
        if !same_text(a[i].as_str(), b[i].as_str()) {
            assert(texts_of(a@)[i as int] != texts_of(b@)[i as int]);
            return false;
        }
        i = i + 1;
    }
    assert(texts_of(a@) =~= texts_of(b@));
    true
}

/// Whether the keys, `moved` left out, are the keys there were before, in
/// the same order: an edit that added or renamed one key moved no other.
pub fn order_kept(keys: &[String], moved: &str, before: &[String]) -> (r: bool)
    ensures
        r == (others_than(texts_of(keys@), moved@) == texts_of(before@)),
{
    let rest = others(keys, moved);
    same_list(&rest, before)
}

/// How an order that moved reads in the report.
pub open spec fn moved_text(before: Seq<Seq<char>>, after: Seq<Seq<char>>) -> Seq<char> {
    debug_listing(before) + " became "@ + debug_listing(after)
}

/// How an order that moved reads in the report.
fn moved(before: &[String], after: &[String]) -> (r: String)
    ensures
        r@ == moved_text(texts_of(before@), texts_of(after@)),
{
    let b = listing(before);
    let a = listing(after);
    joined3(b.as_str(), " became ", a.as_str())
}

/// Whether `text` holds `part` anywhere.
pub open spec fn holds_text(text: Seq<char>, part: Seq<char>) -> bool {
    exists|i: int| 0 <= i <= text.len() && #[trigger] starts_with(text.skip(i), part)
}

/// Whether `text` holds `part` anywhere.
fn contains_text(text: &str, part: &str) -> (r: bool)
    ensures
        r == holds_text(text@, part@),
{
    let t = chars_of(text);
    let p = chars_of(part);
    let mut i: usize = 0;
    while i < t.len()
        invariant
            i <= t.len(),
            t@ == text@,
            p@ == part@,
            forall|j: int| 0 <= j < i ==> !starts_with(#[trigger] t@.skip(j), p@),
        decreases t.len() - i,
    {
        if starts_with_at(&t, i, &p) {
            return true;
        }
        i = i + 1;
    }
    if starts_with_at(&t, t.len(), &p) {
        return true;
    }
    assert(!holds_text(text@, part@)) by {
        assert forall|j: int| 0 <= j <= text@.len() implies !starts_with(#[trigger] text@.skip(j), part@) by {
            if j < t.len() {
                assert(!starts_with(t@.skip(j), p@));
            }
        }
    }
    false
}

/// What one replacement of the payload came to, up to taking it out again:
/// the save, the verdict on what was written, and the card against the file
/// that went in, in that order.
pub open spec fn replacement_judged(
    saved: SaveAnswer,
    verdict: Seq<char>,
    line: Seq<char>,
    card: Option<(Seq<char>, u64)>,
    name: Seq<char>,
    went_in: Seq<u8>,
) -> Option<(Seq<char>, Seq<char>)> {
    match saved {
        SaveAnswer::Unchanged => Some(
            (
                "the replacement: a payload to write is something to write"@,
                "save said nothing had changed"@,
            ),
        ),
        SaveAnswer::Refused(v) => Some(
            ("the replacement: what was written did not read back conformant"@, v@),
        ),
        SaveAnswer::Failed(e) => Some(("the replacement: the write failed"@, e@)),
        SaveAnswer::Written => if verdict != "accept"@ {
            Some(("the replacement: the container is no longer conformant"@, line))
        } else {
            match card {
                None => Some(("the replacement: the replaced container has no card"@, line)),
                Some((shown, size)) => if shown != name || size != went_in.len() {
                    Some(
                        (
                            "the replacement: the card describes something other than what went in"@,
                            shown + " at "@ + decimal(size as nat) + " bytes, expecting "@ + name
                                + " at "@ + decimal(went_in.len()),
                        ),
                    )
                } else {
                    None
                },
            }
        },
    }
}

/// What one replacement of the payload came to, up to taking it out again:
/// `saved` is what the save answered, `verdict` and `line` the word and the
/// line for the container read back, `card` the name and size its card
/// gave, and `name` and `went_in` the name and bytes put in.
pub fn judge_replacement(
    saved: &SaveAnswer,
    verdict: &str,
    line: &str,
    card: Option<(&str, u64)>,
    name: &str,
    went_in: &[u8],
) -> (r: Option<(String, String)>)
    ensures
        finding_of(r) == replacement_judged(
            *saved,
            verdict@,
            line@,
            match card {
                Some((n, size)) => Some((n@, size)),
                None => None,
            },
            name@,
            went_in@,
        ),
{
    match saved {
        SaveAnswer::Unchanged => found(
            "the replacement: a payload to write is something to write",
            "save said nothing had changed",
        ),
        SaveAnswer::Refused(v) => found(
            "the replacement: what was written did not read back conformant",
            v.as_str(),
        ),
        SaveAnswer::Failed(e) => found("the replacement: the write failed", e.as_str()),
        SaveAnswer::Written => {
            if !same_text(verdict, "accept") {
                return found("the replacement: the container is no longer conformant", line);
            }
            match card {
                None => found("the replacement: the replaced container has no card", line),
                Some((shown, size)) => {
                    let length = went_in.len() as u64;
                    if !same_text(shown, name) || size != length {
                        let mut said = joined3(shown, " at ", string_of(&decimal_chars(size as u128)).as_str());
                        push_chars(&mut said, &chars_of(" bytes, expecting "));
                        push_chars(&mut said, &chars_of(name));
                        push_chars(&mut said, &chars_of(" at "));
                        push_chars(&mut said, &decimal_chars(length as u128));
                        found(
                            "the replacement: the card describes something other than what went in",
                            said.as_str(),
                        )
                    } else {
                        None
                    }
                },
            }
        },
    }
}

/// Whether two runs of bytes are the same.
fn same_bytes(a: &[u8], b: &[u8]) -> (r: bool)
    ensures
        r == (a@ == b@),
{
    if a.len() != b.len() {
        assert(a@.len() != b@.len());
        return false;
    }
    let mut i: usize = 0;
    while i < a.len()
        invariant
            i <= a.len() == b.len(),
            forall|j: int| 0 <= j < i ==> a@[j] == b@[j],
        decreases a.len() - i,
    {
        if a[i] != b[i] {
            assert(a@[i as int] != b@[i as int]);
            return false;
        }
        i = i + 1;
    }
    assert(a@ =~= b@);
    true
}

/// What taking a replaced payload out again gave.
pub enum CameBack {
    /// It would not come out, in the library's words.
    NotOut(String),
    /// It came out and could not be read, in the platform's words.
    Unread(String),
    /// These bytes.
    Bytes(Vec<u8>),
}

/// Whether a replaced payload came back out as the bytes that went in.
pub open spec fn came_back_judged(back: CameBack, went_in: Seq<u8>) -> Option<(Seq<char>, Seq<char>)> {
    match back {
        CameBack::NotOut(e) => Some(("the replacement: the new payload would not come back out"@, e@)),
        CameBack::Unread(e) => Some(("the replacement: the extracted payload could not be read"@, e@)),
        CameBack::Bytes(got) => if got@ == went_in {
            None
        } else {
            Some(
                (
                    "the replacement: the payload that came back is not the one that went in"@,
                    decimal(got@.len()) + " bytes back, "@ + decimal(went_in.len()) + " in"@,
                ),
            )
        },
    }
}

/// Whether a replaced payload came back out as the bytes that went in.
pub fn judge_came_back(back: &CameBack, went_in: &[u8]) -> (r: Option<(String, String)>)
    ensures
        finding_of(r) == came_back_judged(*back, went_in@),
{
    match back {
        CameBack::NotOut(e) => found("the replacement: the new payload would not come back out", e.as_str()),
        CameBack::Unread(e) => found("the replacement: the extracted payload could not be read", e.as_str()),
        CameBack::Bytes(got) => {
            if same_bytes(got.as_slice(), went_in) {
                None
            } else {
                let mut said = joined3(
                    string_of(&decimal_chars(got.len() as u128)).as_str(),
                    " bytes back, ",
                    string_of(&decimal_chars(went_in.len() as u128)).as_str(),
                );
                push_chars(&mut said, &chars_of(" in"));
                found(
                    "the replacement: the payload that came back is not the one that went in",
                    said.as_str(),
                )
            }
        },
    }
}

/// Whether replacing the payload under its own name left the metadata
/// member byte for byte: nobody edited it, so nothing may have rewritten it.
pub open spec fn metadata_kept_judged(after: Result<Vec<u8>, String>, before: Seq<u8>) -> Option<(Seq<char>, Seq<char>)> {
    match after {
        Ok(bytes) => if bytes@ == before {
            None
        } else {
            Some(
                (
                    "the replacement: replacing the payload rewrote metadata nobody edited"@,
                    "the metadata member came back with different bytes"@,
                ),
            )
        },
        Err(e) => Some(("the replacement: the replaced container could not be read"@, e@)),
    }
}

/// Whether replacing the payload left the metadata member as it was:
/// `after` is the member's bytes read back, or why they could not be.
pub fn judge_metadata_kept(after: &Result<Vec<u8>, String>, before: &[u8]) -> (r: Option<(String, String)>)
    ensures
        finding_of(r) == metadata_kept_judged(*after, before@),
{
    match after {
        Ok(bytes) => {
            if same_bytes(bytes.as_slice(), before) {
                None
            } else {
                found(
                    "the replacement: replacing the payload rewrote metadata nobody edited",
                    "the metadata member came back with different bytes",
                )
            }
        },
        Err(e) => found("the replacement: the replaced container could not be read", e.as_str()),
    }
}

/// Whether the metadata names the new payload file after a replacement under
/// a new name: `payload.file` has to move with the payload.
pub open spec fn file_moved_judged(document: Seq<char>, file: Seq<char>) -> Option<(Seq<char>, Seq<char>)> {
    if holds_text(document, file) {
        None
    } else {
        Some(("the replacement: payload.file did not move with the payload"@, document))
    }
}

/// Whether the metadata document read back names the new payload file.
pub fn judge_file_moved(document: &str, file: &str) -> (r: Option<(String, String)>)
    ensures
        finding_of(r) == file_moved_judged(document@, file@),
{
    if contains_text(document, file) {
        None
    } else {
        found("the replacement: payload.file did not move with the payload", document)
    }
}

/// What saving a container nobody edited came to: nothing written, and the
/// file on disk the same bytes as before. `after` is the file read again,
/// where it could be.
pub open spec fn unedited_judged(saved: SaveAnswer, before: Seq<u8>, after: Option<Seq<u8>>) -> Option<(Seq<char>, Seq<char>)> {
    match saved {
        SaveAnswer::Unchanged => if after == Some(before) {
            None
        } else {
            Some(
                (
                    "the rewrite: an unedited save changed the file"@,
                    "the bytes on disk moved with nothing edited"@,
                ),
            )
        },
        SaveAnswer::Failed(e) => Some(("the rewrite: an unedited container would not save"@, e@)),
        _ => Some(
            (
                "the rewrite: an unedited container was written anyway"@,
                "DESIGN §5 says a container nothing has changed in is not written"@,
            ),
        ),
    }
}

/// What saving a container nobody edited came to.
pub fn judge_unedited(saved: &SaveAnswer, before: &[u8], after: Option<&[u8]>) -> (r: Option<(String, String)>)
    ensures
        finding_of(r) == unedited_judged(
            *saved,
            before@,
            match after {
                Some(a) => Some(a@),
                None => None,
            },
        ),
{
    match saved {
        SaveAnswer::Unchanged => {
            let moved_bytes = found(
                "the rewrite: an unedited save changed the file",
                "the bytes on disk moved with nothing edited",
            );
            match after {
                None => moved_bytes,
                Some(a) => {
                    if same_bytes(a, before) {
                        None
                    } else {
                        moved_bytes
                    }
                },
            }
        },
        SaveAnswer::Failed(e) => found("the rewrite: an unedited container would not save", e.as_str()),
        _ => found(
            "the rewrite: an unedited container was written anyway",
            "DESIGN §5 says a container nothing has changed in is not written",
        ),
    }
}

/// What a rewrite with one key added came to: the save, the verdict on what
/// was written, whether the added key came back, and whether the others kept
/// their order, in that order.
pub open spec fn rewrite_judged(
    saved: SaveAnswer,
    verdict: Seq<char>,
    line: Seq<char>,
    has_added: bool,
    keys: Seq<Seq<char>>,
    added: Seq<char>,
    before: Seq<Seq<char>>,
) -> Option<(Seq<char>, Seq<char>)> {
    match saved {
        SaveAnswer::Unchanged => Some(
            (
                "the rewrite: an edited container was not written"@,
                "a key was added and the save reported nothing to do"@,
            ),
        ),
        SaveAnswer::Refused(v) => Some(("the rewrite: what was written back did not validate"@, v@)),
        SaveAnswer::Failed(e) => Some(("the rewrite: the save failed"@, e@)),
        SaveAnswer::Written => if verdict != "accept"@ {
            Some(("the rewrite: the rewritten container is no longer conformant"@, line))
        } else if !has_added {
            Some(
                (
                    "the rewrite: the edit did not survive the round trip"@,
                    "the key added before saving is not in the container that came back"@,
                ),
            )
        } else if others_than(keys, added) != before {
            Some(
                (
                    "the rewrite: the keys came back in a different order"@,
                    moved_text(before, others_than(keys, added)),
                ),
            )
        } else {
            None
        },
    }
}

/// What a rewrite with one key added came to: `saved` is what the save
/// answered, `verdict` and `line` the word and the line for the container
/// read back, `has_added` whether its document holds the added key, `keys`
/// its top-level keys, and `before` the top-level keys before the edit.
pub fn judge_rewrite(
    saved: &SaveAnswer,
    verdict: &str,
    line: &str,
    has_added: bool,
    keys: &[String],
    added: &str,
    before: &[String],
) -> (r: Option<(String, String)>)
    ensures
        finding_of(r) == rewrite_judged(
            *saved,
            verdict@,
            line@,
            has_added,
            texts_of(keys@),
            added@,
            texts_of(before@),
        ),
{
    match saved {
        SaveAnswer::Unchanged => found(
            "the rewrite: an edited container was not written",
            "a key was added and the save reported nothing to do",
        ),
        SaveAnswer::Refused(v) => found("the rewrite: what was written back did not validate", v.as_str()),
        SaveAnswer::Failed(e) => found("the rewrite: the save failed", e.as_str()),
        SaveAnswer::Written => {
            if !same_text(verdict, "accept") {
                return found("the rewrite: the rewritten container is no longer conformant", line);
            }
            if !has_added {
                return found(
                    "the rewrite: the edit did not survive the round trip",
                    "the key added before saving is not in the container that came back",
                );
            }
            let after = others(keys, added);
            if !same_list(&after, before) {
                let said = moved(before, &after);
                return found("the rewrite: the keys came back in a different order", said.as_str());
            }
            None
        },
    }
}

/// Whether a list of texts holds `key`.
fn holds_key(keys: &[String], key: &str) -> (r: bool)
    ensures
        r == texts_of(keys@).contains(key@),
{
    let mut i: usize = 0;
    while i < keys.len()
        invariant
            i <= keys.len(),
            forall|j: int| 0 <= j < i ==> keys@[j]@ != key@,
        decreases keys.len() - i,
    {
        if same_text(keys[i].as_str(), key) {
            assert(texts_of(keys@)[i as int] == key@);
            return true;
        }
        i = i + 1;
    }
    assert forall|j: int| 0 <= j < texts_of(keys@).len() implies texts_of(keys@)[j] != key@ by {
        assert(texts_of(keys@)[j] == keys@[j]@);
    }
    false
}

/// What renaming one key came to: the save, the verdict on what was
/// written, whether the new name is there, and whether the others kept their
/// order, in that order.
pub open spec fn rename_judged(
    saved: SaveAnswer,
    verdict: Seq<char>,
    line: Seq<char>,
    keys: Seq<Seq<char>>,
    renamed: Seq<char>,
    before: Seq<Seq<char>>,
) -> Option<(Seq<char>, Seq<char>)> {
    match saved {
        SaveAnswer::Unchanged => Some(("the rename: not written"@, "a rename reported nothing to do"@)),
        SaveAnswer::Refused(v) => Some(
            ("the rename: not written"@, "what was written did not validate: "@ + v@),
        ),
        SaveAnswer::Failed(e) => Some(("the rename: the save failed"@, e@)),
        SaveAnswer::Written => if verdict != "accept"@ {
            Some(("the rename: the container is no longer conformant"@, line))
        } else if !keys.contains(renamed) {
            Some(("the rename: the new name is not there"@, debug_listing(keys)))
        } else if others_than(keys, renamed) != before {
            Some(("the rename: it moved the other keys"@, moved_text(before, others_than(keys, renamed))))
        } else {
            None
        },
    }
}

/// What renaming one key came to: `saved` is what the save answered,
/// `verdict` and `line` the word and the line for the container read back,
/// `keys` its top-level keys, and `before` the top-level keys before the
/// key was added and renamed.
pub fn judge_rename(
    saved: &SaveAnswer,
    verdict: &str,
    line: &str,
    keys: &[String],
    renamed: &str,
    before: &[String],
) -> (r: Option<(String, String)>)
    ensures
        finding_of(r) == rename_judged(
            *saved,
            verdict@,
            line@,
            texts_of(keys@),
            renamed@,
            texts_of(before@),
        ),
{
    match saved {
        SaveAnswer::Unchanged => found("the rename: not written", "a rename reported nothing to do"),
        SaveAnswer::Refused(v) => {
            let mut said = String::new();
            assert(said@ =~= Seq::<char>::empty());
            push_chars(&mut said, &chars_of("what was written did not validate: "));
            push_chars(&mut said, &chars_of(v.as_str()));
            found("the rename: not written", said.as_str())
        },
        SaveAnswer::Failed(e) => found("the rename: the save failed", e.as_str()),
        SaveAnswer::Written => {
            if !same_text(verdict, "accept") {
                return found("the rename: the container is no longer conformant", line);
            }
            if !holds_key(keys, renamed) {
                let said = listing(keys);
                return found("the rename: the new name is not there", said.as_str());
            }
            let after = others(keys, renamed);
            if !same_list(&after, before) {
                let said = moved(before, &after);
                return found("the rename: it moved the other keys", said.as_str());
            }
            None
        },
    }
}

/// A replacement agrees exactly when the save wrote, what was written reads
/// back conformant, and its card names the file that went in at the length
/// that went in: any other name or any other size is a disagreement.
pub proof fn law_a_replacement_agrees_only_as_it_went_in(
    saved: SaveAnswer,
    verdict: Seq<char>,
    line: Seq<char>,
    card: Option<(Seq<char>, u64)>,
    name: Seq<char>,
    went_in: Seq<u8>,
)
    ensures
        replacement_judged(saved, verdict, line, card, name, went_in) is None <==> (saved is Written
            && verdict == "accept"@ && card is Some && card.unwrap().0 == name && card.unwrap().1 == went_in.len()),
        saved is Written && verdict == "accept"@ && card is Some && (card.unwrap().0 != name || card.unwrap().1
            != went_in.len()) ==> replacement_judged(saved, verdict, line, card, name, went_in).unwrap().0
            == "the replacement: the card describes something other than what went in"@,
{
}

/// A replaced payload agrees exactly when it came back out as the very
/// bytes that went in.
pub proof fn law_a_payload_comes_back_as_it_went_in(back: CameBack, went_in: Seq<u8>)
    ensures
        came_back_judged(back, went_in) is None <==> (back matches CameBack::Bytes(got) && got@ == went_in),
{
}

/// Replacing the payload agrees about the metadata exactly when the member
/// reads back byte for byte as it was.
pub proof fn law_untouched_metadata_is_left_byte_for_byte(after: Result<Vec<u8>, String>, before: Seq<u8>)
    ensures
        metadata_kept_judged(after, before) is None <==> (after matches Ok(bytes) && bytes@ == before),
{
}

/// A save with nothing edited agrees exactly when it reported nothing to
/// write and the file reads back the bytes it held before.
pub proof fn law_an_unedited_save_changes_nothing(saved: SaveAnswer, before: Seq<u8>, after: Option<Seq<u8>>)
    ensures
        unedited_judged(saved, before, after) is None <==> (saved is Unchanged && after == Some(before)),
{
}

/// A rewrite agrees exactly when it was written, reads back conformant,
/// holds the added key, and has every other key in the order there was
/// before.
pub proof fn law_a_rewrite_keeps_the_edit_and_the_order(
    saved: SaveAnswer,
    verdict: Seq<char>,
    line: Seq<char>,
    has_added: bool,
    keys: Seq<Seq<char>>,
    added: Seq<char>,
    before: Seq<Seq<char>>,
)
    ensures
        rewrite_judged(saved, verdict, line, has_added, keys, added, before) is None <==> (saved is Written
            && verdict == "accept"@ && has_added && others_than(keys, added) == before),
{
}

/// A rename agrees exactly when it was written, reads back conformant, holds
/// the new name, and has every other key in the order there was before.
pub proof fn law_a_rename_keeps_its_place(
    saved: SaveAnswer,
    verdict: Seq<char>,
    line: Seq<char>,
    keys: Seq<Seq<char>>,
    renamed: Seq<char>,
    before: Seq<Seq<char>>,
)
    ensures
        rename_judged(saved, verdict, line, keys, renamed, before) is None <==> (saved is Written
            && verdict == "accept"@ && keys.contains(renamed) && others_than(keys, renamed) == before),
{
}

/// A case's columns raise nothing exactly when the verdict is the one
/// expected, the tree is shown where one is owed and not where none is, and
/// the card is shown for a conformant container alone.
pub proof fn law_a_case_agrees_when_every_column_does(expect: Seq<char>, got: Seq<char>, tree: bool, card: bool)
    ensures
        column_disagreements(expect, got, tree, card).len() == 0 <==> (got == expect && (tree_owed(expect)
            matches Some(owed) ==> tree == owed) && card == (expect == "accept"@)),
{
}

/// The keys other than the moved one are the keys in their order with every
/// occurrence of the moved one taken out: none for no keys, and for keys with
/// one more at the end, that one after the others unless it is the moved one.
pub proof fn law_the_other_keys_are_the_keys_without_the_moved_one(
    keys: Seq<Seq<char>>,
    k: Seq<char>,
    moved: Seq<char>,
)
    ensures
        others_than(Seq::<Seq<char>>::empty(), moved) == Seq::<Seq<char>>::empty(),
        others_than(keys.push(k), moved) == (if k == moved {
            others_than(keys, moved)
        } else {
            others_than(keys, moved).push(k)
        }),
        !others_than(keys, moved).contains(moved),
{
    reveal(Seq::filter);
    assert(keys.push(k).drop_last() =~= keys);
    broadcast use vstd::seq_lib::group_filter_ensures;

}

} // verus!
