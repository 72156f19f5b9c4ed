//! What opening a path produced, and how the window and the conformance
//! corpus put it in words.

use vstd::prelude::*;

use crate::potext::{fill, filled, in_force_view, pairs_view, t, translated, Catalog};

verus! {

/// Which of the library's answers a container got.
///
/// The library's verdict carries the rule a container broke; what the window
/// shows of that is the library's own sentence, carried beside the kind in
/// [`Outcome::Judged`].
#[derive(Debug, Clone, Copy, PartialEq, Eq, Structural)]
pub enum Verdict {
    /// Conformant to the version this build implements.
    Conformant,
    /// Not conformant.
    NonConformant,
    /// The metadata member could not be read, so conformance cannot be
    /// established. Not a failure, and not a pass.
    Undetermined,
    /// Declares a version this build does not implement: outside the question
    /// rather than failing it.
    OutOfScope,
    /// An answer added to the library after this was written.
    Unrecognised,
}

/// What opening a path produced.
///
/// Two arms over the library's verdicts: every verdict is an answer about a
/// container, and not being able to read the bytes at all is a fact about
/// the path.
pub enum Outcome {
    /// The bytes could not be read, so there is nothing to judge. The reason,
    /// in the words it came in.
    Unreadable(String),
    /// The library reached a verdict, and this is how it states it.
    Judged(Verdict, String),
}

/// This application's answer in the conformance corpus's vocabulary.
pub open spec fn word_for(outcome: Outcome) -> Seq<char> {
    match outcome {
        Outcome::Judged(Verdict::Conformant, _) => "accept"@,
        Outcome::Judged(Verdict::NonConformant, _) => "reject"@,
        Outcome::Judged(Verdict::Undetermined, _) => "undetermined"@,
        Outcome::Judged(Verdict::OutOfScope, _) => "out-of-scope"@,
        Outcome::Judged(Verdict::Unrecognised, _) => "unknown-verdict"@,
        Outcome::Unreadable(_) => "unreadable"@,
    }
}

/// The line the window shows for an outcome.
pub open spec fn line_for(in_force: Option<crate::potext::CatalogText>, outcome: Outcome) -> Seq<char> {
    match outcome {
        Outcome::Unreadable(why) => filled(
            translated(in_force, "cannot be read: {reason}"@),
            seq![("reason"@, why@)],
        ),
        Outcome::Judged(_, said) => said@,
    }
}

/// This application's answer, in the conformance corpus's vocabulary.
///
/// The corpus states one of the first four per case. The last two are
/// answers no case may expect: a path that was never a container, and a
/// verdict added to the library after this was written, which is named
/// rather than folded into one of the four.
pub fn verdict_word(outcome: &Outcome) -> (r: &'static str)
    ensures
        r@ == word_for(*outcome),
{
    match outcome {
        Outcome::Judged(Verdict::Conformant, _) => "accept",
        Outcome::Judged(Verdict::NonConformant, _) => "reject",
        Outcome::Judged(Verdict::Undetermined, _) => "undetermined",
        Outcome::Judged(Verdict::OutOfScope, _) => "out-of-scope",
        Outcome::Judged(Verdict::Unrecognised, _) => "unknown-verdict",
        Outcome::Unreadable(_) => "unreadable",
    }
}

/// The line the window shows, in the language in force.
///
/// A verdict states itself in full sentences, so one that was reached carries
/// its own wording and this adds none. The reason a path could not be read is
/// the platform's own sentence and stays as it came.
pub fn verdict_line(outcome: &Outcome, in_force: Option<&Catalog>) -> (r: String)
    ensures
        r@ == line_for(in_force_view(in_force), *outcome),
{
    match outcome {
        Outcome::Unreadable(why) => {
            let values: Vec<(&str, &str)> = vec![("reason", why.as_str())];
            assert(pairs_view(values@) =~= seq![("reason"@, why@)]);
            fill(t(in_force, "cannot be read: {reason}"), values.as_slice())
        },
        Outcome::Judged(_, said) => said.clone(),
    }
}

} // verus!
