//! What becomes of taking a payload out of a container, and of writing one
//! back.

use std::path::PathBuf;

use vstd::prelude::*;

verus! {

/// `std::path::PathBuf`, carried through as it is: nothing here reads
/// inside a path.
#[verifier::external_type_specification]
#[verifier::external_body]
pub struct ExPathBuf(PathBuf);

/// What became of an extraction that did not fail.
pub enum Extracted {
    /// The payload is on disk, here.
    Done(PathBuf),
    /// Stopping was asked for, and the part of the file that had been
    /// written is gone.
    Cancelled,
}

/// What a save has to write, where it has to write anything.
#[derive(Debug, Clone, Copy, PartialEq, Eq, Structural)]
pub struct Rewrite {
    /// Whether the metadata document is handed over. Only where it was
    /// edited: handing it over re-serialises it, and a document nobody
    /// touched is not re-serialised.
    pub metadata: bool,
    /// Whether the payload is replaced by a chosen file.
    pub payload: bool,
}

/// What a save writes: nothing where nothing was edited and no replacement
/// was chosen, and otherwise, in one write, the metadata where there is a
/// document and it was edited, and the payload where a replacement was
/// chosen. A payload to write is always something to write, into a container
/// whose metadata could not be read as well: what is written is then read
/// back and judged like any other, never reported as unchanged.
pub fn what_to_write(has_metadata: bool, edited: bool, replacing: bool) -> (r: Option<Rewrite>)
    ensures
        r == (if !(has_metadata && edited) && !replacing {
            None
        } else {
            Some(Rewrite { metadata: has_metadata && edited, payload: replacing })
        }),
{
    let metadata = has_metadata && edited;
    if !metadata && !replacing {
        return None;
    }
    Some(Rewrite { metadata, payload: replacing })
}

} // verus!
