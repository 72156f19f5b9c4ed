//! What the card offers to do with a payload.

use vstd::prelude::*;

use crate::card::Payload;

verus! {

/// What pressing something on the card asks for.
#[derive(Debug, Clone, Copy, PartialEq, Eq, Structural)]
pub enum Ask {
    /// Extract to the scratch directory and hand it to the platform.
    Open,
    /// Extract to somewhere a person names.
    Extract,
    /// Replace it with a file a person names.
    Replace,
    /// Forget a replacement already chosen.
    Undo,
}

/// Whether doing this has to decode the payload.
pub open spec fn needs_decoding(ask: Ask) -> bool {
    ask == Ask::Open || ask == Ask::Extract
}

impl Ask {
    /// Whether doing this has to decode the payload.
    ///
    /// Replacing does not: nothing reads a member to write over it, so a
    /// container whose payload cannot be opened is still one whose payload
    /// can be swapped out.
    pub fn decodes(self) -> (r: bool)
        ensures
            r == needs_decoding(self),
    {
        match self {
            Ask::Open | Ask::Extract => true,
            _ => false,
        }
    }

    /// Whether the card can offer it.
    ///
    /// A button that is not offered says more than one that is offered and
    /// then fails: the refusal is a fact about this build, known before
    /// anything is pressed. Nothing is offered while a dialog is up.
    pub fn offered(self, payload: &Payload, busy: bool) -> (r: bool)
        ensures
            r == (!busy && (!needs_decoding(self) || payload.unreadable.is_none())),
    {
        !busy && (!self.decodes() || payload.can_be_decoded())
    }

    /// Whether this button takes the focus that a freshly opened container
    /// owes: the Open button alone, while the focus is still owed, and only
    /// where it can be pressed.
    pub fn takes_focus(self, owed: bool, enabled: bool) -> (r: bool)
        ensures
            r == (owed && self == Ask::Open && enabled),
    {
        owed && enabled && match self {
            Ask::Open => true,
            _ => false,
        }
    }
}

} // verus!
