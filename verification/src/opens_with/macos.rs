//! How macOS is asked about a payload: by the extension of its name.

use vstd::prelude::*;
use vstd::string::StrSliceExecFns;

use crate::opens_with::windows::{has_separator, holds_char};
use crate::text::{chars_of, lemma_rfind_before, rfind, rfind_char};

verus! {

/// The extension Launch Services is asked about, as `Path::extension` finds
/// it: what follows the last dot, where that dot does not begin the name and
/// something follows it.
pub open spec fn mac_extension(name: Seq<char>) -> Option<Seq<char>> {
    if has_separator(name) {
        None
    } else {
        match rfind(name, '.') {
            None => None,
            Some(dot) => if dot == 0 || dot + 1 == name.len() {
                None
            } else {
                Some(name.skip(dot + 1))
            },
        }
    }
}

/// The filename extension the question is asked of.
///
/// Launch Services takes an extension rather than a whole name, so the
/// question can be asked of a payload that has never been extracted. A name
/// with no extension, a name that is nothing but an extension, and a name
/// ending in a bare dot all give nothing. A separator means this is not a
/// payload's name, and answering for it would be answering about a path this
/// application was never given. The extension is passed on as written: Launch
/// Services does not care about its case.
pub fn extension_of(payload_name: &str) -> (r: Option<&str>)
    ensures
        match r {
            Some(e) => mac_extension(payload_name@) == Some(e@),
            None => mac_extension(payload_name@) is None,
        },
{
    let v = chars_of(payload_name);
    if holds_char(&v, '/') || holds_char(&v, '\\') {
        return None;
    }
    proof {
        lemma_rfind_before(v@, '.', v.len() as int);
    }
    match rfind_char(&v, '.', v.len()) {
        None => None,
        Some(dot) => {
            if dot == 0 || dot + 1 == v.len() {
                None
            } else {
                assert(payload_name@.subrange(dot + 1, v.len() as int) =~= payload_name@.skip(
                    dot + 1,
                ));
                Some(payload_name.substring_char(dot + 1, v.len()))
            }
        },
    }
}

} // verus!
