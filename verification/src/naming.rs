//! Whether a chosen file can become a payload, asked when it is chosen
//! rather than when Save is pressed.

use vstd::prelude::*;

use crate::policy::hex4;
use crate::text::{chars_of, push_chars};
use crate::potext::{fill, filled, in_force_view, pairs_view, t, translated, Catalog, CatalogText};

verus! {

/// Which rule of SPEC 2.3 a name breaks.
#[derive(Debug, Clone, Copy, PartialEq, Eq, Structural)]
pub enum NameRule {
    /// The name is empty.
    Empty,
    /// The name is `.` or `..`.
    Relative,
    /// The name contains this path separator.
    Separator(char),
    /// The name contains a colon.
    Colon,
    /// The name contains this character in U+0000 to U+001F, or U+007F.
    ControlCharacter(char),
    /// The name is the metadata member's.
    ReservedForMetadata,
    /// The name is not UTF-8.
    NotUtf8,
}

/// Whether a character is one of the ASCII control characters.
pub open spec fn is_ascii_control(c: char) -> bool {
    c <= '\u{1F}' || c == '\u{7F}'
}

/// The first ASCII control character of `name` from `i` on.
pub open spec fn control_from(name: Seq<char>, i: int) -> Option<char>
    decreases name.len() - i,
{
    if i < 0 || i >= name.len() {
        None
    } else if is_ascii_control(name[i]) {
        Some(name[i])
    } else {
        control_from(name, i + 1)
    }
}

/// The rule of SPEC 2.3 a name breaks, checked in the order the library
/// checks them: empty, `.` or `..`, a `/`, a `\`, a colon, a control
/// character (the first), and last the metadata member's own name.
pub open spec fn rule_broken(name: Seq<char>) -> Option<NameRule> {
    if name.len() == 0 {
        Some(NameRule::Empty)
    } else if name == "."@ || name == ".."@ {
        Some(NameRule::Relative)
    } else if name.contains('/') {
        Some(NameRule::Separator('/'))
    } else if name.contains('\\') {
        Some(NameRule::Separator('\\'))
    } else if name.contains(':') {
        Some(NameRule::Colon)
    } else {
        match control_from(name, 0) {
            Some(c) => Some(NameRule::ControlCharacter(c)),
            None => if name == "slipcase.metadata.toml"@ {
                Some(NameRule::ReservedForMetadata)
            } else {
                None
            },
        }
    }
}

/// A separator as `{:?}` writes a character: quoted, a backslash doubled.
pub open spec fn quoted_char(c: char) -> Seq<char> {
    if c == '\\' {
        seq!['\'', '\\', '\\', '\'']
    } else {
        seq!['\'', c, '\'']
    }
}

/// The library's sentence for a broken rule.
pub open spec fn reason_text(rule: NameRule) -> Seq<char> {
    match rule {
        NameRule::Empty => "payload.file is empty (SPEC 2.3)"@,
        NameRule::Relative => "payload.file is `.` or `..` (SPEC 2.3)"@,
        NameRule::Separator(c) => "payload.file contains "@ + quoted_char(c)
            + ", so it is a path rather than a filename (SPEC 2.3)"@,
        NameRule::Colon => "payload.file contains ':', which is read as rooting a path on some platforms (SPEC 2.3)"@,
        NameRule::ControlCharacter(c) => "payload.file contains U+"@ + hex4(c)
            + ", a control character (SPEC 2.3)"@,
        NameRule::ReservedForMetadata => "payload.file is \"slipcase.metadata.toml\", which names the metadata member (SPEC 2.3)"@,
        NameRule::NotUtf8 => "the name is not UTF-8, and payload.file is a TOML string (SPEC 2.2)"@,
    }
}

/// `slpc::check_payload_name`, with the rule broken as this library's own
/// kind beside the library's sentence for it.
///
/// What its source shows: the checks, in `rule_broken`'s order, and the
/// sentence its `Display` writes for each; that is what this claims.
#[verifier::external_body]
fn check_payload_name(name: &str) -> (r: Result<(), (NameRule, String)>)
    ensures
        match r {
            Ok(()) => rule_broken(name@) is None,
            Err((rule, reason)) => rule_broken(name@) == Some(rule) && reason@ == reason_text(rule),
        },
{
    match slpc::check_payload_name(name) {
        Ok(()) => Ok(()),
        Err(e) => Err((match &e {
            slpc::NameError::Empty => NameRule::Empty,
            slpc::NameError::Relative => NameRule::Relative,
            slpc::NameError::Separator(c) => NameRule::Separator(*c),
            slpc::NameError::Colon => NameRule::Colon,
            slpc::NameError::ControlCharacter(c) => NameRule::ControlCharacter(*c),
            slpc::NameError::ReservedForMetadata => NameRule::ReservedForMetadata,
            _ => NameRule::NotUtf8,
        }, e.to_string())),
    }
}

/// What the last part of a chosen path is, as a payload's name would be.
pub enum Chosen<'a> {
    /// The path ends in no file name.
    Nameless,
    /// Its file name is not UTF-8, so no TOML string can hold it.
    NotUtf8,
    /// Its file name.
    Named(&'a str),
}

/// Why a chosen file cannot become a payload, where it cannot: nothing for
/// a path with no file name, the encoding for one whose name is not UTF-8,
/// and otherwise the rule its name breaks, in the library's words.
pub open spec fn refusal_of(chosen: Chosen, path_shown: Seq<char>, in_force: Option<CatalogText>) -> Option<Seq<char>> {
    match chosen {
        Chosen::Nameless => None,
        Chosen::NotUtf8 => Some(
            filled(
                translated(in_force, "{file} has a name that is not UTF-8, and payload.file is a TOML string"@),
                seq![("file"@, path_shown)],
            ),
        ),
        Chosen::Named(name) => match rule_broken(name@) {
            None => None,
            Some(rule) => Some(
                filled(
                    translated(in_force, "{name} cannot be a payload's name: {reason}"@),
                    seq![("name"@, name@), ("reason"@, reason_text(rule))],
                ),
            ),
        },
    }
}

/// Why a chosen file cannot become a payload, where it cannot.
///
/// The same checks a repack makes, asked at the moment somebody chooses the
/// file rather than at the moment they press Save: a name SPEC 2.3 forbids is
/// a fact about the choice, and a person should hear it while they still have
/// the dialog in mind. `path_shown` is the path as the window shows it.
///
/// Says nothing about the one refusal this cannot see: a container already
/// holding another member under that name.
pub fn why_not_a_payload(chosen: Chosen, path_shown: &str, in_force: Option<&Catalog>) -> (r: Option<String>)
    ensures
        match r {
            Some(s) => refusal_of(chosen, path_shown@, in_force_view(in_force)) == Some(s@),
            None => refusal_of(chosen, path_shown@, in_force_view(in_force)) is None,
        },
{
    match chosen {
        Chosen::Nameless => None,
        Chosen::NotUtf8 => {
            let values: Vec<(&str, &str)> = vec![("file", path_shown)];
            assert(pairs_view(values@) =~= seq![("file"@, path_shown@)]);
            Some(
                fill(
                    t(in_force, "{file} has a name that is not UTF-8, and payload.file is a TOML string"),
                    values.as_slice(),
                ),
            )
        },
        Chosen::Named(name) => match check_payload_name(name) {
            Ok(()) => None,
            Err((_, reason)) => {
                let values: Vec<(&str, &str)> = vec![("name", name), ("reason", reason.as_str())];
                assert(pairs_view(values@) =~= seq![("name"@, name@), ("reason"@, reason@)]);
                Some(fill(t(in_force, "{name} cannot be a payload's name: {reason}"), values.as_slice()))
            },
        },
    }
}

/// Whether a mode records the payload as executable by anybody: any of the
/// three execute bits. A payload executable by its group and not its owner
/// is still one that was executable where it came from. No mode recorded is
/// no.
pub fn executable_in(mode: Option<u32>) -> (r: bool)
    ensures
        r == match mode {
            Some(m) => m & 0o111 != 0,
            None => false,
        },
{
    match mode {
        Some(m) => m & 0o111 != 0,
        None => false,
    }
}

/// The name a new container is offered under: the payload's file name with
/// `.slpc` after it.
pub open spec fn container_name(payload_file: Seq<char>) -> Seq<char> {
    payload_file + ".slpc"@
}

/// The name a new container is offered under, for a payload file of this
/// name.
pub fn container_name_for(payload_file: &str) -> (r: String)
    ensures
        r@ == container_name(payload_file@),
{
    let mut out = String::new();
    assert(out@ =~= Seq::<char>::empty());
    push_chars(&mut out, &chars_of(payload_file));
    push_chars(&mut out, &chars_of(".slpc"));
    out
}

} // verus!
