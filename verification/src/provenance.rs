//! Where a container came from, carried onto the payload taken out of it.
//!
//! A container downloaded from the internet is marked as such by the
//! platform that downloaded it, and a copy this application writes carries no
//! mark unless one is put there. Without it, extracting is laundering: the
//! payload reaches its handler as something this machine made, and the
//! warning the platform would have shown never appears.
//!
//! The rule for a caller about to hand a payload to the system is the whole
//! of the rule here: an error from [`carry`] means do not open it. It fails
//! only when the platform gates opening on a mark, the source carries one, and
//! the copy ends up carrying none.

use vstd::prelude::*;

verus! {

/// What was carried from a container onto the payload extracted from it.
#[derive(Debug, Clone, Copy, PartialEq, Eq, Structural)]
pub enum Mark {
    /// The source said where it came from, and the copy now says the same.
    /// The platform will consult it before opening the payload.
    Carried,
    /// The same, except that nothing on this platform consults it: a note
    /// rather than a gate, and a separate answer so that nothing mistakes it
    /// for one.
    Noted,
    /// The copy already said it arrived from elsewhere, and this is not what
    /// put it there. The platform marks what a sandboxed process writes and
    /// refuses to have that mark replaced: the container's own value is lost,
    /// and the copy is gated all the same.
    AlreadyMarked,
    /// The source said nothing about where it came from, or this platform
    /// keeps nothing that would say.
    Silent,
}

/// What carrying comes to, given what the platform's attempt gave and
/// whether the copy carries a mark afterwards.
///
/// A refused write is only a failure if the copy is unmarked after it: a
/// copy the platform marked first is gated, so nothing was laundered and
/// there is nothing to refuse. Asked of the file rather than of the process,
/// so this is one rule on every platform and not a sandbox check.
pub fn carry<E>(attempt: Result<Mark, E>, copy_carries_a_mark: bool) -> (r: Result<Mark, E>)
    ensures
        match attempt {
            Ok(m) => r == Ok::<Mark, E>(m),
            Err(e) => if copy_carries_a_mark {
                r == Ok::<Mark, E>(Mark::AlreadyMarked)
            } else {
                r == Err::<Mark, E>(e)
            },
        },
{
    match attempt {
        Err(_) if copy_carries_a_mark => Ok(Mark::AlreadyMarked),
        other => other,
    }
}

/// The position of the first `;` at or after `i`, or the end.
pub open spec fn field_end(v: Seq<u8>, i: int) -> int
    decreases v.len() - i,
{
    if i < 0 || i >= v.len() {
        v.len() as int
    } else if v[i] == 59u8 {
        i
    } else {
        field_end(v, i + 1)
    }
}

/// The `k`th of the `;`-separated fields of `v` starting at `i`, counting
/// from nought, where there are that many.
pub open spec fn field_from(v: Seq<u8>, i: int, k: nat) -> Option<Seq<u8>>
    decreases v.len() - i, k,
{
    let end = field_end(v, i);
    if k == 0 {
        Some(v.subrange(i, end))
    } else if 0 <= i <= end < v.len() {
        field_from(v, end + 1, (k - 1) as nat)
    } else {
        None
    }
}

/// Whether a quarantine value records this application writing the file,
/// rather than the file arriving from anywhere.
///
/// The value is `flags;timestamp;agent;event`, and the agent is the only
/// field read. The platform names the executable's own file name as the
/// agent of a mark it writes on this application's behalf, so that is what
/// it is compared against. Every uncertainty answers no: a value with no
/// third field, or an executable this process cannot name, is no evidence
/// that the mark is ours.
pub open spec fn ours(value: Seq<u8>, us: Option<Seq<u8>>) -> bool {
    match (field_from(value, 0, 2), us) {
        (Some(agent), Some(name)) => agent == name,
        _ => false,
    }
}

proof fn lemma_field_end(v: Seq<u8>, i: int)
    requires
        0 <= i <= v.len(),
    ensures
        i <= field_end(v, i) <= v.len(),
        field_end(v, i) < v.len() ==> v[field_end(v, i)] == 59u8,
        forall|j: int| i <= j < field_end(v, i) ==> v[j] != 59u8,
    decreases v.len() - i,
{
    if i < v.len() && v[i] != 59u8 {
        lemma_field_end(v, i + 1);
    }
}

/// Where the field starting at `i` ends.
fn end_of_field(v: &[u8], i: usize) -> (e: usize)
    requires
        i <= v.len(),
    ensures
        e == field_end(v@, i as int),
{
    let mut j = i;
    while j < v.len() && v[j] != 59u8
        invariant
            i <= j <= v.len(),
            field_end(v@, i as int) == field_end(v@, j as int),
        decreases v.len() - j,
    {
        j = j + 1;
    }
    j
}

/// Whether a quarantine value records this application writing the file.
pub fn this_application_wrote(value: &[u8], us: Option<&[u8]>) -> (r: bool)
    ensures
        r == ours(
            value@,
            match us {
                Some(u) => Some(u@),
                None => None,
            },
        ),
{
    let first = end_of_field(value, 0);
    proof {
        lemma_field_end(value@, 0);
    }
    if first == value.len() {
        return false;
    }
    let second = end_of_field(value, first + 1);
    proof {
        lemma_field_end(value@, first + 1);
        assert(field_from(value@, 0, 2) == field_from(value@, first + 1, 1));
    }
    if second == value.len() {
        return false;
    }
    let third = end_of_field(value, second + 1);
    proof {
        lemma_field_end(value@, second + 1);
        assert(field_from(value@, first + 1, 1) == field_from(value@, second + 1, 0));
        assert(field_from(value@, 0, 2) == Some(value@.subrange(second + 1, third as int)));
    }
    match us {
        None => false,
        Some(name) => {
            if third - (second + 1) != name.len() {
                return false;
            }
            let mut i: usize = 0;
            while i < name.len()
                invariant
                    i <= name.len(),
                    second + 1 + name.len() == third <= value.len(),
                    field_from(value@, 0, 2) == Some(value@.subrange(second + 1, third as int)),
                    us == Some(name),
                    forall|j: int| 0 <= j < i ==> value@[second + 1 + j] == name@[j],
                decreases name.len() - i,
            {
                if value[second + 1 + i] != name[i] {
                    assert(value@.subrange(second + 1, third as int)[i as int] != name@[i as int]);
                    return false;
                }
                i = i + 1;
            }
            assert(value@.subrange(second + 1, third as int) =~= name@);
            true
        },
    }
}

/// Whether a file whose quarantine value is `value` arrived from elsewhere,
/// as macOS records it.
///
/// Not the same question as whether the file is gated. Under the App Sandbox
/// the platform marks whatever this process writes, so a container saved here
/// carries a mark that says only that; this disregards a mark whose agent is
/// this application. Anything it cannot read as ours it reports, because
/// over-reporting provenance costs a person one line of caution.
pub fn arrived_from_elsewhere(value: Option<&[u8]>, us: Option<&[u8]>) -> (r: bool)
    ensures
        r == match value {
            Some(v) => !ours(
                v@,
                match us {
                    Some(u) => Some(u@),
                    None => None,
                },
            ),
            None => false,
        },
{
    match value {
        Some(v) => !this_application_wrote(v, us),
        None => false,
    }
}

/// Whether anything will consult a mark before opening a file whose
/// quarantine value is `value`, as macOS records it: any mark at all, ours
/// included, because a copy the platform marked for us is still gated.
pub fn carries_a_mark(value: Option<&[u8]>) -> (r: bool)
    ensures
        r == value.is_some(),
{
    value.is_some()
}

} // verus!
