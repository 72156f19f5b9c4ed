//! How a Linux desktop is asked about a payload: `xdg-mime` for the type and
//! the default application, and the application's desktop entry for a name a
//! person recognises.

use vstd::prelude::*;

use crate::opens_with::windows::{has_separator, holds_char};
use crate::text::{
    chars_of, lines, next_line, same, slice, starts_with, starts_with_at, string_of, trim,
    trim_bounds,
};

verus! {

/// Whether a payload's name can be given to a placeholder file as it is: not
/// empty, and not a path.
pub open spec fn plain_file_name(name: Seq<char>) -> bool {
    name.len() > 0 && !has_separator(name)
}

/// Whether a name can be used as a file's name in a directory of the
/// application's own. A conformant container's payload name has been through
/// the library's check, which rejects every separator; this checks again
/// rather than assuming it.
pub fn names_a_plain_file(name: &str) -> (r: bool)
    ensures
        r == plain_file_name(name@),
{
    let v = chars_of(name);
    v.len() > 0 && !holds_char(&v, '/') && !holds_char(&v, '\\')
}

/// Whether a desktop entry's name could reach outside the directories
/// searched for it.
pub fn is_a_path(entry: &str) -> (r: bool)
    ensures
        r == has_separator(entry@),
{
    let v = chars_of(entry);
    holds_char(&v, '/') || holds_char(&v, '\\')
}

/// What `xdg-mime` said, once trimmed, where it said anything.
pub open spec fn saying(out: Seq<char>) -> Option<Seq<char>> {
    if trim(out).len() == 0 {
        None
    } else {
        Some(trim(out))
    }
}

/// The answer in what `xdg-mime` printed: the text trimmed, and nothing
/// where that leaves nothing.
pub fn said(out: &str) -> (r: Option<String>)
    ensures
        match r {
            Some(s) => saying(out@) == Some(s@),
            None => saying(out@) is None,
        },
{
    let v = chars_of(out);
    let (lo, hi) = trim_bounds(&v, 0, v.len());
    assert(v@.subrange(0, v.len() as int) =~= out@);
    if lo == hi {
        None
    } else {
        Some(string_of(&slice(&v, lo, hi)))
    }
}

/// The name a desktop entry's lines give, reading on from the first of
/// them, with `in_entry` saying whether the group being read is
/// `[Desktop Entry]`.
///
/// A line beginning `[` opens a group. Inside `[Desktop Entry]`, the first
/// bare `Name=` with something after it is the name. `Name[de]` is somebody
/// else's language, and a `Name` in an action's group is the action's.
pub open spec fn name_from(lines: Seq<Seq<char>>, in_entry: bool) -> Option<Seq<char>>
    decreases lines.len(),
{
    if lines.len() == 0 {
        None
    } else {
        let line = trim(lines[0]);
        if line.len() > 0 && line[0] == '[' {
            name_from(lines.drop_first(), line == "[Desktop Entry]"@)
        } else if in_entry && starts_with(line, "Name="@) && trim(line.skip(5)).len() > 0 {
            Some(trim(line.skip(5)))
        } else {
            name_from(lines.drop_first(), in_entry)
        }
    }
}

/// The unlocalised `Name` of a desktop entry's `[Desktop Entry]` group.
pub open spec fn entry_name(text: Seq<char>) -> Option<Seq<char>> {
    name_from(lines(text), false)
}

/// The unlocalised `Name` of the `[Desktop Entry]` group.
///
/// A person recognises Document Viewer; nobody recognises
/// `org.gnome.Evince.desktop`. An entry with no name of its own gives
/// nothing, and the card then says nothing rather than showing the entry's
/// file name.
pub fn name_in(text: &str) -> (r: Option<String>)
    ensures
        match r {
            Some(s) => entry_name(text@) == Some(s@),
            None => entry_name(text@) is None,
        },
{
    proof {
        reveal_strlit("Name=");
    }
    let v = chars_of(text);
    let entry = chars_of("[Desktop Entry]");
    let key = chars_of("Name=");
    let mut in_entry = false;
    let mut pos: usize = 0;
    assert(v@.skip(0) =~= v@);
    while pos < v.len()
        invariant
            pos <= v.len(),
            v@ == text@,
            entry@ == "[Desktop Entry]"@,
            key@ == "Name="@,
            key@.len() == 5,
            name_from(lines(v@.skip(pos as int)), in_entry) == entry_name(text@),
        decreases v.len() - pos,
    {
        let (end, next, _) = next_line(&v, pos);
        let ghost rest = v@.skip(pos as int);
        let ghost line = v@.subrange(pos as int, end as int);
        proof {
            assert(rest.len() > 0);
            assert(lines(rest)[0] == line);
            assert(lines(rest).drop_first() == lines(v@.skip(next as int)));
        }
        let (lo, hi) = trim_bounds(&v, pos, end);
        let ghost trimmed = v@.subrange(lo as int, hi as int);
        assert(trimmed == trim(line));
        if lo < hi && v[lo] == '[' {
            let group = slice(&v, lo, hi);
            in_entry = same(&group, &entry);
        } else if in_entry && hi - lo >= 5 && starts_with_at(&v, lo, &key) {
            assert(v@.skip(lo as int).take(5) =~= trimmed.take(5));
            let (a, b) = trim_bounds(&v, lo + 5, hi);
            assert(v@.subrange(lo + 5, hi as int) =~= trimmed.skip(5));
            if a < b {
                return Some(string_of(&slice(&v, a, b)));
            }
        } else {
            proof {
                if in_entry && hi - lo >= 5 {
                    assert(v@.skip(lo as int).take(5) =~= trimmed.take(5));
                }
            }
        }
        pos = next;
    }
    proof {
        assert(v@.skip(pos as int) =~= Seq::<char>::empty());
        assert(lines(Seq::<char>::empty()) =~= Seq::<Seq<char>>::empty());
    }
    None
}

} // verus!
