//! What the desktop says about light and dark, where the window toolkit will
//! not: the reading of the desktop portal's `color-scheme` setting.

use vstd::prelude::*;

verus! {

/// Which way a `color-scheme` answer points.
#[derive(Debug, Clone, Copy, PartialEq, Eq, Structural)]
pub enum Scheme {
    /// A dark window.
    Dark,
    /// A light window.
    Light,
}

/// What the desktop portal's `color-scheme` means, including the value that
/// is a decision rather than a reading.
///
/// The specification defines three: 0 no preference, 1 prefer dark, 2 prefer
/// light. Zero is treated as light, because GNOME's Settings spells Light as
/// `default`, which the portal reports as 0 and never as 2; reading it as
/// dark would give every GNOME user who chose Light a dark window. It is also
/// what GTK does with no preference. A value the specification does not
/// define is light for the same reason.
pub fn scheme_of(color_scheme: u32) -> (s: Scheme)
    ensures
        s == (if color_scheme == 1 {
            Scheme::Dark
        } else {
            Scheme::Light
        }),
{
    match color_scheme {
        1 => Scheme::Dark,
        _ => Scheme::Light,
    }
}

/// A D-Bus value, as far as the portal's answer needs it: a number, a
/// variant holding another value, or something else.
pub enum Answer {
    /// An unsigned 32-bit number.
    Number(u32),
    /// A variant, holding another value.
    Boxed(Box<Answer>),
    /// Any other kind of value.
    Other,
}

/// The number `answer` holds, unwrapping at most `depth` values to reach it.
pub open spec fn number_within(answer: Answer, depth: nat) -> Option<u32>
    decreases depth,
{
    if depth == 0 {
        None
    } else {
        match answer {
            Answer::Number(n) => Some(n),
            Answer::Boxed(inner) => number_within(*inner, (depth - 1) as nat),
            Answer::Other => None,
        }
    }
}

/// The number inside whatever the portal sent.
///
/// The portal answers `Read` with a variant inside a variant, and `ReadOne`
/// with one, so rather than choose a method by portal version this unwraps
/// what arrived until a number falls out, four values deep at most. Anything
/// else is nothing learned.
pub fn number_inside(value: &Answer) -> (r: Option<u32>)
    ensures
        r == number_within(*value, 4),
{
    let mut here = value;
    let mut left: u32 = 4;
    while left > 0
        invariant
            left <= 4,
            number_within(*value, 4) == number_within(*here, left as nat),
        decreases left,
    {
        match here {
            Answer::Number(n) => {
                return Some(*n);
            },
            Answer::Boxed(inner) => {
                here = inner;
            },
            Answer::Other => {
                return None;
            },
        }
        left = left - 1;
    }
    None
}

} // verus!
