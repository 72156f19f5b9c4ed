//! The payload, as the card states it.

use vstd::prelude::*;

use crate::potext::{
    fill, filled, in_force_view, law_a_value_is_not_filled_into, lookup, pairs_view, plural_of,
    substituted, t, tn, translated, Catalog, CatalogText,
};
use crate::policy::{display_name_of, shown};
use crate::text::find;
use crate::size::{as_double, double_of, one_place, one_place_chars, scale_for, scale_of, tenths, tenths_of, unit_for, unit_name};
use crate::text::{decimal, decimal_chars, string_of};

verus! {

/// The payload, as the card states it.
pub struct Payload {
    /// The member `payload.file` names.
    pub name: String,
    /// Its length uncompressed, read from the central directory.
    pub size: u64,
    /// What the platform says would open it, where the platform will say.
    pub opens_with: Option<String>,
    /// Whether the container records the payload as an executable file.
    ///
    /// False where the container records no mode at all, so the card is
    /// silent rather than confident about a question nothing answered, and
    /// false on a platform where a mode bit is not what makes a file
    /// executable.
    pub executable: bool,
    /// Why this build cannot decode the payload, where it cannot.
    ///
    /// A fact about the build and not a verdict on the container: a
    /// conformant container can hold a payload out of reach.
    pub unreadable: Option<String>,
}

/// What the card says a payload of `n` bytes measures.
///
/// Under 1024 the count alone, in the form the count calls for. From 1024 the
/// count scaled by 1024 until under 1024, to one decimal place, in KiB up to
/// PiB, and the exact count after it: the scaling is done on the count as a
/// double holds it.
pub open spec fn size_text(in_force: Option<CatalogText>, n: u64) -> Seq<char> {
    if n < 1024 {
        filled(plural_of(in_force, "{n} byte"@, "{n} bytes"@, n), seq![("n"@, decimal(n as nat))])
    } else {
        let v = double_of(n as nat);
        let k = scale_of(v);
        filled(
            translated(in_force, "{size} {unit} ({n} bytes)"@),
            seq![
                ("size"@, one_place(tenths(v, k))),
                ("unit"@, unit_name(k)),
                ("n"@, decimal(n as nat)),
            ],
        )
    }
}

impl Payload {
    /// Whether this build can decode the payload.
    ///
    /// Not a promise that extraction will succeed: only that a decoder exists.
    /// It is enough to decide what to offer.
    pub fn can_be_decoded(&self) -> (r: bool)
        ensures
            r == self.unreadable.is_none(),
    {
        self.unreadable.is_none()
    }

    /// The size, stated plainly, in the language in force.
    ///
    /// The exact count stays beside a scaled one: a card that only said
    /// "1.2 MiB" would have rounded away the number somebody opened the
    /// container to read. The unit is a placeholder rather than part of the
    /// sentence, because KiB and MiB are the same in every language.
    pub fn size_line(&self, in_force: Option<&Catalog>) -> (r: String)
        ensures
            r@ == size_text(in_force_view(in_force), self.size),
    {
        let n = self.size;
        let count = string_of(&decimal_chars(n as u128));
        if n < 1024 {
            let values: Vec<(&str, &str)> = vec![("n", count.as_str())];
            assert(pairs_view(values@) =~= seq![("n"@, decimal(n as nat))]);
            return fill(tn(in_force, "{n} byte", "{n} bytes", n), values.as_slice());
        }
        let v = as_double(n);
        let k = scale_for(v);
        let size = string_of(&one_place_chars(tenths_of(v, k)));
        let values: Vec<(&str, &str)> = vec![
            ("size", size.as_str()),
            ("unit", unit_for(k)),
            ("n", count.as_str()),
        ];
        assert(pairs_view(values@) =~= seq![
            ("size"@, one_place(tenths(v as nat, k as nat))),
            ("unit"@, unit_name(k as nat)),
            ("n"@, decimal(n as nat)),
        ]);
        fill(t(in_force, "{size} {unit} ({n} bytes)"), values.as_slice())
    }
}

/// In English, a payload of 1024 bytes or more is stated as the scaled size,
/// its unit, and the exact count in bytes: somebody opened the container to
/// read the number, and the scaling does not round it away.
pub proof fn law_the_exact_count_survives_the_scaling(n: u64)
    requires
        n >= 1024,
    ensures
        size_text(None, n) == one_place(tenths(double_of(n as nat), scale_of(double_of(n as nat))))
            + " "@ + unit_name(scale_of(double_of(n as nat))) + " ("@ + decimal(n as nat)
            + " bytes)"@,
{
    reveal_strlit("{size} {unit} ({n} bytes)");
    reveal_strlit("size");
    reveal_strlit("unit");
    reveal_strlit("n");
    reveal_strlit(" ");
    reveal_strlit(" (");
    reveal_strlit(" bytes)");
    let v = double_of(n as nat);
    let k = scale_of(v);
    let size = one_place(tenths(v, k));
    let unit = unit_name(k);
    let count = decimal(n as nat);
    let vals = seq![("size"@, size), ("unit"@, unit), ("n"@, count)];
    let template = "{size} {unit} ({n} bytes)"@;
    let e = Seq::<char>::empty();
    let tail = " bytes)"@;
    let after_n = seq!['{', 'n', '}'] + tail;
    let after_unit = " ("@ + after_n;
    let after_size = " "@ + seq!['{', 'u', 'n', 'i', 't', '}'] + after_unit;
    assert(template =~= e + seq!['{'] + "size"@ + seq!['}'] + after_size);
    assert(after_size =~= " "@ + seq!['{'] + "unit"@ + seq!['}'] + after_unit);
    assert(after_unit =~= " ("@ + seq!['{'] + "n"@ + seq!['}'] + tail);
    assert(find(e, '{') is None);
    assert(find("size"@, '}') is None) by {
        reveal_with_fuel(crate::text::find_from, 5);
    }
    assert(find(" "@, '{') is None) by {
        reveal_with_fuel(crate::text::find_from, 2);
    }
    assert(find("unit"@, '}') is None) by {
        reveal_with_fuel(crate::text::find_from, 5);
    }
    assert(find(" ("@, '{') is None) by {
        reveal_with_fuel(crate::text::find_from, 3);
    }
    assert(find("n"@, '}') is None) by {
        reveal_with_fuel(crate::text::find_from, 2);
    }
    assert(find(tail, '{') is None) by {
        reveal_with_fuel(crate::text::find_from, 8);
    }
    law_a_value_is_not_filled_into(e, "size"@, after_size, vals);
    law_a_value_is_not_filled_into(" "@, "unit"@, after_unit, vals);
    law_a_value_is_not_filled_into(" ("@, "n"@, tail, vals);
    assert(filled(tail, vals) == tail);
    assert("unit"@ != "size"@) by {
        assert("unit"@[0] != "size"@[0]);
    }
    assert("n"@ != "size"@);
    assert("n"@ != "unit"@);
    assert(lookup(vals, "size"@) == Some(size));
    assert(vals.drop_first() =~= seq![("unit"@, unit), ("n"@, count)]);
    assert(lookup(vals, "unit"@) == Some(unit)) by {
        reveal_with_fuel(lookup, 2);
    }
    assert(vals.drop_first().drop_first() =~= seq![("n"@, count)]);
    assert(lookup(vals, "n"@) == Some(count)) by {
        reveal_with_fuel(lookup, 3);
    }
    assert(e + substituted(vals, "size"@) =~= size);
}

/// How a line of the card is set.
#[derive(Debug, Clone, Copy, PartialEq, Eq, Structural)]
pub enum Tone {
    /// The payload's name, in bold.
    Heading,
    /// An ordinary statement.
    Plain,
    /// Something this build cannot do, in the error colour.
    Refusal,
    /// Something to know before going on, in the warning colour.
    Caution,
}

/// One line of the card.
pub struct Line {
    /// How it is set.
    pub tone: Tone,
    /// What it says.
    pub text: String,
}

/// A line's setting and text.
pub open spec fn line_view(l: Line) -> (Tone, Seq<char>) {
    (l.tone, l.text@)
}

/// A line saying `template` in the language in force, with one value put in.
pub open spec fn said_with(in_force: Option<CatalogText>, template: Seq<char>, name: Seq<char>, value: Seq<char>) -> Seq<char> {
    filled(translated(in_force, template), seq![(name, value)])
}

/// What the card states about a payload, line by line: its name, shown
/// escaped as SPEC 3 requires of anything showing a member name; its size;
/// what would open it, where the platform said; why it cannot be opened here,
/// where it cannot; that it is an executable whose extracted copy will not
/// be; and that the container arrived from elsewhere, where it did.
pub open spec fn card_text(p: Payload, from_elsewhere: bool, in_force: Option<CatalogText>) -> Seq<(Tone, Seq<char>)> {
    seq![(Tone::Heading, shown(p.name@)), (Tone::Plain, size_text(in_force, p.size))]
        + opens_part(p, in_force) + refusal_part(p, in_force) + executable_part(p, in_force)
        + elsewhere_part(from_elsewhere, in_force)
}

/// The line naming what would open the payload, where the platform said.
pub open spec fn opens_part(p: Payload, in_force: Option<CatalogText>) -> Seq<(Tone, Seq<char>)> {
    match p.opens_with {
        Some(application) => seq![(Tone::Plain, said_with(in_force, "Opens with {application}"@, "application"@, application@))],
        None => Seq::empty(),
    }
}

/// The line saying why the payload cannot be opened here, where it cannot.
pub open spec fn refusal_part(p: Payload, in_force: Option<CatalogText>) -> Seq<(Tone, Seq<char>)> {
    match p.unreadable {
        Some(why) => seq![(Tone::Refusal, said_with(in_force, "Cannot be opened here: {reason}"@, "reason"@, why@))],
        None => Seq::empty(),
    }
}

/// The line saying the payload is an executable, where it is one.
pub open spec fn executable_part(p: Payload, in_force: Option<CatalogText>) -> Seq<(Tone, Seq<char>)> {
    if p.executable {
        seq![(Tone::Caution, translated(in_force, "The payload is an executable file; the extracted copy will not be executable."@))]
    } else {
        Seq::empty()
    }
}

/// The line saying the container arrived from elsewhere, where it did.
pub open spec fn elsewhere_part(from_elsewhere: bool, in_force: Option<CatalogText>) -> Seq<(Tone, Seq<char>)> {
    if from_elsewhere {
        seq![(Tone::Caution, translated(in_force, "This container arrived from elsewhere, and the payload will carry that."@))]
    } else {
        Seq::empty()
    }
}

/// A container that arrived from elsewhere says so, on one more line at the
/// end of the card, whatever the payload is: executable or not, openable
/// here or not, with or without an application named. Every other line is
/// the same either way.
pub proof fn law_the_card_says_where_the_container_came_from(p: Payload, c: Option<CatalogText>)
    ensures
        card_text(p, true, c) == card_text(p, false, c).push(
            (
                Tone::Caution,
                translated(c, "This container arrived from elsewhere, and the payload will carry that."@),
            ),
        ),
        card_text(p, true, c).last() == (
            Tone::Caution,
            translated(c, "This container arrived from elsewhere, and the payload will carry that."@),
        ),
{
    assert(card_text(p, true, c) =~= card_text(p, false, c).push(
        (
            Tone::Caution,
            translated(c, "This container arrived from elsewhere, and the payload will carry that."@),
        ),
    ));
}

/// The card is the name and the size, then one line for each thing there is
/// to say and none for what there is not: what opens the payload, why it
/// cannot be opened here, that it is an executable, and that the container
/// came from elsewhere.
pub proof fn law_the_card_has_a_line_for_each_thing_to_say(p: Payload, from_elsewhere: bool, c: Option<CatalogText>)
    ensures
        card_text(p, from_elsewhere, c).len() == 2 + (if p.opens_with is Some {
            1int
        } else {
            0
        }) + (if p.unreadable is Some {
            1int
        } else {
            0
        }) + (if p.executable {
            1int
        } else {
            0
        }) + (if from_elsewhere {
            1int
        } else {
            0
        }),
        card_text(p, from_elsewhere, c)[0] == (Tone::Heading, shown(p.name@)),
        card_text(p, from_elsewhere, c)[1] == (Tone::Plain, size_text(c, p.size)),
{
}

/// A line saying `template` with one value put in.
fn line_with(in_force: Option<&Catalog>, tone: Tone, template: &str, name: &str, value: &str) -> (l: Line)
    ensures
        l.tone == tone,
        l.text@ == said_with(in_force_view(in_force), template@, name@, value@),
{
    let values: Vec<(&str, &str)> = vec![(name, value)];
    assert(pairs_view(values@) =~= seq![(name@, value@)]);
    Line { tone, text: fill(t(in_force, template), values.as_slice()) }
}

/// What the card states about a payload, in the language in force, line by
/// line, each with how it is set. Drawing them, and the buttons under them,
/// is the window's.
pub fn card_lines(payload: &Payload, from_elsewhere: bool, in_force: Option<&Catalog>) -> (r: Vec<Line>)
    ensures
        r@.map_values(|l: Line| line_view(l)) == card_text(*payload, from_elsewhere, in_force_view(in_force)),
{
    let mut lines: Vec<Line> = Vec::new();
    lines.push(Line { tone: Tone::Heading, text: display_name_of(payload.name.as_str()) });
    lines.push(Line { tone: Tone::Plain, text: payload.size_line(in_force) });
    let ghost c = in_force_view(in_force);
    let ghost head = seq![(Tone::Heading, shown(payload.name@)), (Tone::Plain, size_text(c, payload.size))];
    assert(lines@.map_values(|l: Line| line_view(l)) =~= head);
    if let Some(application) = &payload.opens_with {
        lines.push(line_with(in_force, Tone::Plain, "Opens with {application}", "application", application.as_str()));
    }
    assert(lines@.map_values(|l: Line| line_view(l)) =~= head + opens_part(*payload, c));
    if let Some(why) = &payload.unreadable {
        lines.push(line_with(in_force, Tone::Refusal, "Cannot be opened here: {reason}", "reason", why.as_str()));
    }
    assert(lines@.map_values(|l: Line| line_view(l)) =~= head + opens_part(*payload, c) + refusal_part(*payload, c));
    if payload.executable {
        let text = t(in_force, "The payload is an executable file; the extracted copy will not be executable.");
        lines.push(Line { tone: Tone::Caution, text: text.to_owned() });
    }
    assert(lines@.map_values(|l: Line| line_view(l)) =~= head + opens_part(*payload, c) + refusal_part(*payload, c)
        + executable_part(*payload, c));
    if from_elsewhere {
        let text = t(in_force, "This container arrived from elsewhere, and the payload will carry that.");
        lines.push(Line { tone: Tone::Caution, text: text.to_owned() });
    }
    assert(lines@.map_values(|l: Line| line_view(l)) =~= card_text(*payload, from_elsewhere, c));
    lines
}

} // verus!
