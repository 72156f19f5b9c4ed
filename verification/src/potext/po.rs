//! Reading a `.po` file's text into a catalogue.
//!
//! **Nothing here fails.** A catalogue arrives compiled into the binary, so
//! there is nobody to report a syntax error to: what cannot be read is left
//! out, which shows the English, exactly as a missing translation does.

use vstd::prelude::*;

use super::{context_key, file_under, Catalog, CatalogText, Message, MessageText};
use crate::text::{
    append_chars, chars_of, find, find_char, is_ws, is_whitespace, lemma_find_from,
    lemma_find_skip, next_line, rfind, rfind_char, slice, starts_with, starts_with_at,
    string_of, trim, trim_bounds, without_cr,
};

verus! {

/// Which field a continuation line belongs to.
#[derive(Clone, Copy)]
pub enum Field {
    /// None: a continuation here is dropped.
    Unopened,
    /// The `msgctxt`.
    Context,
    /// The `msgid`.
    Id,
    /// The `msgid_plural`.
    IdPlural,
    /// The `msgstr` with this index.
    Str(usize),
}

/// One entry as it is read line by line.
pub struct EntryText {
    /// Marked `#, fuzzy`.
    pub fuzzy: bool,
    /// Marked `#~`.
    pub obsolete: bool,
    /// The `msgctxt`, where there was one.
    pub context: Option<Seq<char>>,
    /// The `msgid`, where there was one.
    pub id: Option<Seq<char>>,
    /// The `msgid_plural`, where there was one.
    pub id_plural: Option<Seq<char>>,
    /// Each `msgstr`, with its index, in the order written.
    pub strings: Seq<(usize, Seq<char>)>,
}

/// The entry nothing has been read into yet.
pub open spec fn fresh_entry() -> EntryText {
    EntryText {
        fuzzy: false,
        obsolete: false,
        context: None,
        id: None,
        id_plural: None,
        strings: Seq::empty(),
    }
}

/// A text escape as `xgettext` writes it, decoded; anything else keeps its
/// backslash.
pub open spec fn escape_of(c: char) -> Seq<char> {
    if c == 'n' {
        seq!['\n']
    } else if c == 't' {
        seq!['\t']
    } else if c == 'r' {
        seq!['\r']
    } else if c == '"' {
        seq!['"']
    } else if c == '\\' {
        seq!['\\']
    } else {
        seq!['\\', c]
    }
}

/// A quoted text with its escapes read. A trailing backslash stands for itself.
pub open spec fn unescaped(s: Seq<char>) -> Seq<char>
    decreases s.len(),
{
    if s.len() == 0 {
        s
    } else if s[0] != '\\' {
        seq![s[0]] + unescaped(s.drop_first())
    } else if s.len() == 1 {
        seq!['\\']
    } else {
        escape_of(s[1]) + unescaped(s.skip(2))
    }
}

/// The text inside a line's first and last quote, with its escapes read;
/// nothing where there are not two quotes.
pub open spec fn unquoted(line: Seq<char>) -> Seq<char> {
    match find(line, '"') {
        Some(first) => match rfind(line, '"') {
            Some(last) => if last > first {
                unescaped(line.subrange(first + 1, last))
            } else {
                Seq::empty()
            },
            None => Seq::empty(),
        },
        None => Seq::empty(),
    }
}

/// Whether one of the comma-separated flags, trimmed, is `fuzzy`.
pub open spec fn marks_fuzzy(flags: Seq<char>) -> bool
    decreases flags.len(),
{
    match find(flags, ',') {
        Some(i) => {
            proof {
                lemma_find_from(flags, ',', 0);
            }
            trim(flags.take(i)) == "fuzzy"@ || marks_fuzzy(flags.skip(i + 1))
        },
        None => trim(flags) == "fuzzy"@,
    }
}

/// Whether every character is an ASCII digit.
pub open spec fn all_digits(d: Seq<char>) -> bool {
    forall|i: int| 0 <= i < d.len() ==> '0' <= #[trigger] d[i] && d[i] <= '9'
}

/// The number a run of decimal digits spells.
pub open spec fn digits_value(d: Seq<char>) -> nat
    decreases d.len(),
{
    if d.len() == 0 {
        0
    } else {
        digits_value(d.drop_last()) * 10 + ((d.last() as int) - ('0' as int)) as nat
    }
}

/// A `msgstr[...]` index as `str::parse::<usize>` reads it, with zero where it
/// will not read: an optional `+`, then at least one digit, and nothing past
/// what a `usize` holds.
pub open spec fn index_of(s: Seq<char>) -> usize {
    let d = if s.len() > 0 && s[0] == '+' {
        s.drop_first()
    } else {
        s
    };
    if d.len() > 0 && all_digits(d) && digits_value(d) <= usize::MAX {
        digits_value(d) as usize
    } else {
        0
    }
}

/// Append to a field that has already been opened.
pub open spec fn pushed(field: Option<Seq<char>>, text: Seq<char>) -> Option<Seq<char>> {
    match field {
        Some(existing) => Some(existing + text),
        None => None,
    }
}

/// The strings with `text` appended to the first one carrying `index`.
pub open spec fn appended_to(strings: Seq<(usize, Seq<char>)>, index: usize, text: Seq<char>) -> Seq<(usize, Seq<char>)>
    decreases strings.len(),
{
    if strings.len() == 0 {
        strings
    } else if strings[0].0 == index {
        seq![(index, strings[0].1 + text)] + strings.drop_first()
    } else {
        seq![strings[0]] + appended_to(strings.drop_first(), index, text)
    }
}

/// What the reading of one line does to the entry being read and to which
/// field a continuation goes to. A blank line is handled by [`step`] itself.
pub open spec fn read_line(e: EntryText, field: Field, line: Seq<char>) -> (EntryText, Field) {
    if line[0] == '#' {
        let rest = line.drop_first();
        if rest.len() > 0 && rest[0] == '~' {
            (EntryText { obsolete: true, ..e }, field)
        } else if rest.len() > 0 && rest[0] == ',' {
            (EntryText { fuzzy: e.fuzzy || marks_fuzzy(rest.drop_first()), ..e }, field)
        } else {
            (e, field)
        }
    } else if line[0] == '"' {
        let text = unquoted(line);
        match field {
            Field::Context => (EntryText { context: pushed(e.context, text), ..e }, field),
            Field::Id => (EntryText { id: pushed(e.id, text), ..e }, field),
            Field::IdPlural => (EntryText { id_plural: pushed(e.id_plural, text), ..e }, field),
            Field::Str(index) => (
                EntryText { strings: appended_to(e.strings, index, text), ..e },
                field,
            ),
            Field::Unopened => (e, field),
        }
    } else if starts_with(line, "msgctxt "@) {
        (
            EntryText { context: Some(unquoted(line.skip("msgctxt "@.len() as int))), ..e },
            Field::Context,
        )
    } else if starts_with(line, "msgid_plural "@) {
        (
            EntryText { id_plural: Some(unquoted(line.skip("msgid_plural "@.len() as int))), ..e },
            Field::IdPlural,
        )
    } else if starts_with(line, "msgid "@) {
        (EntryText { id: Some(unquoted(line.skip("msgid "@.len() as int))), ..e }, Field::Id)
    } else if starts_with(line, "msgstr["@) {
        let rest = line.skip("msgstr["@.len() as int);
        let (index, tail) = match find(rest, ']') {
            Some(k) => (index_of(trim(rest.take(k))), rest.skip(k + 1)),
            None => (0usize, rest),
        };
        (
            EntryText { strings: e.strings.push((index, unquoted(tail))), ..e },
            Field::Str(index),
        )
    } else if starts_with(line, "msgstr "@) {
        (
            EntryText {
                strings: e.strings.push((0usize, unquoted(line.skip("msgstr "@.len() as int)))),
                ..e
            },
            Field::Str(0),
        )
    } else {
        (e, field)
    }
}

/// Where the reading stands between lines.
pub struct ReadState {
    /// What has been filed.
    pub catalog: CatalogText,
    /// The entry being read.
    pub entry: EntryText,
    /// Where a continuation goes.
    pub field: Field,
}

/// One line of the file, taken in.
pub open spec fn step(st: ReadState, raw: Seq<char>) -> ReadState {
    let line = trim(raw);
    if line.len() == 0 {
        ReadState { catalog: taken(st.catalog, st.entry), entry: fresh_entry(), field: Field::Unopened }
    } else {
        let (entry, field) = read_line(st.entry, st.field, line);
        ReadState { catalog: st.catalog, entry, field }
    }
}

/// Every line of `s`, taken in order, from `st`.
pub open spec fn read_all(st: ReadState, s: Seq<char>) -> ReadState
    decreases s.len(),
{
    if s.len() == 0 {
        st
    } else {
        match find(s, '\n') {
            Some(i) => {
                proof {
                    lemma_find_from(s, '\n', 0);
                }
                read_all(step(st, without_cr(s.take(i))), s.skip(i + 1))
            },
            None => step(st, s),
        }
    }
}

/// The catalogue nothing has been filed in.
pub open spec fn empty_catalog() -> CatalogText {
    CatalogText { plain: Map::empty(), keyed: Map::empty(), two_forms: false }
}

/// The catalogue a `.po` file's text reads as.
///
/// This follows the reader line by line, through the same states
/// (`read_line`, `step`, `read_all`, `taken`): a `.po` file is defined by
/// how it is read, and no shorter statement of it exists. What a catalogue
/// promises beyond that is stated apart and proved of this definition:
/// [`law_a_catalogue_serves_only_translations`] and
/// [`law_plural_forms_follow_their_index`].
pub open spec fn parsed(text: Seq<char>) -> CatalogText {
    let end = read_all(
        ReadState { catalog: empty_catalog(), entry: fresh_entry(), field: Field::Unopened },
        text,
    );
    taken(end.catalog, end.entry)
}

/// A string inserted into strings already in index order, after every one
/// whose index it does not precede, so that equal indexes keep the order
/// they were written in.
pub open spec fn insert_in_order(x: (usize, Seq<char>), s: Seq<(usize, Seq<char>)>) -> Seq<(usize, Seq<char>)>
    decreases s.len(),
{
    if s.len() == 0 {
        seq![x]
    } else if x.0 < s[0].0 {
        seq![x] + s
    } else {
        seq![s[0]] + insert_in_order(x, s.drop_first())
    }
}

/// The strings in index order, equal indexes in the order they were written:
/// what a stable sort by index gives.
pub open spec fn in_index_order(s: Seq<(usize, Seq<char>)>) -> Seq<(usize, Seq<char>)>
    decreases s.len(),
{
    if s.len() == 0 {
        s
    } else {
        insert_in_order(s.last(), in_index_order(s.drop_last()))
    }
}

/// Whether a header line declares the two-form rule, whitespace disregarded.
pub open spec fn declares_two_forms(line: Seq<char>) -> bool {
    let l = trim(line);
    starts_with(l, "Plural-Forms:"@) && {
        let tight = without_ws(l.skip("Plural-Forms:"@.len() as int));
        starts_with(tight, "nplurals=2;plural=(n!=1)"@) || starts_with(
            tight,
            "nplurals=2;plural=n!=1"@,
        )
    }
}

/// The text with every whitespace character taken out.
pub open spec fn without_ws(s: Seq<char>) -> Seq<char>
    decreases s.len(),
{
    if s.len() == 0 {
        s
    } else if is_ws(s.last()) {
        without_ws(s.drop_last())
    } else {
        without_ws(s.drop_last()).push(s.last())
    }
}

/// Whether any line of a header declares the two-form rule.
pub open spec fn two_form_header(s: Seq<char>) -> bool
    decreases s.len(),
{
    if s.len() == 0 {
        false
    } else {
        match find(s, '\n') {
            Some(i) => {
                proof {
                    lemma_find_from(s, '\n', 0);
                }
                declares_two_forms(without_cr(s.take(i))) || two_form_header(s.skip(i + 1))
            },
            None => declares_two_forms(s),
        }
    }
}

/// Whether any string of an entry is empty.
pub open spec fn has_empty(strings: Seq<(usize, Seq<char>)>) -> bool {
    exists|i: int| 0 <= i < strings.len() && #[trigger] strings[i].1.len() == 0
}

/// Where a finished entry is filed, and under what key.
pub open spec fn filed(c: CatalogText, context: Option<Seq<char>>, id: Seq<char>, m: MessageText) -> CatalogText {
    match context {
        Some(ctx) => CatalogText { keyed: c.keyed.insert(context_key(ctx, id), m), ..c },
        None => CatalogText { plain: c.plain.insert(id, m), ..c },
    }
}

/// File one finished entry, or leave it out.
///
/// No id, or retired by `msgmerge`: left out. The header, the entry with an
/// empty id and no context, declares the plural rule and is not a message,
/// and it is read before the fuzzy check, because a generated header is marked
/// fuzzy as a matter of course. A fuzzy entry is a guess and is left out, and
/// so is one with any empty string, which is what untranslated looks like. A
/// plural entry needs two forms; a plain one takes the first string in index
/// order.
pub open spec fn taken(c: CatalogText, e: EntryText) -> CatalogText {
    match e.id {
        None => c,
        Some(id) => if e.obsolete {
            c
        } else {
            let strings = in_index_order(e.strings);
            if id.len() == 0 && e.context is None {
                if strings.len() > 0 {
                    CatalogText { two_forms: two_form_header(strings[0].1), ..c }
                } else {
                    c
                }
            } else if e.fuzzy {
                c
            } else if has_empty(strings) {
                c
            } else if e.id_plural is Some {
                if strings.len() < 2 {
                    c
                } else {
                    filed(
                        c,
                        e.context,
                        id,
                        MessageText::Plural(strings.map_values(|p: (usize, Seq<char>)| p.1)),
                    )
                }
            } else if strings.len() == 0 {
                c
            } else {
                filed(c, e.context, id, MessageText::Single(strings[0].1))
            }
        },
    }
}

/// A message that can be served: text in every form, and at least the two
/// forms a plural needs.
pub open spec fn servable(m: MessageText) -> bool {
    match m {
        MessageText::Single(s) => s.len() > 0,
        MessageText::Plural(forms) => forms.len() >= 2 && forall|i: int|
            0 <= i < forms.len() ==> #[trigger] forms[i].len() > 0,
    }
}

/// A catalogue every message of which can be served, with no message filed
/// under the empty id: that entry is the header.
pub open spec fn sound(c: CatalogText) -> bool {
    &&& forall|k: Seq<char>| #[trigger] c.plain.contains_key(k) ==> k.len() > 0 && servable(c.plain[k])
    &&& forall|k: Seq<char>| #[trigger] c.keyed.contains_key(k) ==> servable(c.keyed[k])
}

proof fn lemma_in_order_keeps(s: Seq<(usize, Seq<char>)>)
    ensures
        in_index_order(s).len() == s.len(),
        forall|i: int| 0 <= i < in_index_order(s).len() ==> #[trigger] s.contains(in_index_order(s)[i]),
    decreases s.len(),
{
    if s.len() > 0 {
        lemma_in_order_keeps(s.drop_last());
        lemma_insert_keeps(s.last(), in_index_order(s.drop_last()));
        let r = in_index_order(s);
        assert forall|i: int| 0 <= i < r.len() implies #[trigger] s.contains(r[i]) by {
            let x = r[i];
            if x == s.last() {
                assert(s[s.len() - 1] == x);
            } else {
                let before = in_index_order(s.drop_last());
                let j = choose|j: int| 0 <= j < before.len() && before[j] == x;
                assert(s.drop_last().contains(x));
                let k = choose|k: int| 0 <= k < s.drop_last().len() && s.drop_last()[k] == x;
                assert(s[k] == x);
            }
        }
    }
}

proof fn lemma_insert_keeps(x: (usize, Seq<char>), s: Seq<(usize, Seq<char>)>)
    ensures
        insert_in_order(x, s).len() == s.len() + 1,
        forall|i: int| 0 <= i < insert_in_order(x, s).len() ==> #[trigger] insert_in_order(x, s)[i]
            == x || s.contains(insert_in_order(x, s)[i]),
    decreases s.len(),
{
    if s.len() > 0 && x.0 >= s[0].0 {
        lemma_insert_keeps(x, s.drop_first());
        let r = insert_in_order(x, s);
        assert forall|i: int| 0 <= i < r.len() implies #[trigger] r[i] == x || s.contains(r[i]) by {
            if i == 0 {
                assert(s[0] == r[0]);
            } else {
                let rest = insert_in_order(x, s.drop_first());
                assert(r[i] == rest[i - 1]);
                if rest[i - 1] != x {
                    let k = choose|k: int| 0 <= k < s.drop_first().len() && s.drop_first()[k] == rest[i - 1];
                    assert(s[k + 1] == r[i]);
                }
            }
        }
    } else if s.len() > 0 {
        let r = insert_in_order(x, s);
        assert forall|i: int| 0 <= i < r.len() implies #[trigger] r[i] == x || s.contains(r[i]) by {
            if i > 0 {
                assert(r[i] == s[i - 1]);
            }
        }
    }
}

/// Filing a finished entry keeps a catalogue sound.
proof fn lemma_taken_sound(c: CatalogText, e: EntryText)
    requires
        sound(c),
    ensures
        sound(taken(c, e)),
{
    if let Some(id) = e.id {
        if !e.obsolete {
            let strings = in_index_order(e.strings);
            if !(id.len() == 0 && e.context is None) && !e.fuzzy && !has_empty(strings) {
                lemma_in_order_keeps(e.strings);
                assert forall|i: int| 0 <= i < strings.len() implies #[trigger] strings[i].1.len() > 0 by {
                    if strings[i].1.len() == 0 {
                        assert(has_empty(strings));
                    }
                }
                let m = if e.id_plural is Some {
                    MessageText::Plural(strings.map_values(|p: (usize, Seq<char>)| p.1))
                } else {
                    MessageText::Single(strings[0].1)
                };
                if e.id_plural is Some && strings.len() >= 2 || e.id_plural is None && strings.len() > 0 {
                    assert(servable(m));
                    let d = filed(c, e.context, id, m);
                    assert(d == taken(c, e));
                    match e.context {
                        Some(ctx) => {
                            assert forall|k: Seq<char>| #[trigger] d.keyed.contains_key(k) implies servable(d.keyed[k]) by {
                                if k != context_key(ctx, id) {
                                    assert(c.keyed.contains_key(k));
                                }
                            }
                        },
                        None => {
                            assert(id.len() > 0);
                            assert forall|k: Seq<char>| #[trigger] d.plain.contains_key(k) implies k.len() > 0 && servable(d.plain[k]) by {
                                if k != id {
                                    assert(c.plain.contains_key(k));
                                }
                            }
                        },
                    }
                }
            }
        }
    }
}

/// Reading lines from a sound catalogue leaves one.
proof fn lemma_read_all_sound(st: ReadState, s: Seq<char>)
    requires
        sound(st.catalog),
    ensures
        sound(read_all(st, s).catalog),
    decreases s.len(),
{
    if s.len() > 0 {
        match find(s, '\n') {
            Some(i) => {
                lemma_find_from(s, '\n', 0);
                let line = without_cr(s.take(i));
                if trim(line).len() == 0 {
                    lemma_taken_sound(st.catalog, st.entry);
                }
                lemma_read_all_sound(step(st, line), s.skip(i + 1));
            },
            None => {
                if trim(s).len() == 0 {
                    lemma_taken_sound(st.catalog, st.entry);
                }
            },
        }
    }
}

/// Whatever a `.po` file holds, every message its catalogue serves has text:
/// an untranslated entry, a fuzzy one, an obsolete one and a plural with too
/// few forms are left out rather than filed, and the header is never a
/// message. So a lookup answers with a translation that says something, or
/// with the English.
pub proof fn law_a_catalogue_serves_only_translations(text: Seq<char>)
    ensures
        sound(parsed(text)),
{
    let start = ReadState { catalog: empty_catalog(), entry: fresh_entry(), field: Field::Unopened };
    lemma_read_all_sound(start, text);
    let end = read_all(start, text);
    lemma_taken_sound(end.catalog, end.entry);
}

/// Whether strings are in index order: no index greater than one after it.
pub open spec fn by_index(s: Seq<(usize, Seq<char>)>) -> bool {
    forall|i: int, j: int| 0 <= i <= j < s.len() ==> #[trigger] s[i].0 <= #[trigger] s[j].0
}

/// Inserting in order into strings in index order keeps them so, and puts
/// the new string at a place between those whose index it does not precede
/// and those whose index it precedes.
proof fn lemma_insert_by_index(x: (usize, Seq<char>), s: Seq<(usize, Seq<char>)>) -> (p: int)
    requires
        by_index(s),
    ensures
        0 <= p <= s.len(),
        insert_in_order(x, s) == s.insert(p, x),
        forall|q: int| 0 <= q < p ==> #[trigger] s[q].0 <= x.0,
        forall|q: int| p <= q < s.len() ==> x.0 < #[trigger] s[q].0,
        by_index(insert_in_order(x, s)),
    decreases s.len(),
{
    let p: int;
    if s.len() == 0 {
        assert(s.insert(0, x) =~= seq![x]);
        p = 0;
    } else if x.0 < s[0].0 {
        assert(s.insert(0, x) =~= seq![x] + s);
        p = 0;
    } else {
        let rest = s.drop_first();
        assert(by_index(rest)) by {
            assert forall|i: int, j: int| 0 <= i <= j < rest.len() implies #[trigger] rest[i].0 <= #[trigger] rest[j].0 by {
                assert(rest[i] == s[i + 1] && rest[j] == s[j + 1]);
                assert(s[i + 1].0 <= s[j + 1].0);
            }
        }
        let p1 = lemma_insert_by_index(x, rest);
        assert(seq![s[0]] + rest.insert(p1, x) =~= s.insert(p1 + 1, x));
        assert forall|q: int| 0 <= q < p1 + 1 implies #[trigger] s[q].0 <= x.0 by {
            if q > 0 {
                assert(rest[q - 1] == s[q]);
            }
        }
        assert forall|q: int| p1 + 1 <= q < s.len() implies x.0 < #[trigger] s[q].0 by {
            assert(rest[q - 1] == s[q]);
        }
        p = p1 + 1;
    }
    let r = s.insert(p, x);
    assert forall|i: int, j: int| 0 <= i <= j < r.len() implies #[trigger] r[i].0 <= #[trigger] r[j].0 by {
        if i < p && j < p {
            assert(s[i].0 <= s[j].0);
        } else if i < p && j == p {
            assert(s[i].0 <= x.0);
        } else if i < p {
            assert(r[j] == s[j - 1]);
            assert(s[i].0 <= s[j - 1].0);
        } else if i == p && j > p {
            assert(r[j] == s[j - 1]);
            assert(x.0 < s[j - 1].0);
        } else if i > p {
            assert(r[i] == s[i - 1] && r[j] == s[j - 1]);
            assert(s[i - 1].0 <= s[j - 1].0);
        }
    }
    p
}

/// The strings in index order are in index order, and are the strings there
/// were, each as often as before.
proof fn lemma_in_index_order(s: Seq<(usize, Seq<char>)>)
    ensures
        by_index(in_index_order(s)),
        in_index_order(s).to_multiset() == s.to_multiset(),
    decreases s.len(),
{
    broadcast use vstd::seq_lib::group_to_multiset_ensures;

    if s.len() > 0 {
        let head = s.drop_last();
        lemma_in_index_order(head);
        let sorted = in_index_order(head);
        let p = lemma_insert_by_index(s.last(), sorted);
        assert(sorted.insert(p, s.last()).to_multiset() == sorted.to_multiset().insert(s.last()));
        assert(head.push(s.last()) =~= s);
        assert(head.push(s.last()).to_multiset() == head.to_multiset().insert(s.last()));
    }
}

/// A plural entry's forms are served in the order of their `msgstr[n]`
/// indexes, whatever order the file wrote them in: the strings taken in
/// index order are the entry's strings, each as often as it was written,
/// with no index greater than one that comes after it; and a plural entry
/// that is filed is filed with its forms in that order.
pub proof fn law_plural_forms_follow_their_index(c: CatalogText, e: EntryText)
    ensures
        by_index(in_index_order(e.strings)),
        in_index_order(e.strings).to_multiset() == e.strings.to_multiset(),
        ({
            let strings = in_index_order(e.strings);
            let forms = strings.map_values(|p: (usize, Seq<char>)| p.1);
            let m = MessageText::Plural(forms);
            match (e.id, e.context) {
                (Some(id), None) => e.id_plural is Some && id.len() > 0 && !e.obsolete && !e.fuzzy
                    && !has_empty(strings) && strings.len() >= 2 ==> taken(c, e).plain == c.plain.insert(id, m),
                (Some(id), Some(ctx)) => e.id_plural is Some && !e.obsolete && !e.fuzzy
                    && !has_empty(strings) && strings.len() >= 2 ==> taken(c, e).keyed == c.keyed.insert(
                    context_key(ctx, id),
                    m,
                ),
                _ => true,
            }
        }),
{
    lemma_in_index_order(e.strings);
}

/// Appending to the strings changes only the first one carrying the index:
/// its text gains the appended text, and every other string, and every index,
/// stays as it was.
proof fn lemma_appended_to_first(strings: Seq<(usize, Seq<char>)>, index: usize, text: Seq<char>)
    ensures
        appended_to(strings, index, text).len() == strings.len(),
        forall|j: int| 0 <= j < strings.len() ==> (#[trigger] appended_to(strings, index, text)[j]).0
            == strings[j].0,
        forall|j: int|
            0 <= j < strings.len() ==> #[trigger] appended_to(strings, index, text)[j] == if strings[j].0
                == index && (forall|i: int| 0 <= i < j ==> strings[i].0 != index) {
                (index, strings[j].1 + text)
            } else {
                strings[j]
            },
    decreases strings.len(),
{
    if strings.len() > 0 {
        let r = appended_to(strings, index, text);
        if strings[0].0 != index {
            let rest = strings.drop_first();
            lemma_appended_to_first(rest, index, text);
            assert forall|j: int| 0 <= j < strings.len() implies #[trigger] r[j] == if strings[j].0 == index
                && (forall|i: int| 0 <= i < j ==> strings[i].0 != index) {
                (index, strings[j].1 + text)
            } else {
                strings[j]
            } by {
                if j > 0 {
                    assert(r[j] == appended_to(rest, index, text)[j - 1]);
                    assert(rest[j - 1] == strings[j]);
                    if strings[j].0 == index {
                        if forall|i: int| 0 <= i < j - 1 ==> rest[i].0 != index {
                            assert forall|i: int| 0 <= i < j implies strings[i].0 != index by {
                                if i > 0 {
                                    assert(rest[i - 1] == strings[i]);
                                }
                            }
                        } else {
                            let i = choose|i: int| 0 <= i < j - 1 && rest[i].0 == index;
                            assert(strings[i + 1].0 == index);
                        }
                    }
                }
            }
        } else {
            assert forall|j: int| 0 < j < strings.len() implies #[trigger] r[j] == strings[j] by {
                assert(r[j] == strings.drop_first()[j - 1]);
            }
        }
    }
}

/// A quoted line continues the field it follows, and after `msgstr[k]` that
/// is the string with index `k`, for every `k`: the first string carrying
/// that index gains the line's text, and nothing else in the entry changes.
/// Where no string carries the index, the line is dropped.
pub proof fn law_a_continuation_extends_the_string_it_follows(e: EntryText, k: usize, line: Seq<char>)
    requires
        line.len() > 0,
        line[0] == '"',
    ensures
        ({
            let (r, f) = read_line(e, Field::Str(k), line);
            &&& f == Field::Str(k)
            &&& r.id == e.id && r.id_plural == e.id_plural && r.context == e.context
            &&& r.fuzzy == e.fuzzy && r.obsolete == e.obsolete
            &&& r.strings.len() == e.strings.len()
            &&& forall|j: int|
                0 <= j < e.strings.len() ==> #[trigger] r.strings[j] == if e.strings[j].0 == k && (forall|
                    i: int,
                | 0 <= i < j ==> e.strings[i].0 != k) {
                    (k, e.strings[j].1 + unquoted(line))
                } else {
                    e.strings[j]
                }
        }),
{
    lemma_appended_to_first(e.strings, k, unquoted(line));
}

/// `msgstr[k] "a"` followed by a quoted line `"b"` gives the entry one more
/// string, with index `k` and the text `a` then `b`, where no string before
/// carried that index: a string wrapped onto continuation lines, as
/// `msgmerge` writes long ones, is read whole whatever its index.
pub proof fn law_a_wrapped_string_is_read_whole(e: EntryText, field: Field, open: Seq<char>, more: Seq<char>)
    requires
        starts_with(open, "msgstr["@),
        more.len() > 0,
        more[0] == '"',
        forall|j: int|
            0 <= j < e.strings.len() ==> #[trigger] e.strings[j].0 != read_line(e, field, open).0.strings.last().0,
    ensures
        ({
            let (e1, f1) = read_line(e, field, open);
            let k = e1.strings.last().0;
            &&& e1.strings.len() == e.strings.len() + 1
            &&& f1 == Field::Str(k)
            &&& read_line(e1, f1, more).0.strings == e.strings.push(
                (k, e1.strings.last().1 + unquoted(more)),
            )
        }),
{
    reveal_strlit("msgstr[");
    reveal_strlit("msgctxt ");
    reveal_strlit("msgid_plural ");
    reveal_strlit("msgid ");
    assert(open.take(7) == "msgstr["@);
    assert(open[0] == open.take(7)[0] && open[3] == open.take(7)[3]);
    assert(open[0] == 'm' && open[3] == 's');
    if starts_with(open, "msgctxt "@) {
        assert(open.take(8)[3] == open[3]);
    }
    if starts_with(open, "msgid_plural "@) {
        assert(open.take(13)[3] == open[3]);
    }
    if starts_with(open, "msgid "@) {
        assert(open.take(6)[3] == open[3]);
    }
    let (e1, f1) = read_line(e, field, open);
    let k = e1.strings.last().0;
    let a = e1.strings.last().1;
    assert(e1.strings == e.strings.push((k, a)));
    lemma_appended_to_first(e1.strings, k, unquoted(more));
    assert(read_line(e1, f1, more).0.strings =~= e.strings.push((k, a + unquoted(more))));
}

/// The escapes of `v[lo..hi]` read.
#[verifier::rlimit(40)]
fn unescape(v: &[char], lo: usize, hi: usize) -> (r: Vec<char>)
    requires
        lo <= hi <= v.len(),
    ensures
        r@ == unescaped(v@.subrange(lo as int, hi as int)),
{
    let ghost whole = v@.subrange(lo as int, hi as int);
    let mut out: Vec<char> = Vec::new();
    let mut i: usize = lo;
    while i < hi
        invariant
            lo <= i <= hi <= v.len(),
            whole == v@.subrange(lo as int, hi as int),
            out@ + unescaped(v@.subrange(i as int, hi as int)) == unescaped(whole),
        decreases hi - i,
    {
        let ghost rest = v@.subrange(i as int, hi as int);
        let c = v[i];
        if c != '\\' {
            assert(rest.drop_first() =~= v@.subrange(i + 1, hi as int));
            assert(unescaped(rest) == seq![c] + unescaped(rest.drop_first()));
            out.push(c);
            assert(out@ + unescaped(v@.subrange(i + 1, hi as int)) =~= unescaped(whole));
            i = i + 1;
        } else if i + 1 == hi {
            assert(unescaped(rest) == seq!['\\']);
            out.push('\\');
            assert(v@.subrange(hi as int, hi as int) =~= Seq::<char>::empty());
            assert(out@ + unescaped(v@.subrange(hi as int, hi as int)) =~= unescaped(whole));
            i = hi;
        } else {
            let n = v[i + 1];
            assert(rest.skip(2) =~= v@.subrange(i + 2, hi as int));
            assert(unescaped(rest) == escape_of(n) + unescaped(rest.skip(2)));
            let ghost before = out@;
            if n == 'n' {
                out.push('\n');
            } else if n == 't' {
                out.push('\t');
            } else if n == 'r' {
                out.push('\r');
            } else if n == '"' {
                out.push('"');
            } else if n == '\\' {
                out.push('\\');
            } else {
                out.push('\\');
                out.push(n);
            }
            assert(out@ =~= before + escape_of(n));
            assert(out@ + unescaped(v@.subrange(i + 2, hi as int)) =~= unescaped(whole));
            i = i + 2;
        }
    }
    assert(v@.subrange(i as int, hi as int) =~= Seq::<char>::empty());
    assert(out@ =~= unescaped(whole));
    out
}

/// The text inside the quotes of `v[lo..hi]`, escapes read.
fn unquote_chars(v: &[char], lo: usize, hi: usize) -> (r: Vec<char>)
    requires
        lo <= hi <= v.len(),
    ensures
        r@ == unquoted(v@.subrange(lo as int, hi as int)),
{
    let line = slice(v, lo, hi);
    proof {
        crate::text::lemma_find_from(line@, '"', 0);
        crate::text::lemma_rfind_before(line@, '"', line@.len() as int);
    }
    match (find_char(&line, '"', 0), rfind_char(&line, '"', line.len())) {
        (Some(first), Some(last)) => {
            if last > first {
                unescape(&line, first + 1, last)
            } else {
                Vec::new()
            }
        },
        _ => Vec::new(),
    }
}

/// The text inside a `.po` line's quotes, with its escapes read.
///
/// Only the escapes `xgettext` writes are decoded. Anything else keeps its
/// backslash, so an unrecognised sequence reaches the window looking wrong
/// rather than silently losing a character.
pub fn unquote(line: &str) -> (r: String)
    ensures
        r@ == unquoted(line@),
{
    let v = chars_of(line);
    let inside = unquote_chars(&v, 0, v.len());
    assert(v@.subrange(0, v@.len() as int) =~= v@);
    string_of(&inside)
}

/// Whether one of the comma-separated flags in `v[lo..hi]` is `fuzzy`.
fn fuzzy_among(v: &[char], lo: usize, hi: usize) -> (r: bool)
    requires
        lo <= hi <= v.len(),
    ensures
        r == marks_fuzzy(v@.subrange(lo as int, hi as int)),
    decreases hi - lo,
{
    let word = chars_of("fuzzy");
    let ghost s = v@.subrange(lo as int, hi as int);
    let seg = slice(v, lo, hi);
    proof {
        lemma_find_from(s, ',', 0);
    }
    match find_char(&seg, ',', 0) {
        Some(i) => {
            let (a, b) = trim_bounds(&seg, 0, i);
            let piece = slice(&seg, a, b);
            assert(s.take(i as int) =~= seg@.subrange(0, i as int));
            let here = crate::text::same(&piece, &word);
            if here {
                true
            } else {
                assert(s.skip(i + 1) =~= v@.subrange(lo + i + 1, hi as int));
                fuzzy_among(v, lo + i + 1, hi)
            }
        },
        None => {
            let (a, b) = trim_bounds(&seg, 0, seg.len());
            let piece = slice(&seg, a, b);
            assert(seg@.subrange(0, seg@.len() as int) =~= s);
            crate::text::same(&piece, &word)
        },
    }
}

/// Values up to a longer prefix of digits never shrink.
proof fn lemma_digits_grow(d: Seq<char>, k: int)
    requires
        0 <= k <= d.len(),
        all_digits(d),
    ensures
        digits_value(d.take(k)) <= digits_value(d),
    decreases d.len() - k,
{
    if k < d.len() {
        lemma_digits_grow(d, k + 1);
        assert(d.take(k + 1).drop_last() =~= d.take(k));
        assert(d.take(k + 1).last() == d[k]);
        assert('0' <= d[k]);
    } else {
        assert(d.take(k) =~= d);
    }
}

/// A `msgstr[...]` index read as `str::parse::<usize>` reads it, or zero.
fn read_index(v: &[char], lo: usize, hi: usize) -> (r: usize)
    requires
        lo <= hi <= v.len(),
    ensures
        r == index_of(v@.subrange(lo as int, hi as int)),
{
    let ghost s = v@.subrange(lo as int, hi as int);
    let mut start: usize = lo;
    if lo < hi && v[lo] == '+' {
        start = lo + 1;
    }
    let ghost d = v@.subrange(start as int, hi as int);
    assert(d =~= (if s.len() > 0 && s[0] == '+' {
        s.drop_first()
    } else {
        s
    }));
    let ghost dd = if s.len() > 0 && s[0] == '+' {
        s.drop_first()
    } else {
        s
    };
    assert(dd == d);
    assert(index_of(s) == (if d.len() > 0 && all_digits(d) && digits_value(d) <= usize::MAX {
        digits_value(d) as usize
    } else {
        0
    }));
    if start == hi {
        return 0;
    }
    let mut value: usize = 0;
    let mut i: usize = start;
    assert(d.take(0) =~= Seq::<char>::empty());
    while i < hi
        invariant
            start <= i <= hi <= v.len(),
            d == v@.subrange(start as int, hi as int),
            s == v@.subrange(lo as int, hi as int),
            d.len() > 0,
            index_of(s) == (if all_digits(d) && digits_value(d) <= usize::MAX {
                digits_value(d) as usize
            } else {
                0
            }),
            all_digits(d.take(i - start)),
            value == digits_value(d.take(i - start)),
        decreases hi - i,
    {
        let c = v[i];
        let ghost k: int = i - start;
        assert(d[k] == c);
        if c < '0' || c > '9' {
            assert(!all_digits(d));
            return 0;
        }
        let digit: u32 = (c as u32) - ('0' as u32);
        assert(d.take(k + 1).drop_last() =~= d.take(k));
        assert(all_digits(d.take(k + 1)));
        match value.checked_mul(10) {
            None => {
                proof {
                    if all_digits(d) {
                        lemma_digits_grow(d, k + 1);
                    }
                }
                return 0;
            },
            Some(m) => match m.checked_add(digit as usize) {
                None => {
                    proof {
                        if all_digits(d) {
                            lemma_digits_grow(d, k + 1);
                        }
                    }
                    return 0;
                },
                Some(next) => {
                    value = next;
                },
            },
        }
        i = i + 1;
    }
    assert(d.take(hi - start) =~= d);
    value
}

/// A `.po` entry as it is read line by line.
struct Entry {
    fuzzy: bool,
    obsolete: bool,
    context: Option<Vec<char>>,
    id: Option<Vec<char>>,
    id_plural: Option<Vec<char>>,
    strings: Vec<(usize, Vec<char>)>,
}

/// An optional run of characters, as text.
pub open spec fn opt_text(o: Option<Vec<char>>) -> Option<Seq<char>> {
    match o {
        Some(v) => Some(v@),
        None => None,
    }
}

/// Indexed strings, as text.
pub open spec fn strings_text(s: Seq<(usize, Vec<char>)>) -> Seq<(usize, Seq<char>)> {
    s.map_values(|p: (usize, Vec<char>)| (p.0, p.1@))
}

impl Entry {
    spec fn text(&self) -> EntryText {
        EntryText {
            fuzzy: self.fuzzy,
            obsolete: self.obsolete,
            context: opt_text(self.context),
            id: opt_text(self.id),
            id_plural: opt_text(self.id_plural),
            strings: strings_text(self.strings@),
        }
    }

    fn fresh() -> (e: Entry)
        ensures
            e.text() == fresh_entry(),
    {
        let e = Entry {
            fuzzy: false,
            obsolete: false,
            context: None,
            id: None,
            id_plural: None,
            strings: Vec::new(),
        };
        assert(strings_text(e.strings@) =~= Seq::<(usize, Seq<char>)>::empty());
        e
    }
}

/// Appending to the first string with an index is updating that one.
proof fn lemma_appended_to(s: Seq<(usize, Seq<char>)>, index: usize, text: Seq<char>, j: int)
    requires
        0 <= j <= s.len(),
        forall|q: int| 0 <= q < j ==> s[q].0 != index,
        j < s.len() ==> s[j].0 == index,
    ensures
        appended_to(s, index, text) == if j < s.len() {
            s.update(j, (index, s[j].1 + text))
        } else {
            s
        },
    decreases j,
{
    if s.len() > 0 {
        if j > 0 {
            assert forall|q: int| 0 <= q < j - 1 implies s.drop_first()[q].0 != index by {
                assert(s.drop_first()[q] == s[q + 1]);
            }
            lemma_appended_to(s.drop_first(), index, text, j - 1);
            if j < s.len() {
                assert(seq![s[0]] + s.drop_first().update(j - 1, (index, s[j].1 + text)) =~= s.update(
                    j,
                    (index, s[j].1 + text),
                ));
            } else {
                assert(seq![s[0]] + s.drop_first() =~= s);
            }
        } else {
            assert(seq![(index, s[0].1 + text)] + s.drop_first() =~= s.update(
                0,
                (index, s[0].1 + text),
            ));
        }
    }
}

/// Append a continuation to the first string carrying `index`.
fn append_to_string(strings: &mut Vec<(usize, Vec<char>)>, index: usize, text: &[char])
    ensures
        strings_text(final(strings)@) == appended_to(strings_text(old(strings)@), index, text@),
{
    let ghost before = strings_text(strings@);
    let mut j: usize = 0;
    while j < strings.len()
        invariant
            j <= strings.len(),
            before == strings_text(strings@),
            strings@ == old(strings)@,
            forall|q: int| 0 <= q < j ==> before[q].0 != index,
        decreases strings.len() - j,
    {
        if strings[j].0 == index {
            let mut slot = slice(&strings[j].1, 0, strings[j].1.len());
            assert(slot@ =~= strings@[j as int].1@);
            append_chars(&mut slot, text);
            strings.set(j, (index, slot));
            proof {
                lemma_appended_to(before, index, text@, j as int);
                assert(strings_text(strings@) =~= before.update(
                    j as int,
                    (index, before[j as int].1 + text@),
                ));
            }
            return;
        }
        j = j + 1;
    }
    proof {
        lemma_appended_to(before, index, text@, j as int);
    }
}

/// Taking an option's contents and putting them back extended.
fn extend_field(field: &mut Option<Vec<char>>, text: &[char])
    ensures
        opt_text(*final(field)) == pushed(opt_text(*old(field)), text@),
{
    match field.take() {
        Some(mut existing) => {
            append_chars(&mut existing, text);
            *field = Some(existing);
        },
        None => {},
    }
}

/// Read one non-blank, trimmed line into the entry.
fn read_into(entry: &mut Entry, field: &mut Field, line: &[char])
    requires
        line.len() > 0,
    ensures
        final(entry).text() == read_line(old(entry).text(), *old(field), line@).0,
        *final(field) == read_line(old(entry).text(), *old(field), line@).1,
{
    let ghost l = line@;
    assert(l.skip(0) =~= l);
    assert(l.subrange(0, l.len() as int) =~= l);
    if line[0] == '#' {
        if line.len() > 1 && line[1] == '~' {
            entry.obsolete = true;
        } else if line.len() > 1 && line[1] == ',' {
            let marked = fuzzy_among(line, 2, line.len());
            assert(l.drop_first().drop_first() =~= l.subrange(2, l.len() as int));
            entry.fuzzy = entry.fuzzy || marked;
        }
        return;
    }
    if line[0] == '"' {
        let text = unquote_chars(line, 0, line.len());
        match *field {
            Field::Context => extend_field(&mut entry.context, &text),
            Field::Id => extend_field(&mut entry.id, &text),
            Field::IdPlural => extend_field(&mut entry.id_plural, &text),
            Field::Str(index) => append_to_string(&mut entry.strings, index, &text),
            Field::Unopened => {},
        }
        return;
    }
    read_keyword(entry, field, line);
}

/// Read a line that opens a field: `msgctxt`, `msgid_plural`, `msgid`,
/// `msgstr[...]` or `msgstr`. Anything else is left unread.
fn read_keyword(entry: &mut Entry, field: &mut Field, line: &[char])
    requires
        line.len() > 0,
        line@[0] != '#',
        line@[0] != '"',
    ensures
        final(entry).text() == read_line(old(entry).text(), *old(field), line@).0,
        *final(field) == read_line(old(entry).text(), *old(field), line@).1,
{
    let ghost l = line@;
    assert(l.skip(0) =~= l);
    let ctxt = chars_of("msgctxt ");
    let plural = chars_of("msgid_plural ");
    let id = chars_of("msgid ");
    let indexed = chars_of("msgstr[");
    let plain = chars_of("msgstr ");
    if starts_with_at(line, 0, &ctxt) {
        let text = unquote_chars(line, ctxt.len(), line.len());
        assert(l.skip(ctxt@.len() as int) =~= l.subrange(ctxt.len() as int, l.len() as int));
        entry.context = Some(text);
        *field = Field::Context;
    } else if starts_with_at(line, 0, &plural) {
        let text = unquote_chars(line, plural.len(), line.len());
        assert(l.skip(plural@.len() as int) =~= l.subrange(plural.len() as int, l.len() as int));
        entry.id_plural = Some(text);
        *field = Field::IdPlural;
    } else if starts_with_at(line, 0, &id) {
        let text = unquote_chars(line, id.len(), line.len());
        assert(l.skip(id@.len() as int) =~= l.subrange(id.len() as int, l.len() as int));
        entry.id = Some(text);
        *field = Field::Id;
    } else if starts_with_at(line, 0, &indexed) {
        let at = indexed.len();
        let ghost rest = l.skip(at as int);
        proof {
            lemma_find_skip(l, ']', at as int);
            lemma_find_from(l, ']', at as int);
        }
        let (index, text) = match find_char(line, ']', at) {
            Some(close) => {
                let (a, b) = trim_bounds(line, at, close);
                assert(rest.take(close - at) =~= l.subrange(at as int, close as int));
                let index = read_index(line, a, b);
                let text = unquote_chars(line, close + 1, line.len());
                assert(rest.skip(close - at + 1) =~= l.subrange(close + 1, l.len() as int));
                (index, text)
            },
            None => {
                let text = unquote_chars(line, at, line.len());
                assert(rest =~= l.subrange(at as int, l.len() as int));
                (0, text)
            },
        };
        let ghost old_strings = strings_text(entry.strings@);
        entry.strings.push((index, text));
        assert(strings_text(entry.strings@) =~= old_strings.push((index, text@)));
        *field = Field::Str(index);
    } else if starts_with_at(line, 0, &plain) {
        let text = unquote_chars(line, plain.len(), line.len());
        assert(l.skip(plain@.len() as int) =~= l.subrange(plain.len() as int, l.len() as int));
        let ghost old_strings = strings_text(entry.strings@);
        entry.strings.push((0, text));
        assert(strings_text(entry.strings@) =~= old_strings.push((0usize, text@)));
        *field = Field::Str(0);
    }
}

/// Inserting in order is inserting before the first string whose index the
/// new one precedes.
proof fn lemma_insert_in_order(x: (usize, Seq<char>), s: Seq<(usize, Seq<char>)>, p: int)
    requires
        0 <= p <= s.len(),
        forall|q: int| 0 <= q < p ==> !(x.0 < #[trigger] s[q].0),
        p < s.len() ==> x.0 < s[p].0,
    ensures
        insert_in_order(x, s) == s.insert(p, x),
    decreases p,
{
    if s.len() == 0 {
        assert(s.insert(p, x) =~= seq![x]);
    } else if p == 0 {
        assert(s.insert(0, x) =~= seq![x] + s);
    } else {
        assert(!(x.0 < s[0].0));
        assert forall|q: int| 0 <= q < p - 1 implies !(x.0 < #[trigger] s.drop_first()[q].0) by {
            assert(s.drop_first()[q] == s[q + 1]);
        }
        lemma_insert_in_order(x, s.drop_first(), p - 1);
        assert(seq![s[0]] + s.drop_first().insert(p - 1, x) =~= s.insert(p, x));
    }
}

/// The strings in index order, equal indexes as they were written: a stable
/// sort by index.
fn sort_by_index(strings: Vec<(usize, Vec<char>)>) -> (r: Vec<(usize, Vec<char>)>)
    ensures
        strings_text(r@) == in_index_order(strings_text(strings@)),
{
    let ghost all = strings_text(strings@);
    let mut rest = strings;
    let mut sorted: Vec<(usize, Vec<char>)> = Vec::new();
    let ghost mut done: int = 0;
    assert(all.take(0) =~= Seq::<(usize, Seq<char>)>::empty());
    assert(strings_text(rest@) =~= all.skip(0));
    while rest.len() > 0
        invariant
            0 <= done <= all.len(),
            strings_text(rest@) == all.skip(done),
            strings_text(sorted@) == in_index_order(all.take(done)),
        decreases rest.len(),
    {
        let ghost old_rest = rest@;
        assert(all.skip(done).len() == old_rest.len());
        let x = rest.remove(0);
        let ghost xt = (x.0, x.1@);
        assert(strings_text(old_rest)[0] == xt);
        assert(all.skip(done)[0] == xt);
        assert(rest@ =~= old_rest.drop_first());
        assert(strings_text(rest@) =~= strings_text(old_rest).drop_first());
        assert(all.skip(done).drop_first() =~= all.skip(done + 1));
        assert(strings_text(rest@) =~= all.skip(done + 1));
        let ghost st = strings_text(sorted@);
        let mut p: usize = 0;
        while p < sorted.len() && !(x.0 < sorted[p].0)
            invariant
                p <= sorted.len(),
                st == strings_text(sorted@),
                forall|q: int| 0 <= q < p ==> !(x.0 < #[trigger] st[q].0),
            decreases sorted.len() - p,
        {
            p = p + 1;
        }
        proof {
            lemma_insert_in_order(xt, st, p as int);
            assert(all.take(done + 1).drop_last() =~= all.take(done));
            assert(all.take(done + 1).last() == xt);
        }
        sorted.insert(p, x);
        assert(strings_text(sorted@) =~= st.insert(p as int, xt));
        proof {
            done = done + 1;
        }
    }
    assert(all.skip(done).len() == 0);
    assert(all.take(done) =~= all);
    sorted
}

/// The text with whitespace taken out, from `v[lo..hi]`.
fn tightened(v: &[char], lo: usize, hi: usize) -> (r: Vec<char>)
    requires
        lo <= hi <= v.len(),
    ensures
        r@ == without_ws(v@.subrange(lo as int, hi as int)),
{
    let mut out: Vec<char> = Vec::new();
    let mut i: usize = lo;
    assert(v@.subrange(lo as int, lo as int) =~= Seq::<char>::empty());
    while i < hi
        invariant
            lo <= i <= hi <= v.len(),
            out@ == without_ws(v@.subrange(lo as int, i as int)),
        decreases hi - i,
    {
        assert(v@.subrange(lo as int, i + 1).drop_last() =~= v@.subrange(lo as int, i as int));
        assert(v@.subrange(lo as int, i + 1).last() == v@[i as int]);
        if !is_whitespace(v[i]) {
            out.push(v[i]);
        }
        i = i + 1;
    }
    out
}

/// Whether `v[lo..hi]`, a line, declares the two-form rule.
fn line_declares(v: &[char], lo: usize, hi: usize) -> (r: bool)
    requires
        lo <= hi <= v.len(),
    ensures
        r == declares_two_forms(v@.subrange(lo as int, hi as int)),
{
    let (a, b) = trim_bounds(v, lo, hi);
    let line = slice(v, a, b);
    let key = chars_of("Plural-Forms:");
    if !starts_with_at(&line, 0, &key) {
        assert(line@.skip(0) =~= line@);
        return false;
    }
    assert(line@.skip(0) =~= line@);
    let tight = tightened(&line, key.len(), line.len());
    assert(line@.subrange(key.len() as int, line@.len() as int) =~= line@.skip(key@.len() as int));
    let one = chars_of("nplurals=2;plural=(n!=1)");
    let other = chars_of("nplurals=2;plural=n!=1");
    assert(tight@.skip(0) =~= tight@);
    starts_with_at(&tight, 0, &one) || starts_with_at(&tight, 0, &other)
}

/// Whether any line of a header declares the two-form rule.
pub fn two_form_rule(header: &str) -> (r: bool)
    ensures
        r == two_form_header(header@),
{
    let v = chars_of(header);
    two_forms_in(&v)
}

/// The same, of characters.
fn two_forms_in(v: &[char]) -> (r: bool)
    ensures
        r == two_form_header(v@),
{
    let mut pos: usize = 0;
    assert(v@.skip(0) =~= v@);
    while pos < v.len()
        invariant
            pos <= v.len(),
            two_form_header(v@) == two_form_header(v@.skip(pos as int)),
        decreases v.len() - pos,
    {
        let (end, next, more) = next_line(v, pos);
        if line_declares(v, pos, end) {
            return true;
        }
        if !more {
            return false;
        }
        pos = next;
    }
    assert(v@.skip(pos as int) =~= Seq::<char>::empty());
    false
}

/// A `String` from each string of an entry, in order.
fn texts_of(strings: &Vec<(usize, Vec<char>)>) -> (r: Vec<String>)
    ensures
        r@.len() == strings@.len(),
        forall|i: int| 0 <= i < r@.len() ==> #[trigger] r@[i]@ == strings@[i].1@,
{
    let mut out: Vec<String> = Vec::new();
    let mut i: usize = 0;
    while i < strings.len()
        invariant
            i <= strings.len(),
            out@.len() == i,
            forall|q: int| 0 <= q < i ==> #[trigger] out@[q]@ == strings@[q].1@,
        decreases strings.len() - i,
    {
        let s = string_of(&strings[i].1);
        out.push(s);
        i = i + 1;
    }
    out
}

/// Whether any string of an entry is empty.
fn any_empty(strings: &Vec<(usize, Vec<char>)>) -> (r: bool)
    ensures
        r == has_empty(strings_text(strings@)),
{
    let mut i: usize = 0;
    while i < strings.len()
        invariant
            i <= strings.len(),
            forall|q: int| 0 <= q < i ==> strings@[q].1@.len() > 0,
        decreases strings.len() - i,
    {
        if strings[i].1.len() == 0 {
            assert(strings_text(strings@)[i as int].1.len() == 0);
            return true;
        }
        i = i + 1;
    }
    assert forall|q: int| 0 <= q < strings_text(strings@).len() implies #[trigger] strings_text(
        strings@,
    )[q].1.len() > 0 by {
        assert(strings_text(strings@)[q].1 == strings@[q].1@);
    }
    false
}

impl Catalog {
    /// File one finished entry, or drop it.
    fn take(&mut self, entry: Entry)
        ensures
            final(self)@ == taken(old(self)@, entry.text()),
    {
        proof {
            use_type_invariant(&*self);
        }
        let ghost e = entry.text();
        let Entry { fuzzy, obsolete, context, id, id_plural, strings } = entry;
        let id = match id {
            None => {
                return;
            },
            Some(id) => id,
        };
        if obsolete {
            return;
        }
        let strings = sort_by_index(strings);
        let ghost sorted = in_index_order(e.strings);
        if id.len() == 0 && context.is_none() {
            if strings.len() > 0 {
                assert(strings_text(strings@)[0].1 == strings@[0].1@);
                self.two_forms = two_forms_in(&strings[0].1);
            }
            return;
        }
        if fuzzy {
            return;
        }
        if any_empty(&strings) {
            return;
        }
        let message = if id_plural.is_some() {
            if strings.len() < 2 {
                return;
            }
            let forms = texts_of(&strings);
            let ghost fm = forms@.map_values(|s: String| s@);
            let ghost sm = sorted.map_values(|p: (usize, Seq<char>)| p.1);
            assert forall|q: int| 0 <= q < fm.len() implies #[trigger] fm[q] == sm[q] by {
                assert(strings_text(strings@)[q].1 == strings@[q].1@);
            }
            assert(fm =~= sm);
            Message::Plural(forms)
        } else {
            if strings.len() == 0 {
                return;
            }
            assert(strings_text(strings@)[0].1 == strings@[0].1@);
            Message::Single(string_of(&strings[0].1))
        };
        assert(message.text() == (if e.id_plural is Some {
            MessageText::Plural(sorted.map_values(|p: (usize, Seq<char>)| p.1))
        } else {
            MessageText::Single(sorted[0].1)
        }));
        match context {
            Some(ctx) => {
                let mut key = ctx;
                key.push('\u{4}');
                append_chars(&mut key, &id);
                assert(key@ =~= context_key(e.context->0, e.id->0));
                let mut keyed: Vec<(Vec<char>, Message)> = Vec::new();
                std::mem::swap(&mut keyed, &mut self.keyed);
                file_under(&mut keyed, key, message);
                self.keyed = keyed;
            },
            None => {
                let mut plain: Vec<(Vec<char>, Message)> = Vec::new();
                std::mem::swap(&mut plain, &mut self.plain);
                file_under(&mut plain, id, message);
                self.plain = plain;
            },
        }
    }

    /// Read a `.po` file's text.
    ///
    /// **Nothing here fails.** What cannot be read is left out, which shows
    /// the English, which is exactly what a missing translation does.
    pub fn parse(text: &str) -> (c: Catalog)
        ensures
            c@ == parsed(text@),
    {
        let v = chars_of(text);
        let mut catalog = Catalog { plain: Vec::new(), keyed: Vec::new(), two_forms: false };
        let mut entry = Entry::fresh();
        let mut field = Field::Unopened;
        assert(catalog@.plain =~= Map::<Seq<char>, MessageText>::empty());
        assert(catalog@.keyed =~= Map::<Seq<char>, MessageText>::empty());
        let ghost start = ReadState { catalog: empty_catalog(), entry: fresh_entry(), field: Field::Unopened };
        let mut pos: usize = 0;
        assert(v@.skip(0) =~= v@);
        while pos < v.len()
            invariant
                pos <= v.len(),
                v@ == text@,
                read_all(start, v@) == read_all(
                    ReadState { catalog: catalog@, entry: entry.text(), field },
                    v@.skip(pos as int),
                ),
            decreases v.len() - pos,
        {
            let ghost st = ReadState { catalog: catalog@, entry: entry.text(), field };
            let (end, next, more) = next_line(&v, pos);
            let ghost raw = v@.subrange(pos as int, end as int);
            let (a, b) = trim_bounds(&v, pos, end);
            if a == b {
                let mut finished = Entry::fresh();
                std::mem::swap(&mut finished, &mut entry);
                catalog.take(finished);
                field = Field::Unopened;
            } else {
                let line = slice(&v, a, b);
                read_into(&mut entry, &mut field, &line);
            }
            assert(ReadState { catalog: catalog@, entry: entry.text(), field } == step(st, raw));
            if !more {
                assert(v@.skip(next as int) =~= Seq::<char>::empty());
            }
            pos = next;
        }
        assert(v@.skip(pos as int) =~= Seq::<char>::empty());
        catalog.take(entry);
        catalog
    }
}

} // verus!
