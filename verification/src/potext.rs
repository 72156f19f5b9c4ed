//! Message catalogs in the GNU `.po` format, read from text compiled into the
//! binary, and the lookups that answer in the language in force.
//!
//! Nothing is translated until a catalogue is put in force: every lookup here
//! takes the catalogue in force as an argument, and where there is none the
//! English the call site wrote comes back unchanged.

use vstd::prelude::*;

use crate::text::{
    chars_of, find, find_char, lemma_find_from, lemma_find_skip, push_char, push_chars, same, slice,
};

mod po;

pub use po::{law_a_catalogue_serves_only_translations, parsed, servable, sound, two_form_rule, unquote};

verus! {

/// The values given to [`fill`], as names and texts.
pub open spec fn pairs_view(values: Seq<(&str, &str)>) -> Seq<(Seq<char>, Seq<char>)> {
    values.map_values(|p: (&str, &str)| (p.0@, p.1@))
}

/// The value given for a placeholder name: the first pair carrying it.
pub open spec fn lookup(values: Seq<(Seq<char>, Seq<char>)>, name: Seq<char>) -> Option<Seq<char>>
    decreases values.len(),
{
    if values.len() == 0 {
        None
    } else if values[0].0 == name {
        Some(values[0].1)
    } else {
        lookup(values.drop_first(), name)
    }
}

/// What one placeholder becomes: its value, or itself with its braces where
/// no value is given.
pub open spec fn substituted(values: Seq<(Seq<char>, Seq<char>)>, name: Seq<char>) -> Seq<char> {
    match lookup(values, name) {
        Some(v) => v,
        None => seq!['{'] + name + seq!['}'],
    }
}

/// A template with its placeholders replaced in one pass.
///
/// The template is scanned from the left for `{`; what runs from there to the
/// next `}` is a name, and it is replaced by its value. Scanning resumes after
/// the `}`, in the template and never in the value put in, and an unclosed
/// brace leaves the rest of the template as it is.
pub open spec fn filled(t: Seq<char>, values: Seq<(Seq<char>, Seq<char>)>) -> Seq<char>
    decreases t.len(),
{
    match find(t, '{') {
        None => t,
        Some(open) => {
            let after = t.skip(open + 1);
            match find(after, '}') {
                None => t,
                Some(close) => {
                    proof {
                        lemma_find_from(t, '{', 0);
                        lemma_find_from(after, '}', 0);
                    }
                    t.take(open) + substituted(values, after.take(close)) + filled(
                        after.skip(close + 1),
                        values,
                    )
                },
            }
        },
    }
}

/// The value given for `name`, where one is.
fn value_for<'a>(values: &[(&'a str, &'a str)], name: &[char]) -> (r: Option<&'a str>)
    ensures
        r matches Some(v) ==> lookup(pairs_view(values@), name@) == Some(v@),
        r is None ==> lookup(pairs_view(values@), name@) is None,
{
    let ghost all = pairs_view(values@);
    let mut i: usize = 0;
    assert(all.skip(0) =~= all);
    while i < values.len()
        invariant
            i <= values.len(),
            all == pairs_view(values@),
            lookup(all, name@) == lookup(all.skip(i as int), name@),
        decreases values.len() - i,
    {
        let (key, value) = values[i];
        let k = chars_of(key);
        assert(all.skip(i as int)[0] == (key@, value@));
        if same(&k, name) {
            return Some(value);
        }
        assert(all.skip(i as int).drop_first() =~= all.skip(i + 1));
        i = i + 1;
    }
    None
}

/// One step of [`filled`]: the text before the first placeholder, what the
/// placeholder becomes, and the rest filled in turn.
proof fn lemma_filled_step(rest: Seq<char>, vals: Seq<(Seq<char>, Seq<char>)>, o: int, c: int)
    requires
        find(rest, '{') == Some(o),
        find(rest.skip(o + 1), '}') == Some(c),
    ensures
        0 <= o < rest.len(),
        0 <= c,
        o + 1 + c < rest.len(),
        filled(rest, vals) == rest.take(o) + substituted(vals, rest.subrange(o + 1, o + 1 + c))
            + filled(rest.skip(o + 1 + c + 1), vals),
{
    lemma_find_from(rest, '{', 0);
    lemma_find_from(rest.skip(o + 1), '}', 0);
    assert(rest.skip(o + 1).take(c) =~= rest.subrange(o + 1, o + 1 + c));
    assert(rest.skip(o + 1).skip(c + 1) =~= rest.skip(o + 1 + c + 1));
}

/// Where no placeholder is opened and closed, the text is left as it is.
proof fn lemma_filled_stops(rest: Seq<char>, vals: Seq<(Seq<char>, Seq<char>)>)
    requires
        find(rest, '{') is None || (find(rest, '{') matches Some(o) && find(
            rest.skip(o + 1),
            '}',
        ) is None),
    ensures
        filled(rest, vals) == rest,
{
}

/// A placeholder is replaced by its value and scanning resumes after it: what
/// the value holds, braces included, is never read as a placeholder, and the
/// text before the placeholder comes through unchanged.
pub proof fn law_a_value_is_not_filled_into(
    before: Seq<char>,
    name: Seq<char>,
    after: Seq<char>,
    values: Seq<(Seq<char>, Seq<char>)>,
)
    requires
        find(before, '{') is None,
        find(name, '}') is None,
    ensures
        filled(before + seq!['{'] + name + seq!['}'] + after, values) == before + substituted(
            values,
            name,
        ) + filled(after, values),
{
    let t = before + seq!['{'] + name + seq!['}'] + after;
    let o = before.len() as int;
    lemma_find_from(before, '{', 0);
    lemma_find_from(name, '}', 0);
    assert(find(t, '{') == Some(o)) by {
        lemma_find_prefix_free(before, seq!['{'] + name + seq!['}'] + after, '{');
        assert(t =~= before + (seq!['{'] + name + seq!['}'] + after));
    }
    let rest = t.skip(o + 1);
    assert(rest =~= name + (seq!['}'] + after));
    assert(find(rest, '}') == Some(name.len() as int)) by {
        lemma_find_prefix_free(name, seq!['}'] + after, '}');
    }
    lemma_filled_step(t, values, o, name.len() as int);
    assert(t.take(o) =~= before);
    assert(t.subrange(o + 1, o + 1 + name.len()) =~= name);
    assert(t.skip(o + 1 + name.len() + 1) =~= after);
}

/// Where the first part holds no `c`, the first `c` of the whole is the first
/// of what follows, shifted.
proof fn lemma_find_prefix_free(a: Seq<char>, b: Seq<char>, c: char)
    requires
        find(a, c) is None,
        b.len() > 0,
        b[0] == c,
    ensures
        find(a + b, c) == Some(a.len() as int),
{
    lemma_find_from(a, c, 0);
    lemma_find_from(a + b, c, 0);
    let s = a + b;
    assert(s[a.len() as int] == c);
}

/// With no values given, filling changes nothing: every placeholder keeps its
/// braces and every unclosed brace is left standing.
pub proof fn law_filling_nothing_changes_nothing(t: Seq<char>)
    ensures
        filled(t, Seq::empty()) == t,
    decreases t.len(),
{
    let vals = Seq::<(Seq<char>, Seq<char>)>::empty();
    if let Some(o) = find(t, '{') {
        if let Some(c) = find(t.skip(o + 1), '}') {
            lemma_filled_step(t, vals, o, c);
            lemma_find_from(t, '{', 0);
            lemma_find_from(t.skip(o + 1), '}', 0);
            law_filling_nothing_changes_nothing(t.skip(o + 1 + c + 1));
            assert(t =~= t.take(o) + (seq!['{'] + t.subrange(o + 1, o + 1 + c) + seq!['}']) + t.skip(
                o + 1 + c + 1,
            ));
        }
    }
}

/// Put the values into a translated message's placeholders.
///
/// **One pass.** A value put in is never scanned for placeholders itself, so a
/// payload called `{reason}.pdf` cannot rewrite the sentence around it. A
/// placeholder with no value keeps its braces, and so does an unclosed brace.
#[verifier::spinoff_prover]
pub fn fill(template: &str, values: &[(&str, &str)]) -> (out: String)
    ensures
        out@ == filled(template@, pairs_view(values@)),
{
    let t = chars_of(template);
    let ghost vals = pairs_view(values@);
    let mut out = String::new();
    let mut pos: usize = 0;
    assert(t@.skip(0) =~= t@);
    assert(out@ + filled(t@, vals) =~= filled(t@, vals));
    while pos < t.len()
        invariant
            pos <= t.len(),
            t@ == template@,
            vals == pairs_view(values@),
            out@ + filled(t@.skip(pos as int), vals) == filled(t@, vals),
        decreases t.len() - pos,
    {
        let ghost rest = t@.skip(pos as int);
        let ghost before_out = out@;
        proof {
            lemma_find_skip(t@, '{', pos as int);
            lemma_find_from(t@, '{', pos as int);
        }
        let found = find_char(&t, '{', pos);
        let mut closing: Option<usize> = None;
        if let Some(open) = found {
            proof {
                lemma_find_skip(t@, '}', open + 1);
                lemma_find_from(t@, '}', open + 1);
                assert(rest.skip(open - pos + 1) =~= t@.skip(open + 1));
            }
            closing = find_char(&t, '}', open + 1);
        }
        match (found, closing) {
            (Some(open), Some(close)) => {
                proof {
                    lemma_filled_step(rest, vals, open - pos, close - (open + 1));
                    assert(rest.skip(close - pos + 1) =~= t@.skip(close + 1));
                }
                let before = slice(&t, pos, open);
                let name = slice(&t, open + 1, close);
                assert(before@ =~= rest.take(open - pos));
                assert(name@ =~= rest.subrange(open - pos + 1, close - pos));
                push_chars(&mut out, &before);
                match value_for(values, &name) {
                    Some(v) => {
                        let vc = chars_of(v);
                        push_chars(&mut out, &vc);
                    },
                    None => {
                        push_char(&mut out, '{');
                        push_chars(&mut out, &name);
                        push_char(&mut out, '}');
                    },
                }
                assert(out@ =~= before_out + before@ + substituted(vals, name@));
                pos = close + 1;
            },
            _ => {
                proof {
                    lemma_filled_stops(rest, vals);
                }
                let tail = slice(&t, pos, t.len());
                assert(tail@ =~= rest);
                push_chars(&mut out, &tail);
                return out;
            },
        }
    }
    proof {
        assert(t@.skip(pos as int) =~= Seq::<char>::empty());
        assert(filled(Seq::<char>::empty(), vals) == Seq::<char>::empty());
    }
    assert(out@ =~= filled(t@, vals));
    out
}

/// A message in the one form a plain entry needs, or the several a plural
/// entry needs.
pub enum Message {
    /// One translation.
    Single(String),
    /// Indexed by the plural rule's answer, so `[0]` is the singular.
    Plural(Vec<String>),
}

/// What a message says, as text.
pub enum MessageText {
    /// One translation.
    Single(Seq<char>),
    /// The forms, singular first.
    Plural(Seq<Seq<char>>),
}

impl Message {
    /// What this message says.
    pub open spec fn text(&self) -> MessageText {
        match self {
            Message::Single(s) => MessageText::Single(s@),
            Message::Plural(v) => MessageText::Plural(v@.map_values(|s: String| s@)),
        }
    }
}

/// One language's messages, as the lookups see them.
pub struct CatalogText {
    /// Messages with no context, keyed by their English text.
    pub plain: Map<Seq<char>, MessageText>,
    /// Messages with a context, keyed by context, EOT, then English text.
    pub keyed: Map<Seq<char>, MessageText>,
    /// Whether the header declares the two-form plural rule.
    pub two_forms: bool,
}

/// The separator between a context and its message id in a keyed lookup:
/// EOT, which is what gettext's own `.mo` format puts between the two.
pub open spec fn context_key(context: Seq<char>, id: Seq<char>) -> Seq<char> {
    context + seq!['\u{4}'] + id
}

/// The message filed under `key`: the first entry carrying it.
pub open spec fn first_match(entries: Seq<(Vec<char>, Message)>, key: Seq<char>) -> Option<MessageText>
    decreases entries.len(),
{
    if entries.len() == 0 {
        None
    } else if entries[0].0@ == key {
        Some(entries[0].1.text())
    } else {
        first_match(entries.drop_first(), key)
    }
}

/// A list of entries as the map a lookup reads.
pub open spec fn entries_map(entries: Seq<(Vec<char>, Message)>) -> Map<Seq<char>, MessageText> {
    Map::new(|k: Seq<char>| first_match(entries, k) is Some, |k: Seq<char>| first_match(entries, k)->0)
}

/// One language's messages, parsed from a `.po` file's text.
pub struct Catalog {
    plain: Vec<(Vec<char>, Message)>,
    keyed: Vec<(Vec<char>, Message)>,
    two_forms: bool,
}

/// No two entries carry the same key: filing replaces rather than repeats.
pub open spec fn keys_distinct(e: Seq<(Vec<char>, Message)>) -> bool {
    forall|i: int, j: int| 0 <= i < j < e.len() ==> #[trigger] e[i].0@ != #[trigger] e[j].0@
}

impl Catalog {
    /// Each key is filed once, in either map.
    #[verifier::type_invariant]
    spec fn keys_once(&self) -> bool {
        keys_distinct(self.plain@) && keys_distinct(self.keyed@)
    }
}

/// With no key filed twice, a list of entries maps as many keys as it holds.
proof fn lemma_entries_map_len(e: Seq<(Vec<char>, Message)>)
    requires
        keys_distinct(e),
    ensures
        entries_map(e).dom().finite(),
        entries_map(e).dom().len() == e.len(),
    decreases e.len(),
{
    broadcast use vstd::set::group_set_axioms;

    if e.len() == 0 {
        assert(entries_map(e).dom() =~= Set::<Seq<char>>::empty());
    } else {
        let rest = e.drop_first();
        assert forall|i: int, j: int| 0 <= i < j < rest.len() implies #[trigger] rest[i].0@
            != #[trigger] rest[j].0@ by {
            assert(rest[i] == e[i + 1] && rest[j] == e[j + 1]);
        }
        lemma_entries_map_len(rest);
        assert forall|k: Seq<char>| #[trigger] entries_map(e).dom().contains(k) == entries_map(
            rest,
        ).dom().insert(e[0].0@).contains(k) by {
            if k != e[0].0@ {
                assert(first_match(e, k) == first_match(rest, k));
            }
        }
        assert(entries_map(e).dom() =~= entries_map(rest).dom().insert(e[0].0@));
        assert(!entries_map(rest).dom().contains(e[0].0@)) by {
            lemma_absent(rest, e[0].0@, e);
        }
    }
}

/// A key no entry carries is not filed.
proof fn lemma_absent(rest: Seq<(Vec<char>, Message)>, k: Seq<char>, e: Seq<(Vec<char>, Message)>)
    requires
        e.len() > 0,
        rest == e.drop_first(),
        k == e[0].0@,
        keys_distinct(e),
    ensures
        first_match(rest, k) is None,
{
    assert forall|j: int| 0 <= j < rest.len() implies rest[j].0@ != k by {
        assert(rest[j] == e[j + 1]);
        assert(e[0].0@ != e[j + 1].0@);
    }
    lemma_none_carries(rest, k);
}

/// Where no entry carries a key, nothing is filed under it.
proof fn lemma_none_carries(e: Seq<(Vec<char>, Message)>, k: Seq<char>)
    requires
        forall|j: int| 0 <= j < e.len() ==> e[j].0@ != k,
    ensures
        first_match(e, k) is None,
    decreases e.len(),
{
    if e.len() > 0 {
        assert forall|j: int| 0 <= j < e.drop_first().len() implies e.drop_first()[j].0@ != k by {
            assert(e.drop_first()[j] == e[j + 1]);
        }
        lemma_none_carries(e.drop_first(), k);
    }
}

impl View for Catalog {
    type V = CatalogText;

    closed spec fn view(&self) -> CatalogText {
        CatalogText {
            plain: entries_map(self.plain@),
            keyed: entries_map(self.keyed@),
            two_forms: self.two_forms,
        }
    }
}

/// The position of the entry a lookup of `key` finds.
fn position_of(entries: &[(Vec<char>, Message)], key: &[char]) -> (r: Option<usize>)
    ensures
        match r {
            Some(i) => i < entries@.len() && entries@[i as int].0@ == key@ && first_match(
                entries@,
                key@,
            ) == Some(entries@[i as int].1.text()) && forall|j: int|
                0 <= j < i ==> entries@[j].0@ != key@,
            None => first_match(entries@, key@) is None && forall|j: int|
                0 <= j < entries@.len() ==> entries@[j].0@ != key@,
        },
{
    let mut i: usize = 0;
    assert(entries@.skip(0) =~= entries@);
    while i < entries.len()
        invariant
            i <= entries@.len(),
            first_match(entries@, key@) == first_match(entries@.skip(i as int), key@),
            forall|j: int| 0 <= j < i ==> entries@[j].0@ != key@,
        decreases entries.len() - i,
    {
        assert(entries@.skip(i as int)[0] == entries@[i as int]);
        if same(&entries[i].0, key) {
            return Some(i);
        }
        assert(entries@.skip(i as int).drop_first() =~= entries@.skip(i + 1));
        i = i + 1;
    }
    None
}

/// Replacing the entry a lookup finds changes what that key finds and
/// nothing else.
proof fn lemma_first_match_update(
    e: Seq<(Vec<char>, Message)>,
    i: int,
    key: Vec<char>,
    msg: Message,
    k: Seq<char>,
)
    requires
        0 <= i < e.len(),
        e[i].0@ == key@,
        forall|j: int| 0 <= j < i ==> e[j].0@ != key@,
    ensures
        first_match(e.update(i, (key, msg)), k) == if k == key@ {
            Some(msg.text())
        } else {
            first_match(e, k)
        },
    decreases i,
{
    let u = e.update(i, (key, msg));
    if i > 0 {
        lemma_first_match_update(e.drop_first(), i - 1, key, msg, k);
        assert(u.drop_first() =~= e.drop_first().update(i - 1, (key, msg)));
        assert(u[0] == e[0]);
    } else {
        assert(u.drop_first() =~= e.drop_first());
        assert(u[0] == (key, msg));
    }
}

/// Adding an entry under a key nothing carries yet.
proof fn lemma_first_match_push(
    e: Seq<(Vec<char>, Message)>,
    key: Vec<char>,
    msg: Message,
    k: Seq<char>,
)
    requires
        forall|j: int| 0 <= j < e.len() ==> e[j].0@ != key@,
    ensures
        first_match(e.push((key, msg)), k) == if k == key@ {
            Some(msg.text())
        } else {
            first_match(e, k)
        },
    decreases e.len(),
{
    let p = e.push((key, msg));
    if e.len() > 0 {
        assert forall|j: int| 0 <= j < e.drop_first().len() implies e.drop_first()[j].0@ != key@ by {
            assert(e.drop_first()[j] == e[j + 1]);
        }
        lemma_first_match_push(e.drop_first(), key, msg, k);
        assert(p.drop_first() =~= e.drop_first().push((key, msg)));
        assert(p[0] == e[0]);
        assert(e[0].0@ != key@);
        if e[0].0@ == k {
            assert(first_match(p, k) == Some(e[0].1.text()));
            assert(first_match(e, k) == Some(e[0].1.text()));
        } else {
            assert(first_match(p, k) == first_match(p.drop_first(), k));
            assert(first_match(e, k) == first_match(e.drop_first(), k));
        }
    } else {
        assert(p[0] == (key, msg));
        assert(p.drop_first() =~= Seq::<(Vec<char>, Message)>::empty());
        assert(first_match(e, k) is None);
        if k != key@ {
            assert(first_match(p, k) == first_match(p.drop_first(), k));
        }
    }
}

/// File a message under a key, replacing whatever was filed under it.
fn file_under(entries: &mut Vec<(Vec<char>, Message)>, key: Vec<char>, msg: Message)
    requires
        keys_distinct(old(entries)@),
    ensures
        entries_map(final(entries)@) == entries_map(old(entries)@).insert(key@, msg.text()),
        keys_distinct(final(entries)@),
{
    let ghost old_e = entries@;
    let ghost k = key@;
    let ghost m = msg.text();
    match position_of(entries, &key) {
        Some(i) => {
            entries.set(i, (key, msg));
            assert(keys_distinct(entries@)) by {
                assert forall|a: int, b: int| 0 <= a < b < entries@.len() implies #[trigger] entries@[a].0@
                    != #[trigger] entries@[b].0@ by {
                    assert(a != i ==> entries@[a] == old_e[a]);
                    assert(b != i ==> entries@[b] == old_e[b]);
                }
            }
            proof {
                assert forall|q: Seq<char>| #[trigger]
                    first_match(entries@, q) == if q == k {
                        Some(m)
                    } else {
                        first_match(old_e, q)
                    } by {
                    lemma_first_match_update(old_e, i as int, entries@[i as int].0, entries@[i as int].1, q);
                }
            }
        },
        None => {
            entries.push((key, msg));
            assert(keys_distinct(entries@)) by {
                assert forall|a: int, b: int| 0 <= a < b < entries@.len() implies #[trigger] entries@[a].0@
                    != #[trigger] entries@[b].0@ by {
                    assert(a < old_e.len() ==> entries@[a] == old_e[a]);
                    assert(b < old_e.len() ==> entries@[b] == old_e[b]);
                }
            }
            proof {
                assert forall|q: Seq<char>| #[trigger]
                    first_match(entries@, q) == if q == k {
                        Some(m)
                    } else {
                        first_match(old_e, q)
                    } by {
                    lemma_first_match_push(old_e, entries@.last().0, entries@.last().1, q);
                }
            }
        },
    }
    assert(entries_map(entries@) =~= entries_map(old_e).insert(k, m));
}


/// The catalogue in force, as the lookups see it.
pub open spec fn in_force_view(in_force: Option<&Catalog>) -> Option<CatalogText> {
    match in_force {
        Some(c) => Some(c@),
        None => None,
    }
}

/// What [`t`] answers: the translation of a message that has one, and the
/// English otherwise.
pub open spec fn translated(in_force: Option<CatalogText>, msgid: Seq<char>) -> Seq<char> {
    match in_force {
        Some(c) => match c.plain.get(msgid) {
            Some(MessageText::Single(s)) => s,
            _ => msgid,
        },
        None => msgid,
    }
}

/// This message in the language in force, or the English it was written in.
///
/// The English text is the key, so a call site reads as the sentence a person
/// sees and an untranslated string reads as written. A plural entry reached
/// this way is a catalogue that disagrees with its call site, and English is
/// the answer then too.
pub fn t<'a>(in_force: Option<&'a Catalog>, msgid: &'a str) -> (r: &'a str)
    ensures
        r@ == translated(in_force_view(in_force), msgid@),
{
    match in_force {
        None => msgid,
        Some(catalog) => {
            let key = chars_of(msgid);
            match position_of(&catalog.plain, &key) {
                Some(i) => match &catalog.plain[i].1 {
                    Message::Single(s) => s.as_str(),
                    Message::Plural(_) => msgid,
                },
                None => msgid,
            }
        },
    }
}

/// This message in the language in force, where the English is ambiguous and
/// a context tells its senses apart.
pub fn tc<'a>(in_force: Option<&'a Catalog>, context: &str, msgid: &'a str) -> (r: &'a str)
    ensures
        r@ == (match in_force {
            Some(c) => match c@.keyed.get(context_key(context@, msgid@)) {
                Some(MessageText::Single(s)) => s,
                _ => msgid@,
            },
            None => msgid@,
        }),
{
    match in_force {
        None => msgid,
        Some(catalog) => {
            let mut key = chars_of(context);
            key.push('\u{4}');
            let id = chars_of(msgid);
            crate::text::append_chars(&mut key, &id);
            assert(key@ =~= context_key(context@, msgid@));
            match position_of(&catalog.keyed, &key) {
                Some(i) => match &catalog.keyed[i].1 {
                    Message::Single(s) => s.as_str(),
                    Message::Plural(_) => msgid,
                },
                None => msgid,
            }
        },
    }
}

/// What [`tn`] answers: the form the count calls for from a two-form
/// catalogue, or the English form.
pub open spec fn plural_of(in_force: Option<CatalogText>, one: Seq<char>, other: Seq<char>, n: u64) -> Seq<char> {
    let english = if n == 1 {
        one
    } else {
        other
    };
    match in_force {
        Some(c) => if !c.two_forms {
            english
        } else {
            match c.plain.get(one) {
                Some(MessageText::Plural(forms)) => {
                    let wanted: int = if n != 1 {
                        1
                    } else {
                        0
                    };
                    if wanted < forms.len() {
                        forms[wanted]
                    } else {
                        english
                    }
                },
                _ => english,
            }
        },
        None => english,
    }
}

/// One of two English forms, or the translated form the count calls for.
///
/// **The only plural rule understood is two forms chosen by `n != 1`**, which
/// is what English and German both use. A catalogue declaring anything else
/// keeps its entries but is not consulted here, and the English forms are used.
pub fn tn<'a>(in_force: Option<&'a Catalog>, one: &'a str, other: &'a str, n: u64) -> (r: &'a str)
    ensures
        r@ == plural_of(in_force_view(in_force), one@, other@, n),
{
    let english = if n == 1 {
        one
    } else {
        other
    };
    let catalog = match in_force {
        None => {
            return english;
        },
        Some(c) => c,
    };
    if !catalog.two_forms {
        return english;
    }
    let key = chars_of(one);
    match position_of(&catalog.plain, &key) {
        Some(i) => match &catalog.plain[i].1 {
            Message::Plural(forms) => {
                let wanted: usize = if n != 1 {
                    1
                } else {
                    0
                };
                if wanted < forms.len() {
                    forms[wanted].as_str()
                } else {
                    english
                }
            },
            Message::Single(_) => english,
        },
        None => english,
    }
}

/// A lookup answers the translation of a message that has a single one, and
/// the English it was asked about in every other case: no catalogue, no entry,
/// or a plural entry reached by a lookup that wants one text.
pub proof fn law_a_lookup_answers_the_translation_or_the_english(c: Option<CatalogText>, msgid: Seq<char>)
    ensures
        forall|s: Seq<char>|
            c is Some && c.unwrap().plain.get(msgid) == Some(MessageText::Single(s)) ==> translated(c, msgid)
                == s,
        !(c is Some && c.unwrap().plain.get(msgid) matches Some(MessageText::Single(_))) ==> translated(
            c,
            msgid,
        ) == msgid,
{
}

/// With a two-form catalogue holding a plural entry for `one`, the count
/// chooses the form by `n != 1`, the rule English and German share: the
/// first form for exactly one, and the second for every other count, none
/// included.
pub proof fn law_the_count_picks_the_form(
    c: CatalogText,
    forms: Seq<Seq<char>>,
    one: Seq<char>,
    other: Seq<char>,
    n: u64,
)
    requires
        c.two_forms,
        c.plain.get(one) == Some(MessageText::Plural(forms)),
        forms.len() >= 2,
    ensures
        n == 1 ==> plural_of(Some(c), one, other, n) == forms[0],
        n != 1 ==> plural_of(Some(c), one, other, n) == forms[1],
        plural_of(Some(c), one, other, 0) == forms[1],
        plural_of(Some(c), one, other, 1) == forms[0],
{
}

/// Where there is no translation to consult, the English forms are used,
/// chosen by the same rule: `one` for exactly one, and `other` for every other
/// count. That is the case with no catalogue, with a catalogue declaring some
/// other plural rule, and with one that has no plural entry for `one`.
pub proof fn law_without_a_plural_entry_the_english_form_is_used(
    c: Option<CatalogText>,
    one: Seq<char>,
    other: Seq<char>,
    n: u64,
)
    requires
        match c {
            None => true,
            Some(cat) => !cat.two_forms || !(cat.plain.get(one) matches Some(MessageText::Plural(_))),
        },
    ensures
        plural_of(c, one, other, n) == (if n == 1 {
            one
        } else {
            other
        }),
{
}

impl Catalog {
    /// Whether the header declared the two-form plural rule.
    pub fn two_forms(&self) -> (r: bool)
        ensures
            r == self@.two_forms,
    {
        self.two_forms
    }

    /// How many messages are filed without a context.
    pub fn plain_len(&self) -> (r: usize)
        ensures
            r == self@.plain.dom().len(),
    {
        proof {
            use_type_invariant(self);
            lemma_entries_map_len(self.plain@);
        }
        self.plain.len()
    }

    /// How many messages are filed under a context.
    pub fn keyed_len(&self) -> (r: usize)
        ensures
            r == self@.keyed.dom().len(),
    {
        proof {
            use_type_invariant(self);
            lemma_entries_map_len(self.keyed@);
        }
        self.keyed.len()
    }

    /// The message filed without a context under this English text.
    pub fn message(&self, id: &str) -> (r: Option<&Message>)
        ensures
            match r {
                Some(m) => self@.plain.get(id@) == Some(m.text()),
                None => self@.plain.get(id@) is None,
            },
    {
        let key = chars_of(id);
        match position_of(&self.plain, &key) {
            Some(i) => Some(&self.plain[i].1),
            None => None,
        }
    }

}

/// What `str::to_lowercase` makes of a text: Unicode's lowercase mapping,
/// named rather than written out.
pub uninterp spec fn lowercase(s: Seq<char>) -> Seq<char>;

/// Lower-case a text.
///
/// Calls `str::to_lowercase`, which vstd gives no specification; the result
/// is named [`lowercase`] of the text and nothing more is claimed of it.
#[verifier::external_body]
fn to_lowercase(s: &str) -> (r: String)
    ensures
        r@ == lowercase(s@),
{
    s.to_lowercase()
}

/// The first `.` or `@`, where a locale name's codeset or modifier starts.
pub open spec fn codeset_from(s: Seq<char>, i: int) -> Option<int>
    decreases s.len() - i,
{
    if i < 0 || i >= s.len() {
        None
    } else if s[i] == '.' || s[i] == '@' {
        Some(i)
    } else {
        codeset_from(s, i + 1)
    }
}

/// A locale name with its codeset and modifier dropped.
pub open spec fn without_codeset(s: Seq<char>) -> Seq<char> {
    match codeset_from(s, 0) {
        Some(i) => s.take(i),
        None => s,
    }
}

/// Every `_` as a `-`.
pub open spec fn dashed(s: Seq<char>) -> Seq<char> {
    s.map_values(|c: char| if c == '_' {
        '-'
    } else {
        c
    })
}

/// A locale name in any of the spellings the platforms use, as a tag: the
/// codeset and modifier dropped, trimmed, `_` as `-`, lower case. `C`,
/// `POSIX` and nothing at all are not languages.
pub open spec fn normalised(tag: Seq<char>) -> Option<Seq<char>> {
    let n = lowercase(dashed(crate::text::trim(without_codeset(tag))));
    if is_language(n) {
        Some(n)
    } else {
        None
    }
}

/// The language of a tag: what comes before its first `-`.
pub open spec fn language_of(tag: Seq<char>) -> Seq<char> {
    match find(tag, '-') {
        Some(i) => tag.take(i),
        None => tag,
    }
}

/// The characters of a locale name, normalised.
fn normalise_chars(tag: &str) -> (r: Option<Vec<char>>)
    ensures
        match r {
            Some(v) => normalised(tag@) == Some(v@),
            None => normalised(tag@) is None,
        },
{
    let v = chars_of(tag);
    let mut end: usize = 0;
    while end < v.len() && v[end] != '.' && v[end] != '@'
        invariant
            end <= v.len(),
            v@ == tag@,
            codeset_from(v@, 0) == codeset_from(v@, end as int),
        decreases v.len() - end,
    {
        end = end + 1;
    }
    assert(v@.subrange(0, end as int) =~= without_codeset(v@));
    let (a, b) = crate::text::trim_bounds(&v, 0, end);
    let mut d: Vec<char> = Vec::new();
    let mut i: usize = a;
    while i < b
        invariant
            a <= i <= b <= v.len(),
            d@ =~= dashed(v@.subrange(a as int, i as int)),
        decreases b - i,
    {
        if v[i] == '_' {
            d.push('-');
        } else {
            d.push(v[i]);
        }
        i = i + 1;
    }
    let dashed_text = crate::text::string_of(&d);
    let lowered = to_lowercase(dashed_text.as_str());
    match language_tag(lowered.as_str()) {
        Some(tag) => Some(chars_of(tag.as_str())),
        None => None,
    }
}

/// A normalised locale name that is a language: anything but nothing, `c`
/// and `posix`, which mean the program should behave as it was written.
pub open spec fn is_language(n: Seq<char>) -> bool {
    !(n.len() == 0 || n == "c"@ || n == "posix"@)
}

/// A lower-cased locale name as a tag, where it names a language.
pub fn language_tag(lowered: &str) -> (r: Option<String>)
    ensures
        match r {
            Some(t) => is_language(lowered@) && t@ == lowered@,
            None => !is_language(lowered@),
        },
{
    let n = chars_of(lowered);
    let c = chars_of("c");
    let posix = chars_of("posix");
    if n.len() == 0 || same(&n, &c) || same(&n, &posix) {
        None
    } else {
        Some(lowered.to_owned())
    }
}

/// A locale name in any of the spellings the three platforms use, as a tag.
///
/// `de_DE.UTF-8` and `de-DE` and `de` all normalise to something a catalogue
/// tag can be compared against. `C` and `POSIX` are not languages: they mean
/// the program should behave as it was written, which is English.
pub fn normalise(tag: &str) -> (r: Option<String>)
    ensures
        match r {
            Some(s) => normalised(tag@) == Some(s@),
            None => normalised(tag@) is None,
        },
{
    match normalise_chars(tag) {
        Some(v) => Some(crate::text::string_of(&v)),
        None => None,
    }
}

/// The first catalogue at or after `i` whose tag normalises to `want`.
pub open spec fn matching_from(available: Seq<(&str, &str)>, want: Seq<char>, i: int) -> Option<int>
    decreases available.len() - i,
{
    if i < 0 || i >= available.len() {
        None
    } else if normalised(available[i].0@) == Some(want) {
        Some(i)
    } else {
        matching_from(available, want, i + 1)
    }
}

/// The catalogue [`choose_catalog`] picks: the exact tag first, then the language.
pub open spec fn chosen(available: Seq<(&str, &str)>, preferred: Seq<char>) -> Option<int> {
    match normalised(preferred) {
        None => None,
        Some(wanted) => match matching_from(available, wanted, 0) {
            Some(i) => Some(i),
            None => matching_from(available, language_of(wanted), 0),
        },
    }
}

/// The first catalogue whose tag normalises to `want`.
fn matching<'a, 'b>(available: &[(&'a str, &'b str)], want: &[char]) -> (r: Option<usize>)
    ensures
        r == (match matching_from(available@, want@, 0) {
            Some(i) => Some(i as usize),
            None => None::<usize>,
        }),
        r matches Some(i) ==> i < available@.len(),
{
    let mut i: usize = 0;
    while i < available.len()
        invariant
            i <= available.len(),
            matching_from(available@, want@, 0) == matching_from(available@, want@, i as int),
        decreases available.len() - i,
    {
        match normalise_chars(available[i].0) {
            Some(n) => {
                if same(&n, want) {
                    return Some(i);
                }
            },
            None => {},
        }
        i = i + 1;
    }
    None
}

/// The catalogue whose language best answers what was asked for.
///
/// Exact tag first, then the language alone, so a machine set to `de-AT` gets
/// the `de` catalogue rather than English, while an `en-GB` catalogue is still
/// preferred over `en` for a machine that asked for it by name.
pub fn choose_catalog<'a, 'b>(available: &[(&'a str, &'b str)], preferred: &str) -> (r: Option<(&'a str, &'b str)>)
    ensures
        r == (match chosen(available@, preferred@) {
            Some(i) => Some(available@[i]),
            None => None::<(&'a str, &'b str)>,
        }),
{
    let wanted = match normalise_chars(preferred) {
        None => {
            return None;
        },
        Some(w) => w,
    };
    proof {
        lemma_matching_in_range(available@, wanted@, 0);
    }
    match matching(available, &wanted) {
        Some(i) => {
            return Some(available[i]);
        },
        None => {},
    }
    proof {
        crate::text::lemma_find_from(wanted@, '-', 0);
    }
    let language = match find_char(&wanted, '-', 0) {
        Some(i) => slice(&wanted, 0, i),
        None => slice(&wanted, 0, wanted.len()),
    };
    assert(language@ =~= language_of(wanted@));
    proof {
        lemma_matching_in_range(available@, language@, 0);
    }
    match matching(available, &language) {
        Some(i) => Some(available[i]),
        None => None,
    }
}

/// A catalogue that matches is one of those available.
proof fn lemma_matching_in_range(available: Seq<(&str, &str)>, want: Seq<char>, i: int)
    requires
        0 <= i,
    ensures
        matching_from(available, want, i) matches Some(k) ==> i <= k < available.len(),
    decreases available.len() - i,
{
    if i < available.len() && normalised(available[i].0@) != Some(want) {
        lemma_matching_in_range(available, want, i + 1);
    }
}

/// Pick a catalogue for the language asked for, and read it.
///
/// Each pair is a language tag and that language's `.po` file as text. The
/// answer is the tag chosen and the catalogue to put in force; nothing means
/// nothing matched, or nothing was asked for, and the interface stays in the
/// English its call sites are written in.
pub fn activate(available: &[(&str, &str)], preferred: Option<&str>) -> (r: Option<(String, Catalog)>)
    ensures
        match preferred {
            None => r is None,
            Some(p) => match chosen(available@, p@) {
                None => r is None,
                Some(i) => r matches Some((tag, c)) && tag@ == available@[i].0@ && c@ == parsed(
                    available@[i].1@,
                ),
            },
        },
{
    let preferred = match preferred {
        None => {
            return None;
        },
        Some(p) => p,
    };
    match choose_catalog(available, preferred) {
        None => None,
        Some((tag, text)) => {
            let tag_chars = chars_of(tag);
            Some((crate::text::string_of(&tag_chars), Catalog::parse(text)))
        },
    }
}

/// The first language setting that is set and says something, in the order
/// they are consulted.
pub open spec fn first_setting(settings: Seq<Option<Seq<char>>>) -> Option<Seq<char>>
    decreases settings.len(),
{
    if settings.len() == 0 {
        None
    } else {
        match settings[0] {
            Some(v) => if v.len() > 0 {
                Some(v)
            } else {
                first_setting(settings.drop_first())
            },
            None => first_setting(settings.drop_first()),
        }
    }
}

/// What comes before the first `:` of a list, or all of it.
pub open spec fn first_listed(s: Seq<char>) -> Seq<char> {
    match find(s, ':') {
        Some(i) => s.take(i),
        None => s,
    }
}

/// The language this person reads: the first setting that says something,
/// normalised, and what the platform says only where no setting does.
pub open spec fn preference(settings: Seq<Option<Seq<char>>>, platform: Option<Seq<char>>) -> Option<
    Seq<char>,
> {
    match first_setting(settings) {
        Some(v) => normalised(first_listed(v)),
        None => platform,
    }
}

/// The texts of the settings that are set.
pub open spec fn settings_text(settings: Seq<Option<String>>) -> Seq<Option<Seq<char>>> {
    settings.map_values(|o: Option<String>| match o {
        Some(s) => Some(s@),
        None => None,
    })
}

/// The language the platform says this person reads, in lower case, from the
/// settings the environment holds in the order they are consulted
/// (`POTEXT_LANG`, `LANGUAGE`, `LC_ALL`, `LC_MESSAGES`, `LANG`) and what the
/// desktop says beside them.
///
/// The first one that is set decides, including when what it says is `C`,
/// which means no locale and must not fall through to a `LANG` left over
/// beneath it. A list is honoured for its first entry. Where none is set, the
/// desktop's answer is taken, already normalised.
pub fn preferred_from(settings: &[Option<String>], platform: Option<String>) -> (r: Option<String>)
    ensures
        match r {
            Some(s) => preference(settings_text(settings@), match platform {
                Some(p) => Some(p@),
                None => None,
            }) == Some(s@),
            None => preference(settings_text(settings@), match platform {
                Some(p) => Some(p@),
                None => None,
            }) is None,
        },
{
    let ghost all = settings_text(settings@);
    let mut i: usize = 0;
    assert(all.skip(0) =~= all);
    while i < settings.len()
        invariant
            i <= settings.len(),
            all == settings_text(settings@),
            first_setting(all) == first_setting(all.skip(i as int)),
        decreases settings.len() - i,
    {
        assert(all.skip(i as int).drop_first() =~= all.skip(i + 1));
        if let Some(value) = &settings[i] {
            let v = chars_of(value.as_str());
            if v.len() > 0 {
                proof {
                    lemma_find_from(v@, ':', 0);
                }
                let first = match find_char(&v, ':', 0) {
                    Some(c) => slice(&v, 0, c),
                    None => slice(&v, 0, v.len()),
                };
                assert(first@ =~= first_listed(v@));
                let text = crate::text::string_of(&first);
                return normalise(text.as_str());
            }
        }
        i = i + 1;
    }
    assert(all.skip(i as int) =~= Seq::<Option<Seq<char>>>::empty());
    platform
}

/// Putting a setting that is absent, or set to nothing, anywhere among the
/// settings changes nothing about which one decides.
proof fn lemma_first_setting_skips(settings: Seq<Option<Seq<char>>>, i: int, x: Option<Seq<char>>)
    requires
        0 <= i <= settings.len(),
        x is None || x == Some(Seq::<char>::empty()),
    ensures
        first_setting(settings.insert(i, x)) == first_setting(settings),
    decreases settings.len(),
{
    let s = settings.insert(i, x);
    if i == 0 {
        assert(s.drop_first() =~= settings);
    } else {
        assert(s[0] == settings[0]);
        assert(s.drop_first() =~= settings.drop_first().insert(i - 1, x));
        lemma_first_setting_skips(settings.drop_first(), i - 1, x);
    }
}

/// The first setting that says something decides: every one before it is
/// absent or empty.
proof fn lemma_first_setting_decides(settings: Seq<Option<Seq<char>>>, i: int)
    requires
        0 <= i < settings.len(),
        settings[i] matches Some(v) && v.len() > 0,
        forall|j: int| 0 <= j < i ==> (#[trigger] settings[j] matches Some(w) ==> w.len() == 0),
    ensures
        first_setting(settings) == settings[i],
    decreases i,
{
    if i > 0 {
        assert forall|j: int| 0 <= j < i - 1 implies (#[trigger] settings.drop_first()[j] matches Some(w) ==> w.len() == 0) by {
            assert(settings.drop_first()[j] == settings[j + 1]);
        }
        lemma_first_setting_decides(settings.drop_first(), i - 1);
    }
}

/// A language setting that is set to nothing says nothing: it is passed over
/// exactly as an absent one is, wherever it stands, and the first setting
/// that says something decides, its first listed entry normalised, whatever
/// follows it and whatever the platform says.
pub proof fn law_an_empty_setting_is_passed_over(
    settings: Seq<Option<Seq<char>>>,
    platform: Option<Seq<char>>,
    i: int,
)
    requires
        0 <= i <= settings.len(),
    ensures
        preference(settings.insert(i, Some(Seq::<char>::empty())), platform) == preference(settings, platform),
        preference(settings.insert(i, None), platform) == preference(settings, platform),
        i < settings.len() && (settings[i] matches Some(v) && v.len() > 0) && (forall|j: int|
            0 <= j < i ==> (#[trigger] settings[j] matches Some(w) ==> w.len() == 0)) ==> preference(
            settings,
            platform,
        ) == normalised(first_listed(settings[i]->0)),
        (forall|j: int| 0 <= j < settings.len() ==> (#[trigger] settings[j] matches Some(w) ==> w.len() == 0))
            ==> preference(settings, platform) == platform,
{
    lemma_first_setting_skips(settings, i, Some(Seq::<char>::empty()));
    lemma_first_setting_skips(settings, i, None);
    if i < settings.len() && (settings[i] matches Some(v) && v.len() > 0) && (forall|j: int|
        0 <= j < i ==> (#[trigger] settings[j] matches Some(w) ==> w.len() == 0)) {
        lemma_first_setting_decides(settings, i);
    }
    if forall|j: int| 0 <= j < settings.len() ==> (#[trigger] settings[j] matches Some(w) ==> w.len() == 0) {
        lemma_nothing_set(settings);
    }
}

/// Settings none of which says anything give nothing.
proof fn lemma_nothing_set(settings: Seq<Option<Seq<char>>>)
    requires
        forall|j: int| 0 <= j < settings.len() ==> (#[trigger] settings[j] matches Some(w) ==> w.len() == 0),
    ensures
        first_setting(settings) is None,
    decreases settings.len(),
{
    if settings.len() > 0 {
        assert forall|j: int| 0 <= j < settings.len() - 1 implies (#[trigger] settings.drop_first()[j] matches Some(w) ==> w.len() == 0) by {
            assert(settings.drop_first()[j] == settings[j + 1]);
        }
        lemma_nothing_set(settings.drop_first());
    }
}

/// A lookup in a catalogue read from any `.po` text answers with the English
/// it was asked about or with a translation that says something: never with
/// an empty message, whichever form a count calls for.
pub proof fn law_a_lookup_never_answers_nothing(
    text: Seq<char>,
    msgid: Seq<char>,
    one: Seq<char>,
    other: Seq<char>,
    n: u64,
)
    ensures
        translated(Some(parsed(text)), msgid) == msgid || translated(Some(parsed(text)), msgid).len()
            > 0,
        plural_of(Some(parsed(text)), one, other, n) == one || plural_of(
            Some(parsed(text)),
            one,
            other,
            n,
        ) == other || plural_of(Some(parsed(text)), one, other, n).len() > 0,
{
    law_a_catalogue_serves_only_translations(text);
    let c = parsed(text);
    if c.plain.contains_key(msgid) {
        assert(servable(c.plain[msgid]));
    }
    if c.plain.contains_key(one) {
        assert(servable(c.plain[one]));
        if let MessageText::Plural(forms) = c.plain[one] {
            let wanted: int = if n != 1 { 1 } else { 0 };
            if wanted < forms.len() {
                assert(forms[wanted].len() > 0);
            }
        }
    }
}

} // verus!
