//! How Windows names a payload's type and the application behind it: the
//! shapes of what the registry holds, read without the registry.

use vstd::prelude::*;
use vstd::string::StrSliceExecFns;

use crate::text::{
    chars_of, find, find_char, is_whitespace, lemma_find_from, lemma_find_skip,
    lemma_rfind_before, push_chars, rfind, rfind_char, slice, trim, trim_bounds,
    trim_start, is_ws,
};

verus! {

/// Whether a name holds a path separator of either kind.
pub open spec fn has_separator(name: Seq<char>) -> bool {
    name.contains('/') || name.contains('\\')
}

/// The extension Windows keys an association on: everything from the last
/// dot, the dot included, where something follows it.
pub open spec fn windows_extension(name: Seq<char>) -> Option<Seq<char>> {
    if name.len() == 0 || has_separator(name) {
        None
    } else {
        match rfind(name, '.') {
            None => None,
            Some(dot) => if dot + 1 == name.len() {
                None
            } else {
                Some(name.skip(dot))
            },
        }
    }
}

/// Whether `v` holds `c` anywhere.
pub fn holds_char(v: &[char], c: char) -> (r: bool)
    ensures
        r == v@.contains(c),
{
    proof {
        lemma_find_from(v@, c, 0);
    }
    match find_char(v, c, 0) {
        Some(_) => true,
        None => {
            assert(!v@.contains(c));
            false
        },
    }
}

/// The payload's extension, dot included, as Windows counts it.
///
/// Everything from the last dot, so `report.tar.gz` is `.gz` and
/// `.gitignore` is all extension, which is the shape the registry keys a name
/// on. A name with no dot, or nothing after it, has no extension. A name
/// holding a separator is no payload's, and would turn an extension into a
/// registry path.
pub fn extension_of(payload_name: &str) -> (r: Option<String>)
    ensures
        match r {
            Some(e) => windows_extension(payload_name@) == Some(e@),
            None => windows_extension(payload_name@) is None,
        },
{
    let v = chars_of(payload_name);
    if v.len() == 0 || holds_char(&v, '/') || holds_char(&v, '\\') {
        return None;
    }
    proof {
        lemma_rfind_before(v@, '.', v.len() as int);
    }
    match rfind_char(&v, '.', v.len()) {
        None => None,
        Some(dot) => {
            if dot + 1 == v.len() {
                None
            } else {
                let e = slice(&v, dot, v.len());
                assert(e@ =~= v@.skip(dot as int));
                Some(crate::text::string_of(&e))
            }
        },
    }
}

/// Whether a registry string points into a resource table instead of holding
/// a name: both shapes of reference, the classic and the packaged, begin with
/// `@`.
pub fn is_indirect(value: &str) -> (r: bool)
    ensures
        r == (value@.len() > 0 && value@[0] == '@'),
{
    let v = chars_of(value);
    v.len() > 0 && v[0] == '@'
}

/// A registry string as the card would show it: trimmed, and nothing where
/// it is empty or a resource reference.
pub open spec fn shown_value(read: Seq<char>) -> Option<Seq<char>> {
    let t = trim(read);
    if t.len() == 0 || t[0] == '@' {
        None
    } else {
        Some(t)
    }
}

/// One registry string, where what it holds can be shown to a person.
///
/// The indirect check sits here so that no path through the registry can put
/// a resource reference on the card.
pub fn value_shown(read: &str) -> (r: Option<String>)
    ensures
        match r {
            Some(s) => shown_value(read@) == Some(s@),
            None => shown_value(read@) is None,
        },
{
    let v = chars_of(read);
    let (lo, hi) = trim_bounds(&v, 0, v.len());
    assert(v@.subrange(0, v.len() as int) =~= read@);
    if lo == hi || v[lo] == '@' {
        None
    } else {
        Some(crate::text::string_of(&slice(&v, lo, hi)))
    }
}

/// The one candidate under `OpenWithProgids`, where there is exactly one and
/// it has a name: more than one is no default, and picking among them would
/// be a guess.
pub fn sole_candidate(names: &[String]) -> (r: Option<String>)
    ensures
        r == (if names@.len() == 1 && names@[0]@.len() > 0 {
            Some(names@[0])
        } else {
            None::<String>
        }),
{
    if names.len() != 1 {
        return None;
    }
    let only = names[0].clone();
    if only.as_str().unicode_len() == 0 {
        None
    } else {
        Some(only)
    }
}

/// The first position at or after `i` holding whitespace, or the end.
pub open spec fn ws_from(s: Seq<char>, i: int) -> int
    decreases s.len() - i,
{
    if i < 0 || i >= s.len() {
        s.len() as int
    } else if is_ws(s[i]) {
        i
    } else {
        ws_from(s, i + 1)
    }
}

/// The executable a shell open command runs: quoted where the path holds
/// spaces and running to the closing quote, bare otherwise and running to
/// the first whitespace. Nothing where that is empty or a quote never closes.
pub open spec fn exe_path(command: Seq<char>) -> Option<Seq<char>> {
    let c = trim_start(command);
    let path = if c.len() > 0 && c[0] == '"' {
        match find(c.drop_first(), '"') {
            Some(j) => Some(c.drop_first().take(j)),
            None => None,
        }
    } else if c.len() == 0 {
        None
    } else {
        Some(c.take(ws_from(c, 0)))
    };
    match path {
        Some(p) => if p.len() == 0 {
            None
        } else {
            Some(p)
        },
        None => None,
    }
}

proof fn lemma_ws_from(s: Seq<char>, i: int)
    requires
        0 <= i <= s.len(),
    ensures
        i <= ws_from(s, i) <= s.len(),
        ws_from(s, i) < s.len() ==> is_ws(s[ws_from(s, i)]),
    decreases s.len() - i,
{
    if i < s.len() && !is_ws(s[i]) {
        lemma_ws_from(s, i + 1);
    }
}

/// The executable in a shell open command.
///
/// Splitting on whitespace alone loses the quoted path every application
/// under Program Files has; splitting on quotes alone loses the bare paths,
/// of which Explorer's is one and puts no space before its arguments.
pub fn exe_path_in(command: &str) -> (r: Option<&str>)
    ensures
        match r {
            Some(p) => exe_path(command@) == Some(p@),
            None => exe_path(command@) is None,
        },
{
    let v = chars_of(command);
    let (lo, _) = trim_bounds(&v, 0, v.len());
    assert(v@.subrange(0, v.len() as int) =~= command@);
    let ghost c = trim_start(command@);
    assert(c =~= v@.subrange(lo as int, v.len() as int));
    let (from, to): (usize, usize) = if lo < v.len() && v[lo] == '"' {
        proof {
            lemma_find_skip(v@, '"', lo + 1);
            lemma_find_from(v@, '"', lo + 1);
            assert(c.drop_first() =~= v@.skip(lo + 1));
        }
        match find_char(&v, '"', lo + 1) {
            Some(close) => {
                assert(c.drop_first().take(close - (lo + 1)) =~= v@.subrange(lo + 1, close as int));
                (lo + 1, close)
            },
            None => {
                return None;
            },
        }
    } else if lo == v.len() {
        return None;
    } else {
        let mut end: usize = lo;
        while end < v.len() && !is_whitespace(v[end])
            invariant
                lo <= end <= v.len(),
                c =~= v@.subrange(lo as int, v.len() as int),
                ws_from(c, 0) == ws_from(c, end - lo),
            decreases v.len() - end,
        {
            end = end + 1;
        }
        assert(ws_from(c, (end - lo) as int) == (end - lo) as int);
        assert(c.take((end - lo) as int) =~= v@.subrange(lo as int, end as int));
        (lo, end)
    };
    if from == to {
        None
    } else {
        Some(command.substring_char(from, to))
    }
}

/// What a text of characters is, where there is one.
pub open spec fn opt_text(r: Option<String>) -> Option<Seq<char>> {
    match r {
        Some(s) => Some(s@),
        None => None,
    }
}

/// Whether `value` names what `lookup` answers: every answer `lookup` can
/// give for a name is `value` of that name.
pub open spec fn answers_as<F: Fn(&str) -> Option<String>>(
    lookup: F,
    value: spec_fn(Seq<char>) -> Option<Seq<char>>,
) -> bool {
    forall|s: &str, r: Option<String>| #[trigger] call_ensures(lookup, (s,), r) ==> value(s@) == opt_text(r)
}

/// A text with each `%NAME%` replaced by what `value` gives the name, and
/// left standing where it gives nothing.
///
/// One pass from the left: what a value holds is never read again, and a `%`
/// that no second one closes leaves the rest of the text as it is.
pub open spec fn expanded(text: Seq<char>, value: spec_fn(Seq<char>) -> Option<Seq<char>>) -> Seq<char>
    decreases text.len(),
{
    match find(text, '%') {
        None => text,
        Some(start) => {
            let after = text.skip(start + 1);
            match find(after, '%') {
                None => text,
                Some(close) => {
                    proof {
                        lemma_find_from(text, '%', 0);
                        lemma_find_from(after, '%', 0);
                    }
                    let name = after.take(close);
                    text.take(start) + (match value(name) {
                        Some(v) => v,
                        None => seq!['%'] + name + seq!['%'],
                    }) + expanded(after.skip(close + 1), value)
                },
            }
        },
    }
}

proof fn lemma_expanded_step(
    rest: Seq<char>,
    value: spec_fn(Seq<char>) -> Option<Seq<char>>,
    o: int,
    c: int,
)
    requires
        find(rest, '%') == Some(o),
        find(rest.skip(o + 1), '%') == Some(c),
    ensures
        0 <= o < rest.len(),
        0 <= c,
        o + 1 + c < rest.len(),
        expanded(rest, value) == rest.take(o) + (match value(rest.subrange(o + 1, o + 1 + c)) {
            Some(v) => v,
            None => seq!['%'] + rest.subrange(o + 1, o + 1 + c) + seq!['%'],
        }) + expanded(rest.skip(o + 1 + c + 1), value),
{
    lemma_find_from(rest, '%', 0);
    lemma_find_from(rest.skip(o + 1), '%', 0);
    assert(rest.skip(o + 1).take(c) =~= rest.subrange(o + 1, o + 1 + c));
    assert(rest.skip(o + 1).skip(c + 1) =~= rest.skip(o + 1 + c + 1));
}

/// One `%NAME%` read: what was written so far, with what the lookup gave,
/// still begins the expansion of the whole text for every reading of the
/// lookup.
proof fn lemma_expanded_progress<F: Fn(&str) -> Option<String>>(
    lookup: F,
    t: Seq<char>,
    pos: int,
    open: int,
    close: int,
    before_out: Seq<char>,
    out: Seq<char>,
    asked: &str,
    got: Option<String>,
)
    requires
        0 <= pos <= t.len(),
        find(t.skip(pos), '%') == Some(open - pos),
        find(t.skip(pos).skip(open - pos + 1), '%') == Some(close - (open + 1)),
        asked@ == t.subrange(open + 1, close),
        call_ensures(lookup, (asked,), got),
        out == before_out + t.subrange(pos, open) + (match opt_text(got) {
            Some(v) => v,
            None => seq!['%'] + asked@ + seq!['%'],
        }),
        forall|value: spec_fn(Seq<char>) -> Option<Seq<char>>| #[trigger]
            answers_as(lookup, value) ==> before_out + expanded(t.skip(pos), value) == expanded(
                t,
                value,
            ),
    ensures
        close + 1 <= t.len(),
        forall|value: spec_fn(Seq<char>) -> Option<Seq<char>>| #[trigger]
            answers_as(lookup, value) ==> out + expanded(t.skip(close + 1), value) == expanded(
                t,
                value,
            ),
{
    let rest = t.skip(pos);
    lemma_expanded_step(rest, |n: Seq<char>| None::<Seq<char>>, open - pos, close - (open + 1));
    assert(rest.take(open - pos) =~= t.subrange(pos, open));
    assert(rest.subrange(open - pos + 1, close - pos) =~= t.subrange(open + 1, close));
    assert(rest.skip(close - pos + 1) =~= t.skip(close + 1));
    assert forall|value: spec_fn(Seq<char>) -> Option<Seq<char>>| #[trigger]
        answers_as(lookup, value) implies out + expanded(t.skip(close + 1), value) == expanded(
        t,
        value,
    ) by {
        lemma_expanded_step(rest, value, open - pos, close - (open + 1));
        assert(value(asked@) == opt_text(got));
        assert(before_out + expanded(rest, value) == expanded(t, value));
        assert(out + expanded(t.skip(close + 1), value) =~= before_out + expanded(rest, value));
    }
}

/// `%NAME%` replaced with what the lookup gives, and left standing where it
/// gives nothing.
///
/// A path left holding a literal `%SystemRoot%` matches no key and no cache
/// entry, which is the honest failure; substituting an empty string would
/// build a path that could match something else.
pub fn expand_in<F: Fn(&str) -> Option<String>>(text: &str, lookup: F) -> (out: String)
    requires
        forall|s: &str| call_requires(lookup, (s,)),
    ensures
        forall|value: spec_fn(Seq<char>) -> Option<Seq<char>>| #[trigger]
            answers_as(lookup, value) ==> out@ == expanded(text@, value),
{
    let t = chars_of(text);
    let mut out = String::new();
    let mut pos: usize = 0;
    assert(t@.skip(0) =~= t@);
    while pos < t.len()
        invariant
            pos <= t.len(),
            t@ == text@,
            forall|s: &str| call_requires(lookup, (s,)),
            forall|value: spec_fn(Seq<char>) -> Option<Seq<char>>| #[trigger]
                answers_as(lookup, value) ==> out@ + expanded(t@.skip(pos as int), value)
                    == expanded(t@, value),
        decreases t.len() - pos,
    {
        let ghost rest = t@.skip(pos as int);
        let ghost before_out = out@;
        proof {
            lemma_find_skip(t@, '%', pos as int);
            lemma_find_from(t@, '%', pos as int);
        }
        let found = find_char(&t, '%', pos);
        let mut closing: Option<usize> = None;
        if let Some(open) = found {
            proof {
                lemma_find_skip(t@, '%', open + 1);
                lemma_find_from(t@, '%', open + 1);
                assert(rest.skip(open - pos + 1) =~= t@.skip(open + 1));
            }
            closing = find_char(&t, '%', open + 1);
        }
        match (found, closing) {
            (Some(open), Some(close)) => {
                let before = slice(&t, pos, open);
                let name = slice(&t, open + 1, close);
                assert(before@ =~= rest.take(open - pos));
                assert(name@ =~= rest.subrange(open - pos + 1, close - pos));
                assert(rest.skip(close - pos + 1) =~= t@.skip(close + 1));
                push_chars(&mut out, &before);
                let name_text = crate::text::string_of(&name);
                let asked = name_text.as_str();
                let got = lookup(asked);
                match &got {
                    Some(v) => {
                        let vc = chars_of(v.as_str());
                        push_chars(&mut out, &vc);
                        assert(out@ =~= before_out + before@ + v@);
                    },
                    None => {
                        crate::text::push_char(&mut out, '%');
                        push_chars(&mut out, &name);
                        crate::text::push_char(&mut out, '%');
                        assert(out@ =~= before_out + before@ + (seq!['%'] + name@ + seq!['%']));
                    },
                }
                assert(asked@ == name@);
                proof {
                    lemma_expanded_progress(
                        lookup,
                        t@,
                        pos as int,
                        open as int,
                        close as int,
                        before_out,
                        out@,
                        asked,
                        got,
                    );
                }
                pos = close + 1;
            },
            _ => {
                let tail = slice(&t, pos, t.len());
                assert(tail@ =~= rest);
                push_chars(&mut out, &tail);
                proof {
                    assert forall|value: spec_fn(Seq<char>) -> Option<Seq<char>>| #[trigger]
                        answers_as(lookup, value) implies out@ == expanded(t@, value) by {
                        assert(expanded(rest, value) == rest);
                    }
                }
                return out;
            },
        }
    }
    proof {
        assert(t@.skip(pos as int) =~= Seq::<char>::empty());
        assert forall|value: spec_fn(Seq<char>) -> Option<Seq<char>>| #[trigger]
            answers_as(lookup, value) implies out@ == expanded(t@, value) by {
            assert(expanded(Seq::<char>::empty(), value) == Seq::<char>::empty());
            assert(out@ + Seq::<char>::empty() =~= out@);
        }
    }
    out
}

/// What follows the last backslash of a path, or the whole of it where it
/// holds none.
pub open spec fn last_component(path: Seq<char>) -> Seq<char> {
    match rfind(path, '\\') {
        Some(i) => path.skip(i + 1),
        None => path,
    }
}

/// The file name an executable's path ends in, where it ends in one: the
/// key an application's friendly name is registered under.
pub fn file_name_in(executable: &str) -> (r: Option<&str>)
    ensures
        match r {
            Some(f) => f@ == last_component(executable@) && f@.len() > 0,
            None => last_component(executable@).len() == 0,
        },
{
    let v = chars_of(executable);
    proof {
        lemma_rfind_before(v@, '\\', v.len() as int);
    }
    let from: usize = match rfind_char(&v, '\\', v.len()) {
        Some(i) => i + 1,
        None => 0,
    };
    assert(executable@.skip(0) =~= executable@);
    assert(executable@.subrange(from as int, v.len() as int) =~= executable@.skip(from as int));
    if from == v.len() {
        None
    } else {
        Some(executable.substring_char(from, v.len()))
    }
}

/// With a lookup that knows no name, expanding changes nothing: every
/// `%NAME%` stays standing, and so does an unclosed `%`.
pub proof fn law_an_unknown_variable_is_left_standing(text: Seq<char>)
    ensures
        expanded(text, |n: Seq<char>| None::<Seq<char>>) == text,
    decreases text.len(),
{
    let none = |n: Seq<char>| None::<Seq<char>>;
    if let Some(o) = find(text, '%') {
        if let Some(c) = find(text.skip(o + 1), '%') {
            lemma_expanded_step(text, none, o, c);
            lemma_find_from(text, '%', 0);
            lemma_find_from(text.skip(o + 1), '%', 0);
            assert(text[o] == '%');
            assert(text[o + 1 + c] == text.skip(o + 1)[c]);
            law_an_unknown_variable_is_left_standing(text.skip(o + 1 + c + 1));
            assert(text =~= text.take(o) + (seq!['%'] + text.subrange(o + 1, o + 1 + c) + seq!['%'])
                + text.skip(o + 1 + c + 1));
        }
    }
}

} // verus!
