//! What the metadata tree reads out of a document's text: the comments
//! around a key, and a date or time typed into a field.

use vstd::prelude::*;

use crate::text::{
    chars_of, find, lemma_find_from, lines, next_line, push_chars, slice, string_of, trim, trim_bounds, find_char,
};

verus! {

/// The comment a line of decor holds, with its `#` and the whitespace around
/// it removed, where the line is a comment.
pub open spec fn comment_of(line: Seq<char>) -> Option<Seq<char>> {
    let t = trim(line);
    if t.len() > 0 && t[0] == '#' {
        Some(trim(t.drop_first()))
    } else {
        None
    }
}

/// The comments among some lines, in order.
pub open spec fn comments(ls: Seq<Seq<char>>) -> Seq<Seq<char>>
    decreases ls.len(),
{
    if ls.len() == 0 {
        Seq::empty()
    } else {
        match comment_of(ls[0]) {
            Some(c) => seq![c] + comments(ls.drop_first()),
            None => comments(ls.drop_first()),
        }
    }
}

/// The texts of some strings.
pub open spec fn texts(v: Seq<String>) -> Seq<Seq<char>> {
    v.map_values(|s: String| s@)
}

/// The comment lines in a piece of decor, with their `#` and their
/// surrounding whitespace removed.
///
/// Decor holds blank lines and indentation as well as comments, so this
/// keeps only the lines that are comments. Decor whose text is not there to
/// read has nothing to show.
pub fn comment_lines(raw: Option<&str>) -> (r: Vec<String>)
    ensures
        texts(r@) == match raw {
            Some(text) => comments(lines(text@)),
            None => Seq::<Seq<char>>::empty(),
        },
{
    let mut out: Vec<String> = Vec::new();
    let text = match raw {
        Some(text) => text,
        None => {
            assert(texts(out@) =~= Seq::<Seq<char>>::empty());
            return out;
        },
    };
    let v = chars_of(text);
    let mut pos: usize = 0;
    assert(v@.skip(0) =~= v@);
    assert(texts(out@) =~= Seq::<Seq<char>>::empty());
    while pos < v.len()
        invariant
            pos <= v.len(),
            v@ == text@,
            texts(out@) + comments(lines(v@.skip(pos as int))) == comments(lines(text@)),
        decreases v.len() - pos,
    {
        let (end, next, _) = next_line(&v, pos);
        let ghost rest = v@.skip(pos as int);
        let ghost line = v@.subrange(pos as int, end as int);
        proof {
            assert(lines(rest)[0] == line);
            assert(lines(rest).drop_first() == lines(v@.skip(next as int)));
        }
        let (lo, hi) = trim_bounds(&v, pos, end);
        if lo < hi && v[lo] == '#' {
            let (a, b) = trim_bounds(&v, lo + 1, hi);
            assert(v@.subrange(lo + 1, hi as int) =~= v@.subrange(lo as int, hi as int).drop_first());
            let c = string_of(&slice(&v, a, b));
            let ghost before = out@;
            out.push(c);
            assert(texts(out@) =~= texts(before) + seq![c@]);
            assert(texts(out@) + comments(lines(v@.skip(next as int))) =~= texts(before) + comments(
                lines(rest),
            ));
        }
        pos = next;
    }
    proof {
        assert(v@.skip(pos as int) =~= Seq::<char>::empty());
        assert(lines(Seq::<char>::empty()) =~= Seq::<Seq<char>>::empty());
        assert(texts(out@) + Seq::<Seq<char>>::empty() =~= texts(out@));
    }
    out
}

/// Lines joined with single spaces.
pub open spec fn spaced(ls: Seq<Seq<char>>) -> Seq<char>
    decreases ls.len(),
{
    if ls.len() == 0 {
        Seq::empty()
    } else if ls.len() == 1 {
        ls[0]
    } else {
        spaced(ls.drop_last()) + seq![' '] + ls.last()
    }
}

/// Several comment lines as the one line a row has room for.
pub fn joined(lines: &[String]) -> (r: Option<String>)
    ensures
        match r {
            Some(s) => lines@.len() > 0 && s@ == spaced(texts(lines@)),
            None => lines@.len() == 0,
        },
{
    if lines.len() == 0 {
        return None;
    }
    let mut out = String::new();
    let mut i: usize = 0;
    assert(out@ =~= spaced(texts(lines@).take(0)));
    while i < lines.len()
        invariant
            i <= lines.len(),
            out@ == spaced(texts(lines@).take(i as int)),
        decreases lines.len() - i,
    {
        assert(texts(lines@).take(i + 1).drop_last() =~= texts(lines@).take(i as int));
        if i > 0 {
            crate::text::push_char(&mut out, ' ');
        }
        push_chars(&mut out, &chars_of(lines[i].as_str()));
        i = i + 1;
    }
    assert(texts(lines@).take(lines.len() as int) =~= texts(lines@));
    Some(out)
}

/// What TOML reads a date or time written as `text` as, written back in its
/// own form; nothing where it reads no date or time there.
pub uninterp spec fn datetime_read(text: Seq<char>) -> Option<Seq<char>>;

/// `toml_edit::Datetime`'s `FromStr`, and its `Display` on what that read.
///
/// Deterministic: what comes back depends on the text alone. Nothing more is
/// claimed of it; what it accepts is TOML's grammar for dates and times.
#[verifier::external_body]
fn read_datetime(text: &str) -> (r: Option<String>)
    ensures
        match r {
            Some(s) => datetime_read(text@) == Some(s@),
            None => datetime_read(text@) is None,
        },
{
    text.parse::<slpc::toml_edit::Datetime>().ok().map(|d| d.to_string())
}

/// The last position before `i` holding anything but an ASCII digit.
pub open spec fn last_non_digit_before(s: Seq<char>, i: int) -> Option<int>
    decreases i,
{
    if i <= 0 || i > s.len() {
        None
    } else if !('0' <= s[i - 1] && s[i - 1] <= '9') {
        Some(i - 1)
    } else {
        last_non_digit_before(s, i - 1)
    }
}

/// A time whose hour was written with one digit, with the leading zero TOML
/// wants put back; nothing where the text is not that.
///
/// The hour is what runs up to the first colon, after a date and its `T`
/// where there is one. A single digit there has one reading and no other.
pub open spec fn with_hour_padded(text: Seq<char>) -> Option<Seq<char>> {
    match find(text, ':') {
        None => None,
        Some(colon) => {
            let before = text.take(colon);
            let hour_at = match last_non_digit_before(before, before.len() as int) {
                Some(i) => i + 1,
                None => 0,
            };
            if before.len() - hour_at != 1 {
                None
            } else {
                Some(before.take(hour_at) + seq!['0'] + before.skip(hour_at) + text.skip(colon))
            }
        },
    }
}

proof fn lemma_last_non_digit(s: Seq<char>, i: int)
    requires
        0 <= i <= s.len(),
    ensures
        match last_non_digit_before(s, i) {
            Some(k) => 0 <= k < i,
            None => true,
        },
    decreases i,
{
    if i > 0 && '0' <= s[i - 1] && s[i - 1] <= '9' {
        lemma_last_non_digit(s, i - 1);
    }
}

/// The text with a one-digit hour given its leading zero, where it has one.
pub fn hour_padded(text: &str) -> (r: Option<String>)
    ensures
        match r {
            Some(s) => with_hour_padded(text@) == Some(s@),
            None => with_hour_padded(text@) is None,
        },
{
    let v = chars_of(text);
    proof {
        lemma_find_from(v@, ':', 0);
    }
    let colon = match find_char(&v, ':', 0) {
        Some(c) => c,
        None => {
            return None;
        },
    };
    let ghost before = v@.take(colon as int);
    let mut i: usize = colon;
    while i > 0 && '0' <= v[i - 1] && v[i - 1] <= '9'
        invariant
            i <= colon < v.len(),
            before == v@.take(colon as int),
            last_non_digit_before(before, colon as int) == last_non_digit_before(before, i as int),
        decreases i,
    {
        i = i - 1;
    }
    let hour_at: usize = i;
    proof {
        if i > 0 {
            assert(last_non_digit_before(before, i as int) == Some(i - 1));
        }
    }
    if colon - hour_at != 1 {
        return None;
    }
    let mut out: Vec<char> = slice(&v, 0, hour_at);
    out.push('0');
    crate::text::append_chars(&mut out, &slice(&v, hour_at, v.len()));
    assert(out@ =~= before.take(hour_at as int) + seq!['0'] + before.skip(hour_at as int) + v@.skip(
        colon as int,
    ));
    Some(string_of(&out))
}

/// What a date or time read out of `text` comes to: TOML's reading of the
/// text, or of the text with a one-digit hour padded where it has none.
pub open spec fn datetime_in(text: Seq<char>) -> Option<Seq<char>> {
    match datetime_read(text) {
        Some(d) => Some(d),
        None => match with_hour_padded(text) {
            Some(fixed) => datetime_read(fixed),
            None => None,
        },
    }
}

/// Read a date or time, putting back the leading zero TOML wants on an hour.
///
/// `19:00` is a time and `9:00` is not, which is the format's grammar rather
/// than anything a person should carry in their head while typing into a
/// field. Nothing else is repaired: `18.00.00` and `1800` stay refused,
/// because guessing at those would be guessing. The answer is the date or
/// time as TOML writes it.
pub fn parse_datetime(text: &str) -> (r: Option<String>)
    ensures
        match r {
            Some(s) => datetime_in(text@) == Some(s@),
            None => datetime_in(text@) is None,
        },
{
    if let Some(read) = read_datetime(text) {
        return Some(read);
    }
    match hour_padded(text) {
        Some(fixed) => read_datetime(fixed.as_str()),
        None => None,
    }
}

} // verus!
