//! What this application tells the metadata tree about a document: which keys
//! are shown and not edited, and how their values are shown.

use vstd::prelude::*;

use crate::text::{chars_of, same, starts_with, starts_with_at};

verus! {

/// The metadata key naming the specification version.
pub open spec fn version_key() -> Seq<char> {
    "slipcase_version"@
}

/// The metadata key naming the payload member.
pub open spec fn payload_file_key() -> Seq<char> {
    "payload.file"@
}

/// `slpc::VERSION_KEY`, the key SPEC 2.2 names for the version.
///
/// The constant's value in the crate's source is `"slipcase_version"`; that
/// is all this claims.
#[verifier::external_body]
fn the_version_key() -> (k: &'static str)
    ensures
        k@ == version_key(),
{
    slpc::VERSION_KEY
}

/// `slpc::PAYLOAD_FILE_KEY`, the key SPEC 2.2 names for the payload.
///
/// The constant's value in the crate's source is `"payload.file"`; that is
/// all this claims.
#[verifier::external_body]
fn the_payload_file_key() -> (k: &'static str)
    ensures
        k@ == payload_file_key(),
{
    slpc::PAYLOAD_FILE_KEY
}

/// The segments of a key's path joined with dots, as `[String]::join(".")`
/// joins them.
pub open spec fn dotted(path: Seq<Seq<char>>) -> Seq<char>
    decreases path.len(),
{
    if path.len() == 0 {
        Seq::empty()
    } else if path.len() == 1 {
        path[0]
    } else {
        dotted(path.drop_last()) + seq!['.'] + path.last()
    }
}

/// Whether the key at `joined` is `required` or a table holding it.
pub open spec fn holds(required: Seq<char>, joined: Seq<char>) -> bool {
    required == joined || starts_with(required, joined.push('.'))
}

/// Whether the key at `path` is one SPEC 2.2 requires, or one holding it.
pub open spec fn protects(path: Seq<Seq<char>>) -> bool {
    holds(version_key(), dotted(path)) || holds(payload_file_key(), dotted(path))
}

/// The path of a key as its segments' texts.
pub open spec fn segments(path: Seq<String>) -> Seq<Seq<char>> {
    path.map_values(|s: String| s@)
}

/// Whether a Unicode bidirectional formatting character, the set SPEC 3
/// names: U+061C, U+200E and U+200F, U+202A to U+202E, U+2066 to U+2069.
pub open spec fn is_bidi_formatting(c: char) -> bool {
    ||| c == '\u{061C}'
    ||| ('\u{200E}' <= c && c <= '\u{200F}')
    ||| ('\u{202A}' <= c && c <= '\u{202E}')
    ||| ('\u{2066}' <= c && c <= '\u{2069}')
}

/// An uppercase hexadecimal digit.
pub open spec fn hex_digit(d: nat) -> char {
    if d < 10 {
        crate::text::digit(d)
    } else if d == 10 {
        'A'
    } else if d == 11 {
        'B'
    } else if d == 12 {
        'C'
    } else if d == 13 {
        'D'
    } else if d == 14 {
        'E'
    } else {
        'F'
    }
}

/// A character's code point in four uppercase hexadecimal digits.
pub open spec fn hex4(c: char) -> Seq<char> {
    let n = c as nat;
    seq![hex_digit(n / 4096 % 16), hex_digit(n / 256 % 16), hex_digit(n / 16 % 16), hex_digit(n % 16)]
}

/// How one character of a name is shown: a backslash doubled, a
/// bidirectional formatting character spelled out as `\u{XXXX}`, and any
/// other character as itself.
pub open spec fn shown_char(c: char) -> Seq<char> {
    if c == '\\' {
        seq!['\\', '\\']
    } else if is_bidi_formatting(c) {
        seq!['\\', 'u', '{'] + hex4(c) + seq!['}']
    } else {
        seq![c]
    }
}

/// A name in the form SPEC 3 requires it be shown in.
pub open spec fn shown(s: Seq<char>) -> Seq<char>
    decreases s.len(),
{
    if s.len() == 0 {
        Seq::empty()
    } else {
        shown(s.drop_last()) + shown_char(s.last())
    }
}

/// `slpc::display_name`: a member name in a form safe to put in front of a
/// person.
///
/// Its documentation and source say each bidirectional formatting character
/// comes back as `\u{XXXX}` in four uppercase hexadecimal digits, a backslash
/// as two, and everything else untouched; that is what this claims.
#[verifier::external_body]
fn display_name(name: &str) -> (r: String)
    ensures
        r@ == shown(name@),
{
    slpc::display_name(name).into_owned()
}

/// A member name as SPEC 3 requires it be shown: what the card heads itself
/// with.
pub fn display_name_of(name: &str) -> (r: String)
    ensures
        r@ == shown(name@),
{
    display_name(name)
}

/// What this application tells the tree about a metadata document: the two
/// keys SPEC 2.2 requires are shown and not edited, and so is the table
/// holding one.
///
/// `payload.file` names the member the container is built around, and
/// changing it without renaming that member leaves a container naming a
/// payload that is not there; `slipcase_version` is the claim the whole
/// verdict rests on. `payload` is protected as well as `payload.file`,
/// because deleting or renaming the table takes the required key inside it
/// with it.
pub struct RequiredKeys;

impl RequiredKeys {
    /// Whether the key at `path` is shown and not edited, renamed, or deleted.
    pub fn protected(&self, path: &[String]) -> (r: bool)
        ensures
            r == protects(segments(path@)),
    {
        is_protected(path)
    }

    /// A protected value as the tree shows it: escaped as SPEC 3 requires a
    /// member name be, because one of the two protected values is one.
    pub fn display_protected(&self, value: &str) -> (r: String)
        ensures
            r@ == shown(value@),
    {
        display_name(value)
    }
}

/// The segments joined with dots.
fn joined(path: &[String]) -> (r: Vec<char>)
    ensures
        r@ == dotted(segments(path@)),
{
    let mut out: Vec<char> = Vec::new();
    let mut i: usize = 0;
    while i < path.len()
        invariant
            i <= path.len(),
            out@ == dotted(segments(path@).take(i as int)),
        decreases path.len() - i,
    {
        let ghost before = segments(path@).take(i as int);
        let ghost after = segments(path@).take(i + 1);
        assert(after.drop_last() =~= before);
        if i > 0 {
            out.push('.');
        }
        let segment = chars_of(path[i].as_str());
        crate::text::append_chars(&mut out, &segment);
        i = i + 1;
    }
    assert(segments(path@).take(path.len() as int) =~= segments(path@));
    out
}

/// Whether `required` is the key at `joined` or lies under it.
fn required_under(required: &[char], joined: &[char]) -> (r: bool)
    ensures
        r == holds(required@, joined@),
{
    if same(required, joined) {
        return true;
    }
    let mut prefix = crate::text::slice(joined, 0, joined.len());
    prefix.push('.');
    assert(joined@.subrange(0, joined@.len() as int) =~= joined@);
    assert(required@.skip(0) =~= required@);
    starts_with_at(required, 0, &prefix)
}

/// Whether the key at `path` is one SPEC 2.2 requires, or one holding it.
pub fn is_protected(path: &[String]) -> (r: bool)
    ensures
        r == protects(segments(path@)),
{
    let j = joined(path);
    let version = chars_of(the_version_key());
    let payload_file = chars_of(the_payload_file_key());
    required_under(&version, &j) || required_under(&payload_file, &j)
}

/// What a string value reads as in the tree.
///
/// A value that cannot be edited is a display rather than a field, and is
/// shown escaped. An editable one is left as it is: escaping a value
/// somebody can type into would write the escape back the first time the
/// field was touched.
pub fn displayed(value: &str, editable: bool) -> (r: String)
    ensures
        r@ == if editable {
            value@
        } else {
            shown(value@)
        },
{
    if editable {
        value.to_owned()
    } else {
        display_name(value)
    }
}

/// The tree protects a table holding a protected key: every shorter path
/// that a protected path begins with is protected too.
pub proof fn law_what_holds_a_protected_key_is_protected(path: Seq<Seq<char>>, i: int)
    requires
        protects(path),
        1 <= i <= path.len(),
    ensures
        protects(path.take(i)),
{
    lemma_dotted_prefix(path, i);
    let whole = dotted(path);
    let part = dotted(path.take(i));
    if i < path.len() {
        let rest = whole.skip((part.len() + 1) as int);
        assert(whole =~= part.push('.') + rest);
        if holds(version_key(), whole) {
            assert(version_key().take((part.len() + 1) as int) =~= part.push('.'));
        }
        if holds(payload_file_key(), whole) {
            assert(payload_file_key().take((part.len() + 1) as int) =~= part.push('.'));
        }
    } else {
        assert(path.take(i) =~= path);
    }
}

/// Joining a path begins with joining any non-empty prefix of it, and a dot
/// follows where the prefix is shorter.
proof fn lemma_dotted_prefix(path: Seq<Seq<char>>, i: int)
    requires
        1 <= i <= path.len(),
    ensures
        dotted(path).take(dotted(path.take(i)).len() as int) == dotted(path.take(i)),
        dotted(path.take(i)).len() <= dotted(path).len(),
        i < path.len() ==> dotted(path.take(i)).len() < dotted(path).len() && dotted(path)[dotted(
            path.take(i),
        ).len() as int] == '.',
    decreases path.len(),
{
    if i == path.len() {
        assert(path.take(i) =~= path);
        assert(dotted(path).take(dotted(path).len() as int) =~= dotted(path));
    } else {
        let shorter = path.drop_last();
        lemma_dotted_prefix(shorter, i);
        assert(shorter.take(i) =~= path.take(i));
        let d = dotted(shorter);
        assert(dotted(path) == d + seq!['.'] + path.last());
        let p = dotted(path.take(i));
        assert(dotted(path).take(d.len() as int) =~= d);
        assert(dotted(path).take(p.len() as int) =~= d.take(p.len() as int));
        if i < shorter.len() {
        } else {
            assert(shorter.take(i) =~= shorter);
            assert(p == d);
            assert(dotted(path)[d.len() as int] == '.');
        }
    }
}

/// What the tree shows of a name holds no bidirectional formatting character:
/// nothing left in it reorders anything, so an override cannot hide the end
/// of a name.
pub proof fn law_a_shown_name_reorders_nothing(name: Seq<char>)
    ensures
        forall|i: int| 0 <= i < shown(name).len() ==> !is_bidi_formatting(#[trigger] shown(name)[i]),
    decreases name.len(),
{
    if name.len() > 0 {
        law_a_shown_name_reorders_nothing(name.drop_last());
        let head = shown(name.drop_last());
        let tail = shown_char(name.last());
        assert(shown(name) == head + tail);
        assert forall|i: int| 0 <= i < tail.len() implies !is_bidi_formatting(#[trigger] tail[i]) by {
            let c = name.last();
            if c != '\\' && is_bidi_formatting(c) {
                let n = c as nat;
                assert(n / 4096 % 16 < 16);
                assert(n / 256 % 16 < 16);
                assert(n / 16 % 16 < 16);
                assert(n % 16 < 16);
            }
        }
        assert forall|i: int| 0 <= i < shown(name).len() implies !is_bidi_formatting(#[trigger] shown(name)[i]) by {
            if i < head.len() {
                assert(shown(name)[i] == head[i]);
            } else {
                assert(shown(name)[i] == tail[i - head.len()]);
            }
        }
    }
}

/// Showing a name is showing each part of it in turn.
proof fn lemma_shown_append(a: Seq<char>, b: Seq<char>)
    ensures
        shown(a + b) == shown(a) + shown(b),
    decreases b.len(),
{
    if b.len() == 0 {
        assert(a + b =~= a);
        assert(shown(a) + shown(b) =~= shown(a));
    } else {
        lemma_shown_append(a, b.drop_last());
        assert((a + b).drop_last() =~= a + b.drop_last());
        assert((a + b).last() == b.last());
        assert(shown(a) + shown(b) =~= shown(a) + shown(b.drop_last()) + shown_char(b.last()));
    }
}

/// A name is shown as its first character's form and then the rest's.
proof fn lemma_shown_first(s: Seq<char>)
    requires
        s.len() > 0,
    ensures
        shown(s) == shown_char(s[0]) + shown(s.drop_first()),
{
    lemma_shown_append(seq![s[0]], s.drop_first());
    assert(seq![s[0]] + s.drop_first() =~= s);
    assert(shown(seq![s[0]]) == shown(Seq::<char>::empty()) + shown_char(s[0])) by {
        assert(seq![s[0]].drop_last() =~= Seq::<char>::empty());
    }
    assert(shown(Seq::<char>::empty()) + shown_char(s[0]) =~= shown_char(s[0]));
}

proof fn lemma_hex_digit(x: nat, y: nat)
    requires
        x < 16,
        y < 16,
        hex_digit(x) == hex_digit(y),
    ensures
        x == y,
{
}

/// Four hexadecimal digits name one code point.
proof fn lemma_hex4(a: char, b: char)
    requires
        is_bidi_formatting(a),
        is_bidi_formatting(b),
        hex4(a) == hex4(b),
    ensures
        a == b,
{
    let x = a as nat;
    let y = b as nat;
    assert(hex4(a)[0] == hex4(b)[0]);
    assert(hex4(a)[1] == hex4(b)[1]);
    assert(hex4(a)[2] == hex4(b)[2]);
    assert(hex4(a)[3] == hex4(b)[3]);
    lemma_hex_digit(x / 4096 % 16, y / 4096 % 16);
    lemma_hex_digit(x / 256 % 16, y / 256 % 16);
    lemma_hex_digit(x / 16 % 16, y / 16 % 16);
    lemma_hex_digit(x % 16, y % 16);
    assert(x == 4096 * (x / 4096 % 16) + 256 * (x / 256 % 16) + 16 * (x / 16 % 16) + x % 16) by (nonlinear_arith)
        requires
            x < 65536,
    ;
    assert(y == 4096 * (y / 4096 % 16) + 256 * (y / 256 % 16) + 16 * (y / 16 % 16) + y % 16) by (nonlinear_arith)
        requires
            y < 65536,
    ;
}

/// Where two shown names agree, their first characters were shown the
/// same way.
proof fn lemma_first_forms_agree(a: char, b: char, ra: Seq<char>, rb: Seq<char>)
    requires
        shown_char(a) + ra == shown_char(b) + rb,
    ensures
        a == b,
{
    let t = shown_char(a) + ra;
    assert(t[0] == shown_char(a)[0]);
    assert(t[0] == shown_char(b)[0]);
    if a != '\\' && !is_bidi_formatting(a) {
        assert(b != '\\' && !is_bidi_formatting(b));
    } else if b != '\\' && !is_bidi_formatting(b) {
    } else {
        assert(t[1] == shown_char(a)[1]);
        assert(t[1] == shown_char(b)[1]);
        if a == '\\' {
            assert(b == '\\');
        } else {
            assert(is_bidi_formatting(b));
            assert forall|i: int| 0 <= i < 4 implies hex4(a)[i] == hex4(b)[i] by {
                assert(t[3 + i] == shown_char(a)[3 + i]);
                assert(t[3 + i] == shown_char(b)[3 + i]);
            }
            assert(hex4(a) =~= hex4(b));
            lemma_hex4(a, b);
        }
    }
}

/// Two different names are never shown the same: the escaping can be read
/// back, so a name that spells an escape is told apart from one holding the
/// character it names.
pub proof fn law_no_two_names_are_shown_alike(a: Seq<char>, b: Seq<char>)
    requires
        shown(a) == shown(b),
    ensures
        a == b,
    decreases a.len() + b.len(),
{
    if a.len() == 0 || b.len() == 0 {
        if a.len() > 0 {
            lemma_shown_first(a);
        }
        if b.len() > 0 {
            lemma_shown_first(b);
        }
        assert(a =~= b);
    } else {
        lemma_shown_first(a);
        lemma_shown_first(b);
        lemma_first_forms_agree(a[0], b[0], shown(a.drop_first()), shown(b.drop_first()));
        let f = shown_char(a[0]);
        assert(shown(a.drop_first()) =~= shown(a).skip(f.len() as int));
        assert(shown(b.drop_first()) =~= shown(b).skip(f.len() as int));
        law_no_two_names_are_shown_alike(a.drop_first(), b.drop_first());
        assert(a =~= seq![a[0]] + a.drop_first());
        assert(b =~= seq![b[0]] + b.drop_first());
    }
}

} // verus!
