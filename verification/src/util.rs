//! Text that is safe to show in an embed.

use vstd::prelude::*;

use crate::text::chars_of;

verus! {

/// The characters that Discord may read as formatting wherever they stand, and the backslash that
/// takes the meaning from them.
pub open spec fn is_markup(c: char) -> bool {
    c == '\\' || c == '*' || c == '_' || c == '~' || c == '`' || c == '|' || c == '>'
}

/// The blanks that separate a mark at the start of a line from what it stands before.
pub open spec fn is_blank(c: char) -> bool {
    c == ' ' || c == '\t'
}

/// Where in its line a character stands.
#[derive(Clone, Copy, Debug, PartialEq, Eq, Structural)]
pub enum Place {
    /// Nothing but blanks precedes it.
    LineStart,
    /// Nothing but blanks and then a number precedes it.
    BehindNumber,
    /// Nothing but blanks and then one dash precedes it.
    BehindDash,
    /// Anything else precedes it.
    Inside,
}

/// The place behind a character that stands at `place`.
pub open spec fn place_after(place: Place, c: char) -> Place {
    if c == '\n' || c == '\r' {
        Place::LineStart
    } else if place == Place::LineStart && is_blank(c) {
        Place::LineStart
    } else if place == Place::LineStart && c == '-' {
        Place::BehindDash
    } else if (place == Place::LineStart || place == Place::BehindNumber) && '0' <= c <= '9' {
        Place::BehindNumber
    } else {
        Place::Inside
    }
}

/// `true` when `text` begins with a blank.
pub open spec fn blank_first(text: Seq<char>) -> bool {
    text.len() > 0 && is_blank(text[0])
}

/// `true` when `text` begins with at most `most` signs `#` and then a blank.
pub open spec fn hashes_then_blank(text: Seq<char>, most: nat) -> bool
    decreases most,
{
    blank_first(text) || (most > 0 && text.len() > 0 && text[0] == '#' && hashes_then_blank(
        text.skip(1),
        (most - 1) as nat,
    ))
}

/// `true` when `text`, which stands behind an opening bracket, closes it, with the target of a link
/// in round brackets right behind: `..](..)`. Brackets that open in between, of which there are
/// `open` already, are closed first.
pub open spec fn closes_link(text: Seq<char>, open: nat) -> bool
    decreases text.len(),
{
    if text.len() == 0 {
        false
    } else if text[0] == '[' {
        closes_link(text.skip(1), open + 1)
    } else if text[0] == ']' && open > 0 {
        closes_link(text.skip(1), (open - 1) as nat)
    } else if text[0] == ']' && text.len() > 1 && text[1] == '(' && text.skip(2).contains(')') {
        true
    } else {
        closes_link(text.skip(1), open)
    }
}

/// `true` when the first character of `text`, which stands at `place`, begins formatting there
/// although it is no markup character: a link behind a text, a heading, small text, an item of a
/// list, or the dot behind an item's number.
pub open spec fn begins_formatting(place: Place, text: Seq<char>) -> bool {
    let rest = text.skip(1);
    &&& text.len() > 0
    &&& {
        ||| text[0] == '[' && closes_link(rest, 0)
        ||| text[0] == '#' && place == Place::LineStart && hashes_then_blank(rest, 2)
        ||| text[0] == '#' && place == Place::BehindDash && blank_first(rest)
        ||| text[0] == '-' && place == Place::LineStart && hashes_then_blank(rest, 1)
        ||| text[0] == '+' && place == Place::LineStart && blank_first(rest)
        ||| text[0] == '.' && place == Place::BehindNumber && blank_first(rest)
    }
}

/// `true` when the first character of `text`, which stands at `place`, may act as formatting.
pub open spec fn is_active(place: Place, text: Seq<char>) -> bool {
    text.len() > 0 && (is_markup(text[0]) || begins_formatting(place, text))
}

/// `text`, which begins at `place`, with a backslash before each character that may act as
/// formatting.
pub open spec fn escaped_from(place: Place, text: Seq<char>) -> Seq<char>
    decreases text.len(),
{
    if text.len() == 0 {
        Seq::empty()
    } else {
        let written = if is_active(place, text) {
            seq!['\\', text[0]]
        } else {
            seq![text[0]]
        };
        written + escaped_from(place_after(place, text[0]), text.skip(1))
    }
}

/// `text` with each character written so that it shows as itself.
pub open spec fn discord_escaped(text: Seq<char>) -> Seq<char> {
    escaped_from(Place::LineStart, text)
}

/// The characters from which a backslash can take the meaning.
pub open spec fn is_escapable(c: char) -> bool {
    is_markup(c) || c == '[' || c == '#' || c == '-' || c == '+' || c == '.'
}

/// What a reader of Discord's markdown sees of `text`, which begins at `place`: a backslash gives
/// the character behind it. `None` when some character stands there unescaped where it may act as
/// formatting.
pub open spec fn shown_from(place: Place, text: Seq<char>) -> Option<Seq<char>>
    decreases text.len(),
{
    if text.len() == 0 {
        Some(Seq::empty())
    } else if text[0] == '\\' {
        if text.len() >= 2 && is_escapable(text[1]) {
            match shown_from(place_after(place, text[1]), text.skip(2)) {
                Some(rest) => Some(seq![text[1]] + rest),
                None => None,
            }
        } else {
            None
        }
    } else if is_active(place, text) {
        None
    } else {
        match shown_from(place_after(place, text[0]), text.skip(1)) {
            Some(rest) => Some(seq![text[0]] + rest),
            None => None,
        }
    }
}

/// What a reader of Discord's markdown sees of `text`, if nothing in it may act as formatting.
pub open spec fn shown_plain(text: Seq<char>) -> Option<Seq<char>> {
    shown_from(Place::LineStart, text)
}

/// The place behind a character that stands at `place`.
fn next_place(place: Place, c: char) -> (next: Place)
    ensures
        next == place_after(place, c),
{
    if c == '\n' || c == '\r' {
        Place::LineStart
    } else if place == Place::LineStart && (c == ' ' || c == '\t') {
        Place::LineStart
    } else if place == Place::LineStart && c == '-' {
        Place::BehindDash
    } else if (place == Place::LineStart || place == Place::BehindNumber) && '0' <= c && c <= '9' {
        Place::BehindNumber
    } else {
        Place::Inside
    }
}

/// Tells whether the text from character `at` on begins with at most `most` signs `#` and then a
/// blank.
fn check_hashes_then_blank(chars: &Vec<char>, at: usize, most: usize) -> (answer: bool)
    requires
        at <= chars@.len(),
    ensures
        answer == hashes_then_blank(chars@.skip(at as int), most as nat),
    decreases most,
{
    if at == chars.len() {
        return false;
    }
    let c = chars[at];
    assert(chars@.skip(at as int)[0] == c);
    if c == ' ' || c == '\t' {
        return true;
    }
    if most == 0 || c != '#' {
        return false;
    }
    assert(chars@.skip(at as int).skip(1) =~= chars@.skip(at + 1));
    check_hashes_then_blank(chars, at + 1, most - 1)
}

/// Tells whether the character stands in the text from character `at` on.
fn check_contains(chars: &Vec<char>, at: usize, wanted: char) -> (answer: bool)
    requires
        at <= chars@.len(),
    ensures
        answer == chars@.skip(at as int).contains(wanted),
{
    for i in at..chars.len()
        invariant
            at <= chars@.len(),
            forall|j: int| at <= j < i ==> chars@[j] != wanted,
    {
        if chars[i] == wanted {
            assert(chars@.skip(at as int)[i - at] == wanted);
            return true;
        }
    }
    false
}

/// Tells whether the text from character `at` on closes a bracket that opened before it, with the
/// target of a link right behind.
fn check_closes_link(chars: &Vec<char>, at: usize) -> (answer: bool)
    requires
        at <= chars@.len(),
    ensures
        answer == closes_link(chars@.skip(at as int), 0),
{
    let mut open: usize = 0;
    for i in at..chars.len()
        invariant
            at <= i <= chars@.len(),
            open <= i - at,
            closes_link(chars@.skip(at as int), 0) == closes_link(
                chars@.skip(i as int),
                open as nat,
            ),
    {
        let c = chars[i];
        let ghost rest = chars@.skip(i as int);
        assert(rest.skip(1) =~= chars@.skip(i + 1));
        assert(rest[0] == c);
        if c == '[' {
            open = open + 1;
        } else if c == ']' && open > 0 {
            open = open - 1;
        } else if c == ']' && i + 1 < chars.len() && chars[i + 1] == '(' {
            assert(rest[1] == '(');
            assert(rest.skip(2) =~= chars@.skip(i + 2));
            if check_contains(chars, i + 2, ')') {
                return true;
            }
        }
    }
    false
}

/// Tells whether the character at `at`, which stands at `place` in its line, may act as formatting.
fn acts_as_formatting(place: Place, chars: &Vec<char>, at: usize) -> (active: bool)
    requires
        at < chars@.len(),
    ensures
        active == is_active(place, chars@.skip(at as int)),
{
    proof {
        let text = chars@.skip(at as int);
        assert(text.skip(1) =~= chars@.skip(at + 1));
        assert(text[0] == chars@[at as int]);
        assert(hashes_then_blank(text.skip(1), 0) == blank_first(text.skip(1)));
    }
    assert(at < chars.len());
    let behind: usize = at + 1;
    match chars[at] {
        '\\' | '*' | '_' | '~' | '`' | '|' | '>' => true,
        '[' => check_closes_link(chars, behind),
        '#' => (place == Place::LineStart && check_hashes_then_blank(chars, behind, 2)) || (place
            == Place::BehindDash && check_hashes_then_blank(chars, behind, 0)),
        '-' => place == Place::LineStart && check_hashes_then_blank(chars, behind, 1),
        '+' => place == Place::LineStart && check_hashes_then_blank(chars, behind, 0),
        '.' => place == Place::BehindNumber && check_hashes_then_blank(chars, behind, 0),
        _ => false,
    }
}

/// Escapes `s` so that it can be sent in an embed without any markdown formatting: `_` becomes
/// `\_`, and `[a](http://b.c)` becomes `\[a](http://b.c)`.
pub fn escape_discord_markdown(s: &str) -> (escaped: String)
    ensures
        escaped@ == discord_escaped(s@),
        adds_only_backslashes(s@, escaped@),
{
    proof {
        only_backslashes_are_added(s@);
    }
    let chars = chars_of(s);
    let mut escaped = String::new();
    let mut place = Place::LineStart;
    assert(s@.skip(0) =~= s@);
    for i in 0..chars.len()
        invariant
            chars@ == s@,
            discord_escaped(s@) == escaped@ + escaped_from(place, s@.skip(i as int)),
    {
        let c = chars[i];
        let ghost rest = s@.skip(i as int);
        assert(rest[0] == c);
        assert(rest.skip(1) =~= s@.skip(i + 1));
        if acts_as_formatting(place, &chars, i) {
            escaped.push('\\');
        }
        escaped.push(c);
        place = next_place(place, c);
        assert(discord_escaped(s@) =~= escaped@ + escaped_from(place, rest.skip(1)));
    }
    assert(discord_escaped(s@) =~= escaped@);
    escaped
}

/// The first character of an escaped text is a backslash or the first character of the text.
proof fn lemma_first(place: Place, text: Seq<char>)
    requires
        text.len() > 0,
    ensures
        escaped_from(place, text).len() > 0,
        is_active(place, text) ==> escaped_from(place, text)[0] == '\\',
        !is_active(place, text) ==> escaped_from(place, text)[0] == text[0] && escaped_from(
            place,
            text,
        ).skip(1) == escaped_from(place_after(place, text[0]), text.skip(1)),
{
    if !is_active(place, text) {
        assert(escaped_from(place, text).skip(1) =~= escaped_from(
            place_after(place, text[0]),
            text.skip(1),
        ));
    }
}

/// Escaping neither makes nor takes away a blank in front.
proof fn lemma_blank_kept(place: Place, text: Seq<char>)
    ensures
        blank_first(escaped_from(place, text)) == blank_first(text),
{
    if text.len() > 0 {
        lemma_first(place, text);
    }
}

/// Inside of a line, escaping neither makes nor takes away signs `#` before a blank.
proof fn lemma_hashes_kept(text: Seq<char>, most: nat)
    ensures
        hashes_then_blank(escaped_from(Place::Inside, text), most) == hashes_then_blank(text, most),
    decreases most,
{
    lemma_blank_kept(Place::Inside, text);
    if text.len() > 0 && most > 0 {
        lemma_first(Place::Inside, text);
        if text[0] == '#' {
            lemma_hashes_kept(text.skip(1), (most - 1) as nat);
        }
    }
}

/// Escaping keeps the character that closes the target of a link.
proof fn lemma_contains_kept(place: Place, text: Seq<char>)
    ensures
        escaped_from(place, text).contains(')') == text.contains(')'),
    decreases text.len(),
{
    if text.len() > 0 {
        let rest = text.skip(1);
        let next = place_after(place, text[0]);
        let out = escaped_from(place, text);
        let tail = escaped_from(next, rest);
        let offset = if is_active(place, text) {
            2int
        } else {
            1int
        };
        lemma_contains_kept(next, rest);
        assert(out.skip(offset) =~= tail);
        if text.contains(')') {
            let i = choose|i: int| 0 <= i < text.len() && text[i] == ')';
            if i == 0 {
                assert(out[0] == ')');
            } else {
                assert(rest[i - 1] == ')');
                let j = choose|j: int| 0 <= j < tail.len() && tail[j] == ')';
                assert(out[j + offset] == ')');
            }
        }
        if out.contains(')') {
            let j = choose|j: int| 0 <= j < out.len() && out[j] == ')';
            if j >= offset {
                assert(tail[j - offset] == ')');
                let i = choose|i: int| 0 <= i < rest.len() && rest[i] == ')';
                assert(text[i + 1] == ')');
            } else {
                assert(text[0] == ')');
            }
        }
    }
}

/// Escaping neither makes nor takes away the close of a link.
proof fn lemma_link_kept(place: Place, text: Seq<char>, open: nat)
    ensures
        closes_link(escaped_from(place, text), open) == closes_link(text, open),
    decreases text.len(),
{
    if text.len() > 0 {
        let c = text[0];
        let rest = text.skip(1);
        let next = place_after(place, c);
        let out = escaped_from(place, text);
        let tail = escaped_from(next, rest);
        let deeper = if c == '[' {
            open + 1
        } else if c == ']' && open > 0 {
            (open - 1) as nat
        } else {
            open
        };
        lemma_link_kept(next, rest, deeper);
        if is_active(place, text) {
            assert(c != ']');
            assert(out.skip(1) =~= seq![c] + tail);
            assert(out.skip(1).skip(1) =~= tail);
            assert(closes_link(out, open) == closes_link(out.skip(1), open));
            assert(closes_link(out.skip(1), open) == closes_link(tail, deeper));
        } else {
            assert(out.skip(1) =~= tail);
            if c == ']' && open == 0 && rest.len() > 0 {
                lemma_first(next, rest);
                if rest[0] == '(' {
                    let after = place_after(next, '(');
                    assert(tail.skip(1) =~= escaped_from(after, rest.skip(1)));
                    assert(out.skip(2) =~= tail.skip(1));
                    assert(text.skip(2) =~= rest.skip(1));
                    lemma_contains_kept(after, rest.skip(1));
                }
            }
        }
    }
}

/// A character that begins no formatting begins none either when what follows it is escaped.
proof fn lemma_inactive_kept(place: Place, text: Seq<char>)
    requires
        text.len() > 0,
        !is_active(place, text),
    ensures
        !is_active(place, escaped_from(place, text)),
{
    let c = text[0];
    let rest = text.skip(1);
    let next = place_after(place, c);
    let out = escaped_from(place, text);
    lemma_first(place, text);
    lemma_blank_kept(next, rest);
    if c == '[' {
        lemma_link_kept(next, rest, 0);
    } else if c == '#' {
        lemma_hashes_kept(rest, 2);
    } else if c == '-' && place == Place::LineStart {
        reveal_with_fuel(hashes_then_blank, 2);
        if rest.len() > 0 {
            lemma_first(next, rest);
            if rest[0] == '#' {
                lemma_blank_kept(Place::Inside, rest.skip(1));
            }
        }
    }
}

/// The escaped form of a text, wherever it begins, shows that text.
proof fn lemma_escaped_shows(place: Place, text: Seq<char>)
    ensures
        shown_from(place, escaped_from(place, text)) == Some(text),
    decreases text.len(),
{
    if text.len() > 0 {
        let rest = text.skip(1);
        let next = place_after(place, text[0]);
        let out = escaped_from(place, text);
        lemma_escaped_shows(next, rest);
        if is_active(place, text) {
            assert(out.skip(2) =~= escaped_from(next, rest));
        } else {
            lemma_inactive_kept(place, text);
            lemma_first(place, text);
        }
        assert(seq![text[0]] + rest =~= text);
    }
}

/// Whatever the text, its escaped form shows exactly that text: nothing in it acts as formatting,
/// and nothing is lost or added.
pub proof fn escaped_text_shows_unchanged(text: Seq<char>)
    ensures
        shown_plain(discord_escaped(text)) == Some(text),
{
    lemma_escaped_shows(Place::LineStart, text);
}

/// Two texts with the same escaped form are the same text.
pub proof fn escaping_keeps_texts_apart(a: Seq<char>, b: Seq<char>)
    requires
        discord_escaped(a) == discord_escaped(b),
    ensures
        a == b,
{
    escaped_text_shows_unchanged(a);
    escaped_text_shows_unchanged(b);
}

/// An escaped text is no shorter than the text, and longer where the text has markup.
proof fn lemma_escaped_len(place: Place, text: Seq<char>)
    ensures
        escaped_from(place, text).len() >= text.len(),
        (exists|i: int| 0 <= i < text.len() && is_markup(#[trigger] text[i])) ==> escaped_from(
            place,
            text,
        ).len() > text.len(),
    decreases text.len(),
{
    if text.len() > 0 {
        let rest = text.skip(1);
        lemma_escaped_len(place_after(place, text[0]), rest);
        if exists|i: int| 0 <= i < text.len() && is_markup(#[trigger] text[i]) {
            let i = choose|i: int| 0 <= i < text.len() && is_markup(#[trigger] text[i]);
            if i > 0 {
                assert(is_markup(rest[i - 1]));
            }
        }
    }
}

/// A text with a markup character in it never comes out as it went in.
pub proof fn markup_is_never_left_alone(text: Seq<char>, i: int)
    requires
        0 <= i < text.len(),
        is_markup(text[i]),
    ensures
        discord_escaped(text) != text,
{
    lemma_escaped_len(Place::LineStart, text);
}

/// The place of character `i` of `text`, which begins at `place`.
pub open spec fn place_at(place: Place, text: Seq<char>, i: int) -> Place
    decreases i,
{
    if i <= 0 || text.len() == 0 {
        place
    } else {
        place_at(place_after(place, text[0]), text.skip(1), i - 1)
    }
}

/// `true` when character `i` of `text`, which begins at `place`, begins formatting although it is
/// no markup character.
pub open spec fn formatting_at(place: Place, text: Seq<char>, i: int) -> bool {
    begins_formatting(place_at(place, text, i), text.skip(i))
}

/// `true` when character `i` of `text` begins a link behind a text, a heading, small text or an
/// item of a list, or is the dot behind an item's number.
pub open spec fn has_formatting_at(text: Seq<char>, i: int) -> bool {
    formatting_at(Place::LineStart, text, i)
}

/// `text` with a backslash before each markup character.
pub open spec fn markup_escaped(text: Seq<char>) -> Seq<char>
    decreases text.len(),
{
    if text.len() == 0 {
        Seq::empty()
    } else if is_markup(text[0]) {
        seq!['\\', text[0]] + markup_escaped(text.skip(1))
    } else {
        seq![text[0]] + markup_escaped(text.skip(1))
    }
}

/// The number of markup characters in `text`.
pub open spec fn markup_count(text: Seq<char>) -> nat {
    text.filter(|c: char| is_markup(c)).len()
}

/// What holds of a character of `text` holds of the same character of the text behind the first.
proof fn lemma_formatting_behind_first(place: Place, text: Seq<char>, i: int)
    requires
        0 <= i,
        i + 1 < text.len(),
    ensures
        formatting_at(place, text, i + 1) == formatting_at(
            place_after(place, text[0]),
            text.skip(1),
            i,
        ),
{
    assert(text.skip(1).skip(i) =~= text.skip(i + 1));
}

/// Where nothing else begins formatting, only markup characters are escaped.
proof fn lemma_only_markup(place: Place, text: Seq<char>)
    requires
        forall|i: int| 0 <= i < text.len() ==> !#[trigger] formatting_at(place, text, i),
    ensures
        escaped_from(place, text) == markup_escaped(text),
    decreases text.len(),
{
    if text.len() > 0 {
        let rest = text.skip(1);
        let next = place_after(place, text[0]);
        assert(!formatting_at(place, text, 0));
        assert(text.skip(0) =~= text);
        assert forall|i: int| 0 <= i < rest.len() implies !#[trigger] formatting_at(
            next,
            rest,
            i,
        ) by {
            lemma_formatting_behind_first(place, text, i);
            assert(!formatting_at(place, text, i + 1));
        }
        lemma_only_markup(next, rest);
    }
}

/// Escaping of markup adds one character for each.
proof fn lemma_markup_len(text: Seq<char>)
    ensures
        markup_escaped(text).len() == text.len() + markup_count(text),
    decreases text.len(),
{
    let pred = |c: char| is_markup(c);
    if text.len() == 0 {
        assert(text.filter(pred) =~= Seq::<char>::empty());
    } else {
        let first = text.take(1);
        let rest = text.skip(1);
        lemma_markup_len(rest);
        assert(text =~= first + rest);
        Seq::filter_distributes_over_add(first, rest, pred);
        reveal_with_fuel(Seq::filter, 2);
        assert(first.drop_last() =~= Seq::<char>::empty());
        assert(first.last() == text[0]);
    }
}

/// A text in which nothing but markup characters acts as formatting gets a backslash before each of
/// these, and nothing else: it grows by their number, and one without any comes back unchanged.
pub proof fn ordinary_text_is_left_alone(text: Seq<char>)
    requires
        forall|i: int| 0 <= i < text.len() ==> !#[trigger] has_formatting_at(text, i),
    ensures
        discord_escaped(text) == markup_escaped(text),
        discord_escaped(text).len() == text.len() + markup_count(text),
        (forall|i: int| 0 <= i < text.len() ==> !is_markup(#[trigger] text[i]))
            <==> discord_escaped(text) == text,
{
    assert forall|i: int| 0 <= i < text.len() implies !#[trigger] formatting_at(
        Place::LineStart,
        text,
        i,
    ) by {
        assert(!has_formatting_at(text, i));
    }
    lemma_only_markup(Place::LineStart, text);
    lemma_markup_len(text);
    if forall|i: int| 0 <= i < text.len() ==> !is_markup(#[trigger] text[i]) {
        lemma_no_markup(text);
    } else {
        let i = choose|i: int| 0 <= i < text.len() && is_markup(#[trigger] text[i]);
        markup_is_never_left_alone(text, i);
    }
}

/// A text without markup characters is left alone by their escaping.
proof fn lemma_no_markup(text: Seq<char>)
    requires
        forall|i: int| 0 <= i < text.len() ==> !is_markup(#[trigger] text[i]),
    ensures
        markup_escaped(text) == text,
    decreases text.len(),
{
    if text.len() > 0 {
        let rest = text.skip(1);
        assert forall|i: int| 0 <= i < rest.len() implies !is_markup(#[trigger] rest[i]) by {
            assert(rest[i] == text[i + 1]);
        }
        lemma_no_markup(rest);
        assert(seq![text[0]] + rest =~= text);
    }
    assert(markup_escaped(text) =~= text);
}

/// The second of two texts is escaped as it stands behind the first, and the first as it stands
/// alone where the second changes nothing about it.
proof fn lemma_escaped_concat(place: Place, a: Seq<char>, b: Seq<char>)
    requires
        forall|i: int|
            0 <= i < a.len() ==> #[trigger] formatting_at(place, a + b, i) == formatting_at(
                place,
                a,
                i,
            ),
    ensures
        escaped_from(place, a + b) == escaped_from(place, a) + escaped_from(
            place_at(place, a + b, a.len() as int),
            b,
        ),
    decreases a.len(),
{
    let whole = a + b;
    if a.len() == 0 {
        assert(whole =~= b);
        assert(escaped_from(place, a) =~= Seq::<char>::empty());
        assert(escaped_from(place, whole) =~= escaped_from(place, a) + escaped_from(place, b));
    } else {
        let next = place_after(place, a[0]);
        let rest = a.skip(1);
        assert(whole.skip(1) =~= rest + b);
        assert(whole.skip(0) =~= whole);
        assert(a.skip(0) =~= a);
        assert(formatting_at(place, whole, 0) == formatting_at(place, a, 0));
        assert forall|i: int| 0 <= i < rest.len() implies #[trigger] formatting_at(
            next,
            rest + b,
            i,
        ) == formatting_at(next, rest, i) by {
            lemma_formatting_behind_first(place, whole, i);
            lemma_formatting_behind_first(place, a, i);
            assert(formatting_at(place, whole, i + 1) == formatting_at(place, a, i + 1));
        }
        lemma_escaped_concat(next, rest, b);
        assert(escaped_from(place, whole) =~= escaped_from(place, a) + escaped_from(
            place_at(place, whole, a.len() as int),
            b,
        ));
    }
}

/// A text is escaped alike at two places where the same of its characters begin formatting.
proof fn lemma_same_formatting(p: Place, q: Place, text: Seq<char>)
    requires
        forall|i: int|
            0 <= i < text.len() ==> #[trigger] formatting_at(p, text, i) == formatting_at(
                q,
                text,
                i,
            ),
    ensures
        escaped_from(p, text) == escaped_from(q, text),
    decreases text.len(),
{
    if text.len() > 0 {
        let rest = text.skip(1);
        assert(text.skip(0) =~= text);
        assert(formatting_at(p, text, 0) == formatting_at(q, text, 0));
        assert forall|i: int| 0 <= i < rest.len() implies #[trigger] formatting_at(
            place_after(p, text[0]),
            rest,
            i,
        ) == formatting_at(place_after(q, text[0]), rest, i) by {
            lemma_formatting_behind_first(p, text, i);
            lemma_formatting_behind_first(q, text, i);
            assert(formatting_at(p, text, i + 1) == formatting_at(q, text, i + 1));
        }
        lemma_same_formatting(place_after(p, text[0]), place_after(q, text[0]), rest);
    }
}

/// The places in the second of two texts, counted from its own start.
proof fn lemma_place_in_second(place: Place, a: Seq<char>, b: Seq<char>, i: int)
    requires
        0 <= i < b.len(),
    ensures
        formatting_at(place, a + b, a.len() + i) == formatting_at(
            place_at(place, a + b, a.len() as int),
            b,
            i,
        ),
    decreases a.len(),
{
    let whole = a + b;
    if a.len() == 0 {
        assert(whole =~= b);
    } else {
        assert(whole.skip(1) =~= a.skip(1) + b);
        lemma_formatting_behind_first(place, whole, a.len() + i - 1);
        lemma_place_in_second(place_after(place, a[0]), a.skip(1), b, i);
    }
}

/// Two texts one after the other are escaped as each is by itself, where no formatting arises or
/// vanishes across the seam.
pub proof fn escaping_goes_part_by_part(a: Seq<char>, b: Seq<char>)
    requires
        forall|i: int|
            0 <= i < a.len() ==> #[trigger] has_formatting_at(a + b, i) == has_formatting_at(a, i),
        forall|i: int|
            0 <= i < b.len() ==> has_formatting_at(a + b, a.len() + i)
                == #[trigger] has_formatting_at(b, i),
    ensures
        discord_escaped(a + b) == discord_escaped(a) + discord_escaped(b),
{
    let start = Place::LineStart;
    let seam = place_at(start, a + b, a.len() as int);
    assert forall|i: int| 0 <= i < a.len() implies #[trigger] formatting_at(start, a + b, i)
        == formatting_at(start, a, i) by {
        assert(has_formatting_at(a + b, i) == has_formatting_at(a, i));
    }
    lemma_escaped_concat(start, a, b);
    assert forall|i: int| 0 <= i < b.len() implies #[trigger] formatting_at(seam, b, i)
        == formatting_at(start, b, i) by {
        lemma_place_in_second(start, a, b, i);
        assert(has_formatting_at(a + b, a.len() + i) == has_formatting_at(b, i));
    }
    lemma_same_formatting(seam, start, b);
}

/// `true` when `out` is `text` with backslashes put in: before each of the seven characters
/// `\\ * _ ~ \` | >`, and else only before some of the characters `[ # - + .`.
pub open spec fn adds_only_backslashes(text: Seq<char>, out: Seq<char>) -> bool
    decreases text.len(),
{
    if text.len() == 0 {
        out.len() == 0
    } else if text[0] == '\\' || text[0] == '*' || text[0] == '_' || text[0] == '~' || text[0]
        == '`' || text[0] == '|' || text[0] == '>' {
        out.len() >= 2 && out[0] == '\\' && out[1] == text[0] && adds_only_backslashes(
            text.skip(1),
            out.skip(2),
        )
    } else if out.len() >= 2 && out[0] == '\\' {
        (text[0] == '[' || text[0] == '#' || text[0] == '-' || text[0] == '+' || text[0] == '.')
            && out[1] == text[0] && adds_only_backslashes(text.skip(1), out.skip(2))
    } else {
        out.len() >= 1 && out[0] == text[0] && adds_only_backslashes(text.skip(1), out.skip(1))
    }
}

/// What is written for the first `n` characters of `text`, which begins at `place`.
spec fn escaped_upto(place: Place, text: Seq<char>, n: int) -> Seq<char>
    decreases n,
{
    if n <= 0 || text.len() == 0 {
        Seq::empty()
    } else {
        let written = if is_active(place, text) {
            seq!['\\', text[0]]
        } else {
            seq![text[0]]
        };
        written + escaped_upto(place_after(place, text[0]), text.skip(1), n - 1)
    }
}

/// The escaped form up to a character, and from it on.
proof fn lemma_split_at(place: Place, text: Seq<char>, n: int)
    requires
        0 <= n <= text.len(),
    ensures
        escaped_from(place, text) == escaped_upto(place, text, n) + escaped_from(
            place_at(place, text, n),
            text.skip(n),
        ),
        adds_only_backslashes(text.take(n), escaped_upto(place, text, n)),
    decreases n,
{
    if n == 0 {
        assert(text.skip(0) =~= text);
        assert(escaped_upto(place, text, 0) =~= Seq::<char>::empty());
        assert(escaped_from(place, text) =~= escaped_upto(place, text, 0) + escaped_from(
            place,
            text,
        ));
    } else {
        let next = place_after(place, text[0]);
        let rest = text.skip(1);
        let head = escaped_upto(place, text, n);
        let tail = escaped_upto(next, rest, n - 1);
        lemma_split_at(next, rest, n - 1);
        assert(rest.skip(n - 1) =~= text.skip(n));
        assert(text.take(n).skip(1) =~= rest.take(n - 1));
        assert(text.take(n)[0] == text[0]);
        if is_active(place, text) {
            assert(head.skip(2) =~= tail);
        } else {
            assert(head.skip(1) =~= tail);
        }
        assert(escaped_from(place, text) =~= head + escaped_from(
            place_at(place, text, n),
            text.skip(n),
        ));
    }
}

/// For every text: nothing is changed but that backslashes are put in, before each of the seven
/// characters that act everywhere, and else only before characters that can begin formatting.
pub proof fn only_backslashes_are_added(text: Seq<char>)
    ensures
        adds_only_backslashes(text, discord_escaped(text)),
{
    lemma_split_at(Place::LineStart, text, text.len() as int);
    assert(text.take(text.len() as int) =~= text);
    assert(text.skip(text.len() as int) =~= Seq::<char>::empty());
    assert(discord_escaped(text) =~= escaped_upto(Place::LineStart, text, text.len() as int));
}

/// A single character gets a backslash exactly if it is one of seven.
pub proof fn single_characters(c: char)
    ensures
        c == '*' || c == '_' || c == '~' || c == '`' || c == '|' || c == '>' || c == '\\'
            ==> discord_escaped(seq![c]) == seq!['\\', c],
        c != '\\' && c != '*' && c != '_' && c != '~' && c != '`' && c != '|' && c != '>'
            ==> discord_escaped(seq![c]) == seq![c],
{
    let text = seq![c];
    assert(text.skip(1) =~= Seq::<char>::empty());
    reveal_with_fuel(escaped_from, 2);
    reveal_with_fuel(hashes_then_blank, 2);
    reveal_with_fuel(closes_link, 2);
    if is_markup(c) {
        assert(discord_escaped(text) =~= seq!['\\', c]);
    } else {
        assert(discord_escaped(text) =~= seq![c]);
    }
}

/// A text in which no character can act as formatting, such as one of letters, digits and blanks,
/// comes back unchanged.
pub proof fn harmless_characters_are_kept(text: Seq<char>)
    requires
        forall|i: int|
            0 <= i < text.len() ==> (#[trigger] text[i]) != '\\' && text[i] != '*' && text[i] != '_'
                && text[i] != '~' && text[i] != '`' && text[i] != '|' && text[i] != '>' && text[i]
                != '[' && text[i] != '#' && text[i] != '-' && text[i] != '+' && text[i] != '.',
    ensures
        discord_escaped(text) == text,
{
    only_backslashes_are_added(text);
    lemma_nothing_to_add(text, discord_escaped(text));
}

/// Where there is nothing to put a backslash before, none is put in.
proof fn lemma_nothing_to_add(text: Seq<char>, out: Seq<char>)
    requires
        adds_only_backslashes(text, out),
        forall|i: int|
            0 <= i < text.len() ==> (#[trigger] text[i]) != '\\' && text[i] != '*' && text[i] != '_'
                && text[i] != '~' && text[i] != '`' && text[i] != '|' && text[i] != '>' && text[i]
                != '[' && text[i] != '#' && text[i] != '-' && text[i] != '+' && text[i] != '.',
    ensures
        out == text,
    decreases text.len(),
{
    if text.len() > 0 {
        let rest = text.skip(1);
        assert(text[0] != '\\');
        assert forall|i: int| 0 <= i < rest.len() implies (#[trigger] rest[i]) != '\\' && rest[i]
            != '*' && rest[i] != '_' && rest[i] != '~' && rest[i] != '`' && rest[i] != '|'
            && rest[i] != '>' && rest[i] != '[' && rest[i] != '#' && rest[i] != '-' && rest[i]
            != '+' && rest[i] != '.' by {
            assert(rest[i] == text[i + 1]);
        }
        lemma_nothing_to_add(rest, out.skip(1));
        assert(out =~= seq![out[0]] + out.skip(1));
        assert(text =~= seq![text[0]] + rest);
    } else {
        assert(out =~= text);
    }
}

/// The place of a character follows from that of the character before it.
proof fn lemma_place_step(place: Place, text: Seq<char>, i: int)
    requires
        0 <= i < text.len(),
    ensures
        place_at(place, text, i + 1) == place_after(place_at(place, text, i), text[i]),
    decreases i,
{
    if i > 0 {
        lemma_place_step(place_after(place, text[0]), text.skip(1), i - 1);
    } else {
        reveal_with_fuel(place_at, 2);
    }
}

/// Behind a line break, and any blanks, there is the start of a line.
proof fn lemma_line_start(before: Seq<char>, blanks: Seq<char>, rest: Seq<char>, n: int)
    requires
        before.len() == 0 || before.last() == '\n' || before.last() == '\r',
        0 <= n <= blanks.len(),
        forall|i: int| 0 <= i < blanks.len() ==> (#[trigger] blanks[i]) == ' ' || blanks[i] == '\t',
    ensures
        place_at(Place::LineStart, before + blanks + rest, before.len() + n) == Place::LineStart,
    decreases n,
{
    let text = before + blanks + rest;
    if n > 0 {
        lemma_line_start(before, blanks, rest, n - 1);
        assert(text[before.len() + n - 1] == blanks[n - 1]);
        lemma_place_step(Place::LineStart, text, before.len() + n - 1);
    } else if before.len() > 0 {
        assert(text[before.len() - 1] == before.last());
        lemma_place_step(Place::LineStart, text, before.len() - 1);
    }
}

/// Behind the start of a line and some digits, there is the place behind a number.
proof fn lemma_behind_number(
    before: Seq<char>,
    blanks: Seq<char>,
    digits: Seq<char>,
    rest: Seq<char>,
    n: int,
)
    requires
        before.len() == 0 || before.last() == '\n' || before.last() == '\r',
        forall|i: int| 0 <= i < blanks.len() ==> (#[trigger] blanks[i]) == ' ' || blanks[i] == '\t',
        forall|i: int| 0 <= i < digits.len() ==> '0' <= #[trigger] digits[i] <= '9',
        0 < n <= digits.len(),
    ensures
        place_at(
            Place::LineStart,
            before + blanks + digits + rest,
            before.len() + blanks.len() + n,
        ) == Place::BehindNumber,
    decreases n,
{
    let text = before + blanks + digits + rest;
    let start = before.len() + blanks.len();
    assert(text =~= before + blanks + (digits + rest));
    lemma_line_start(before, blanks, digits + rest, blanks.len() as int);
    assert(text[start + n - 1] == digits[n - 1]);
    lemma_place_step(Place::LineStart, text, start + n - 1);
    if n > 1 {
        lemma_behind_number(before, blanks, digits, rest, n - 1);
    }
}

/// A character that may act gets its backslash, right behind what is written for the text before.
proof fn lemma_active_gets_backslash(text: Seq<char>, n: int)
    requires
        0 <= n < text.len(),
        is_active(place_at(Place::LineStart, text, n), text.skip(n)),
    ensures
        exists|k: int|
            0 <= k && k + 1 < discord_escaped(text).len() && #[trigger] discord_escaped(text)[k]
                == '\\' && discord_escaped(text)[k + 1] == text[n] && adds_only_backslashes(
                text.take(n),
                discord_escaped(text).take(k),
            ),
{
    let head = escaped_upto(Place::LineStart, text, n);
    let out = discord_escaped(text);
    let place = place_at(Place::LineStart, text, n);
    let tail = escaped_from(place, text.skip(n));
    lemma_split_at(Place::LineStart, text, n);
    assert(tail[0] == '\\' && tail[1] == text[n]);
    let k = head.len() as int;
    assert(out[k] == tail[0]);
    assert(out[k + 1] == tail[1]);
    assert(out.take(k) =~= head);
}

/// How many more brackets open than close in `text`.
pub open spec fn nesting(text: Seq<char>) -> int
    decreases text.len(),
{
    if text.len() == 0 {
        0
    } else {
        nesting(text.skip(1)) + if text[0] == '[' {
            1int
        } else if text[0] == ']' {
            -1int
        } else {
            0int
        }
    }
}

/// Wherever a link stands behind a text in brackets, the bracket that opens it gets a backslash. In
/// the text itself brackets may open, if they close again.
pub proof fn masked_links_are_disarmed(
    before: Seq<char>,
    label: Seq<char>,
    target: Seq<char>,
    after: Seq<char>,
)
    requires
        nesting(label) == 0,
        forall|n: int| 0 <= n <= label.len() ==> nesting(#[trigger] label.take(n)) >= 0,
    ensures
        ({
            let text = before + (seq!['['] + label + seq![']', '('] + target + seq![')'] + after);
            let out = discord_escaped(text);
            exists|k: int|
                0 <= k && k + 1 < out.len() && #[trigger] out[k] == '\\' && out[k + 1] == '['
                    && adds_only_backslashes(before, out.take(k))
        }),
{
    let link = seq!['['] + label + seq![']', '('] + target + seq![')'] + after;
    let text = before + link;
    let n = before.len() as int;
    assert(text.skip(n) =~= link);
    assert(text.take(n) =~= before);
    assert(link.skip(1) =~= label + (seq![']', '('] + target + seq![')'] + after));
    lemma_label_closes(label, target, after, 0);
    lemma_active_gets_backslash(text, n);
}

/// A label in which every bracket is closed, with a target behind it, closes a link.
proof fn lemma_label_closes(label: Seq<char>, target: Seq<char>, after: Seq<char>, open: nat)
    requires
        nesting(label) + open == 0,
        forall|n: int| 0 <= n <= label.len() ==> nesting(#[trigger] label.take(n)) + open >= 0,
    ensures
        closes_link(label + (seq![']', '('] + target + seq![')'] + after), open),
    decreases label.len(),
{
    let end = seq![']', '('] + target + seq![')'] + after;
    let text = label + end;
    if label.len() == 0 {
        assert(text =~= end);
        assert(text.skip(2)[target.len() as int] == ')');
        assert(text.skip(2).contains(')'));
    } else {
        let rest = label.skip(1);
        let one = nesting(label) - nesting(rest);
        assert(text[0] == label[0]);
        assert(text.skip(1) =~= rest + end);
        assert forall|n: int| 0 <= n <= rest.len() implies nesting(#[trigger] rest.take(n)) + open
            + one >= 0 by {
            let longer = label.take(n + 1);
            assert(longer.skip(1) =~= rest.take(n));
            assert(longer[0] == label[0]);
            assert(nesting(longer) == nesting(rest.take(n)) + one);
        }
        assert(rest.take(0) =~= Seq::<char>::empty());
        lemma_label_closes(rest, target, after, (open + one) as nat);
    }
}

/// At the start of a line, behind any blanks, the marks of a heading, of small text and of an item
/// of a list get a backslash.
pub proof fn marks_at_line_start_are_disarmed(
    before: Seq<char>,
    blanks: Seq<char>,
    mark: Seq<char>,
    blank: char,
    after: Seq<char>,
)
    requires
        before.len() == 0 || before.last() == '\n' || before.last() == '\r',
        forall|i: int| 0 <= i < blanks.len() ==> (#[trigger] blanks[i]) == ' ' || blanks[i] == '\t',
        mark == seq!['#'] || mark == seq!['#', '#'] || mark == seq!['#', '#', '#'] || mark
            == seq!['-'] || mark == seq!['+'] || mark == seq!['-', '#'],
        blank == ' ' || blank == '\t',
    ensures
        ({
            let text = before + blanks + (mark + seq![blank] + after);
            let out = discord_escaped(text);
            exists|k: int|
                0 <= k && k + 1 < out.len() && #[trigger] out[k] == '\\' && out[k + 1] == mark[0]
                    && adds_only_backslashes(before + blanks, out.take(k))
        }),
{
    let item = mark + seq![blank] + after;
    let text = before + blanks + item;
    let n = (before + blanks).len() as int;
    assert(text.skip(n) =~= item);
    assert(text.take(n) =~= before + blanks);
    lemma_line_start(before, blanks, item, blanks.len() as int);
    assert(item[0] == mark[0]);
    let r1 = item.skip(1);
    let r2 = r1.skip(1);
    let r3 = r2.skip(1);
    if mark.len() == 1 {
        assert(r1[0] == blank);
    } else if mark.len() == 2 {
        assert(r1[0] == '#' && r2[0] == blank);
    } else {
        assert(r1[0] == '#' && r2[0] == '#' && r3[0] == blank);
    }
    reveal_with_fuel(hashes_then_blank, 4);
    lemma_active_gets_backslash(text, n);
}

/// The dot behind a number at the start of a line, and before a blank, gets a backslash.
pub proof fn numbered_items_are_disarmed(
    before: Seq<char>,
    blanks: Seq<char>,
    digits: Seq<char>,
    blank: char,
    after: Seq<char>,
)
    requires
        before.len() == 0 || before.last() == '\n' || before.last() == '\r',
        forall|i: int| 0 <= i < blanks.len() ==> (#[trigger] blanks[i]) == ' ' || blanks[i] == '\t',
        digits.len() > 0,
        forall|i: int| 0 <= i < digits.len() ==> '0' <= #[trigger] digits[i] <= '9',
        blank == ' ' || blank == '\t',
    ensures
        ({
            let text = before + blanks + digits + (seq!['.', blank] + after);
            let out = discord_escaped(text);
            exists|k: int|
                0 <= k && k + 1 < out.len() && #[trigger] out[k] == '\\' && out[k + 1] == '.'
                    && adds_only_backslashes(before + blanks + digits, out.take(k))
        }),
{
    let item = seq!['.', blank] + after;
    let text = before + blanks + digits + item;
    let n = (before + blanks + digits).len() as int;
    assert(text.skip(n) =~= item);
    assert(text.take(n) =~= before + blanks + digits);
    assert(item.skip(1)[0] == blank);
    lemma_behind_number(before, blanks, digits, item, digits.len() as int);
    lemma_active_gets_backslash(text, n);
}

/// Where no bracket closes right before round ones, there is no link.
proof fn lemma_no_link(text: Seq<char>, open: nat)
    requires
        forall|i: int, j: int|
            0 <= i && i + 1 < j < text.len() && (#[trigger] text[i]) == ']' && text[i + 1] == '('
                ==> (#[trigger] text[j]) != ')',
    ensures
        !closes_link(text, open),
    decreases text.len(),
{
    if text.len() > 0 {
        let rest = text.skip(1);
        if text[0] == ']' && text.len() > 1 && text[1] == '(' && text.skip(2).contains(')') {
            let j = choose|j: int| 0 <= j < text.skip(2).len() && text.skip(2)[j] == ')';
            assert(text[0] == ']');
            assert(text[j + 2] == ')');
        }
        assert forall|i: int, j: int|
            0 <= i && i + 1 < j < rest.len() && (#[trigger] rest[i]) == ']' && rest[i + 1]
                == '(' implies (#[trigger] rest[j]) != ')' by {
            assert(rest[i] == text[i + 1] && rest[j] == text[j + 1]);
        }
        lemma_no_link(rest, open + 1);
        lemma_no_link(rest, open);
        if open > 0 {
            lemma_no_link(rest, (open - 1) as nat);
        }
    }
}

/// Without a blank there are no signs before one.
proof fn lemma_no_blank(text: Seq<char>, most: nat)
    requires
        forall|i: int| 0 <= i < text.len() ==> (#[trigger] text[i]) != ' ' && text[i] != '\t',
    ensures
        !hashes_then_blank(text, most),
    decreases most,
{
    if most > 0 && text.len() > 0 {
        let rest = text.skip(1);
        assert forall|i: int| 0 <= i < rest.len() implies (#[trigger] rest[i]) != ' ' && rest[i]
            != '\t' by {
            assert(rest[i] == text[i + 1]);
        }
        lemma_no_blank(rest, (most - 1) as nat);
    }
}

/// Brackets, signs and dots that begin no formatting are left alone: a text without any of the
/// seven characters, without the shape of a link, and either without blanks or in one line that
/// begins with something else than a mark, a digit or a blank, comes back unchanged.
pub proof fn marks_without_effect_are_kept(text: Seq<char>)
    requires
        forall|i: int|
            0 <= i < text.len() ==> (#[trigger] text[i]) != '\\' && text[i] != '*' && text[i] != '_'
                && text[i] != '~' && text[i] != '`' && text[i] != '|' && text[i] != '>',
        forall|i: int, j: int|
            0 <= i && i + 1 < j < text.len() && (#[trigger] text[i]) == ']' && text[i + 1] == '('
                ==> (#[trigger] text[j]) != ')',
        (forall|i: int| 0 <= i < text.len() ==> (#[trigger] text[i]) != ' ' && text[i] != '\t') || (
        text.len() > 0 && text[0] != '#' && text[0] != '-' && text[0] != '+' && text[0] != ' '
            && text[0] != '\t' && !('0' <= text[0] <= '9') && forall|i: int|
            0 <= i < text.len() ==> (#[trigger] text[i]) != '\n' && text[i] != '\r'),
    ensures
        discord_escaped(text) == text,
{
    let start = Place::LineStart;
    assert forall|i: int| 0 <= i < text.len() implies !#[trigger] has_formatting_at(text, i) by {
        let rest = text.skip(i);
        assert(rest[0] == text[i]);
        let behind = rest.skip(1);
        assert forall|m: int, j: int|
            0 <= m && m + 1 < j < behind.len() && (#[trigger] behind[m]) == ']' && behind[m + 1]
                == '(' implies (#[trigger] behind[j]) != ')' by {
            assert(behind[m] == text[i + 1 + m] && behind[j] == text[i + 1 + j]);
            assert(behind[m + 1] == text[i + 1 + m + 1]);
        }
        lemma_no_link(behind, 0);
        if forall|j: int| 0 <= j < text.len() ==> (#[trigger] text[j]) != ' ' && text[j] != '\t' {
            assert forall|j: int| 0 <= j < behind.len() implies (#[trigger] behind[j]) != ' '
                && behind[j] != '\t' by {
                assert(behind[j] == text[i + 1 + j]);
            }
            lemma_no_blank(behind, 2);
            lemma_no_blank(behind, 1);
            lemma_no_blank(behind, 0);
        } else if i > 0 {
            lemma_stays_inside(text, i);
        }
    }
    ordinary_text_is_left_alone(text);
}

/// A line that begins with a letter has no further start.
proof fn lemma_stays_inside(text: Seq<char>, i: int)
    requires
        0 < i <= text.len(),
        text[0] != '-' && text[0] != ' ' && text[0] != '\t' && !('0' <= text[0] <= '9'),
        forall|j: int| 0 <= j < text.len() ==> (#[trigger] text[j]) != '\n' && text[j] != '\r',
    ensures
        place_at(Place::LineStart, text, i) == Place::Inside,
    decreases i,
{
    lemma_place_step(Place::LineStart, text, i - 1);
    if i > 1 {
        lemma_stays_inside(text, i - 1);
    }
}

/// The mark of small text, a dash and a sign `#` before a blank, gets two backslashes.
pub proof fn small_text_is_disarmed(
    before: Seq<char>,
    blanks: Seq<char>,
    blank: char,
    after: Seq<char>,
)
    requires
        before.len() == 0 || before.last() == '\n' || before.last() == '\r',
        forall|i: int| 0 <= i < blanks.len() ==> (#[trigger] blanks[i]) == ' ' || blanks[i] == '\t',
        blank == ' ' || blank == '\t',
    ensures
        ({
            let text = before + blanks + (seq!['-', '#'] + seq![blank] + after);
            let out = discord_escaped(text);
            exists|k: int|
                0 <= k && k + 1 < out.len() && #[trigger] out[k] == '\\' && out[k + 1] == '#'
                    && adds_only_backslashes(before + blanks + seq!['-'], out.take(k))
        }),
{
    let item = seq!['-', '#'] + seq![blank] + after;
    let text = before + blanks + item;
    let n = (before + blanks).len() as int;
    lemma_line_start(before, blanks, item, blanks.len() as int);
    assert(text[n] == '-');
    assert(text[n + 1] == '#');
    assert(text[n + 2] == blank);
    lemma_place_step(Place::LineStart, text, n);
    assert(text.take(n + 1) =~= before + blanks + seq!['-']);
    assert(text.skip(n + 1)[0] == '#');
    assert(text.skip(n + 1).skip(1)[0] == blank);
    lemma_active_gets_backslash(text, n + 1);
}

/// A character that may not act is written as it is, right behind what is written for the text
/// before.
proof fn lemma_harmless_is_written(text: Seq<char>, n: int)
    requires
        0 <= n < text.len(),
        !is_active(place_at(Place::LineStart, text, n), text.skip(n)),
    ensures
        exists|k: int|
            0 <= k < discord_escaped(text).len() && #[trigger] discord_escaped(text)[k] == text[n]
                && adds_only_backslashes(text.take(n), discord_escaped(text).take(k)),
{
    let head = escaped_upto(Place::LineStart, text, n);
    let out = discord_escaped(text);
    let tail = escaped_from(place_at(Place::LineStart, text, n), text.skip(n));
    lemma_split_at(Place::LineStart, text, n);
    assert(tail[0] == text[n]);
    let k = head.len() as int;
    assert(out[k] == tail[0]);
    assert(out.take(k) =~= head);
}

/// A sign that does not stand before a blank, and a bracket behind which no link follows, are
/// written as they are, wherever they stand.
pub proof fn marks_before_text_are_kept(text: Seq<char>, n: int)
    requires
        0 <= n < text.len(),
        text[n] == '[' || text[n] == '#' || text[n] == '-' || text[n] == '+' || text[n] == '.',
        text[n] == '[' ==> forall|i: int, j: int|
            n < i && i + 1 < j < text.len() && (#[trigger] text[i]) == ']' && text[i + 1] == '('
                ==> (#[trigger] text[j]) != ')',
        text[n] != '[' && n + 1 < text.len() ==> text[n + 1] != ' ' && text[n + 1] != '\t',
        (text[n] == '#' || text[n] == '-') && n + 2 < text.len() && text[n + 1] == '#' ==> text[n
            + 2] != ' ' && text[n + 2] != '\t',
        text[n] == '#' && n + 3 < text.len() && text[n + 1] == '#' && text[n + 2] == '#' ==> text[n
            + 3] != ' ' && text[n + 3] != '\t',
    ensures
        exists|k: int|
            0 <= k < discord_escaped(text).len() && #[trigger] discord_escaped(text)[k] == text[n]
                && adds_only_backslashes(text.take(n), discord_escaped(text).take(k)),
{
    let rest = text.skip(n);
    let r1 = rest.skip(1);
    let r2 = r1.skip(1);
    let r3 = r2.skip(1);
    assert(rest[0] == text[n]);
    assert(r1.len() > 0 ==> r1[0] == text[n + 1]);
    assert(r2.len() > 0 && r1.len() > 0 ==> r2[0] == text[n + 2]);
    assert(r3.len() > 0 && r2.len() > 0 && r1.len() > 0 ==> r3[0] == text[n + 3]);
    if text[n] == '[' {
        assert forall|i: int, j: int|
            0 <= i && i + 1 < j < r1.len() && (#[trigger] r1[i]) == ']' && r1[i + 1]
                == '(' implies (#[trigger] r1[j]) != ')' by {
            assert(r1[i] == text[n + 1 + i] && r1[j] == text[n + 1 + j]);
            assert(r1[i + 1] == text[n + 1 + i + 1]);
        }
        lemma_no_link(r1, 0);
    }
    reveal_with_fuel(hashes_then_blank, 4);
    lemma_harmless_is_written(text, n);
}

/// Behind something else than a blank, a line does not start until it ends.
proof fn lemma_not_at_start(text: Seq<char>, j: int, i: int)
    requires
        0 <= j < i <= text.len(),
        text[j] != ' ' && text[j] != '\t',
        forall|m: int| j <= m < i ==> (#[trigger] text[m]) != '\n' && text[m] != '\r',
    ensures
        place_at(Place::LineStart, text, i) != Place::LineStart,
        text[j] != '-' || j + 1 < i ==> place_at(Place::LineStart, text, i) != Place::BehindDash,
        !('0' <= text[j] <= '9') ==> place_at(Place::LineStart, text, i) != Place::BehindNumber,
    decreases i,
{
    lemma_place_step(Place::LineStart, text, i - 1);
    assert(text[i - 1] != '\n');
    if i - 1 > j {
        lemma_not_at_start(text, j, i - 1);
    }
}

/// A sign that stands behind other text of its line is written as it is: a `#` behind anything but
/// blanks and a dash right before it, a dash or a `+` behind anything but blanks, a dot behind anything but blanks
/// and digits.
pub proof fn marks_behind_text_are_kept(text: Seq<char>, j: int, n: int)
    requires
        0 <= j < n < text.len(),
        text[n] == '#' || text[n] == '-' || text[n] == '+' || text[n] == '.',
        text[j] != ' ' && text[j] != '\t',
        text[n] == '#' ==> text[j] != '-' || j + 1 < n,
        text[n] == '.' ==> !('0' <= text[j] <= '9'),
        forall|m: int| j <= m < n ==> (#[trigger] text[m]) != '\n' && text[m] != '\r',
    ensures
        exists|k: int|
            0 <= k < discord_escaped(text).len() && #[trigger] discord_escaped(text)[k] == text[n]
                && adds_only_backslashes(text.take(n), discord_escaped(text).take(k)),
{
    lemma_not_at_start(text, j, n);
    assert(text.skip(n)[0] == text[n]);
    lemma_harmless_is_written(text, n);
}

/// A dot is written as it is where no digit stands right before it.
pub proof fn dots_without_a_number_are_kept(text: Seq<char>, n: int)
    requires
        0 <= n < text.len(),
        text[n] == '.',
        n > 0 ==> !('0' <= text[n - 1] <= '9'),
    ensures
        exists|k: int|
            0 <= k < discord_escaped(text).len() && #[trigger] discord_escaped(text)[k] == '.'
                && adds_only_backslashes(text.take(n), discord_escaped(text).take(k)),
{
    if n > 0 {
        lemma_place_step(Place::LineStart, text, n - 1);
    }
    assert(text.skip(n)[0] == text[n]);
    lemma_harmless_is_written(text, n);
}

/// A dot is written as it is behind anything in its line but blanks and then one number: `m` is not
/// of the number, and `j` no blank before it.
pub proof fn dots_behind_more_than_a_number_are_kept(text: Seq<char>, j: int, m: int, n: int)
    requires
        0 <= j <= m < n < text.len(),
        text[n] == '.',
        text[j] != ' ' && text[j] != '\t',
        !('0' <= text[m] <= '9'),
        forall|i: int| j <= i < n ==> (#[trigger] text[i]) != '\n' && text[i] != '\r',
    ensures
        exists|k: int|
            0 <= k < discord_escaped(text).len() && #[trigger] discord_escaped(text)[k] == '.'
                && adds_only_backslashes(text.take(n), discord_escaped(text).take(k)),
{
    lemma_behind_no_number(text, j, m, n);
    assert(text.skip(n)[0] == text[n]);
    lemma_harmless_is_written(text, n);
}

/// Behind anything but one number, a line has no number at its start.
proof fn lemma_behind_no_number(text: Seq<char>, j: int, m: int, n: int)
    requires
        0 <= j <= m < n <= text.len(),
        text[j] != ' ' && text[j] != '\t',
        !('0' <= text[m] <= '9'),
        forall|i: int| j <= i < n ==> (#[trigger] text[i]) != '\n' && text[i] != '\r',
    ensures
        place_at(Place::LineStart, text, n) != Place::LineStart,
        place_at(Place::LineStart, text, n) != Place::BehindNumber,
    decreases n,
{
    lemma_place_step(Place::LineStart, text, n - 1);
    assert(text[n - 1] != '\n');
    if n - 1 > m {
        lemma_behind_no_number(text, j, m, n - 1);
    } else if n - 1 > j {
        lemma_not_at_start(text, j, n - 1);
    }
}

/// A `#` right behind a dash is written as it is where no blank follows.
pub proof fn signs_behind_a_dash_are_kept(text: Seq<char>, n: int)
    requires
        0 < n < text.len(),
        text[n - 1] == '-',
        text[n] == '#',
        n + 1 < text.len() ==> text[n + 1] != ' ' && text[n + 1] != '\t',
    ensures
        exists|k: int|
            0 <= k < discord_escaped(text).len() && #[trigger] discord_escaped(text)[k] == '#'
                && adds_only_backslashes(text.take(n), discord_escaped(text).take(k)),
{
    lemma_place_step(Place::LineStart, text, n - 1);
    assert(text.skip(n)[0] == text[n]);
    assert(n + 1 < text.len() ==> text.skip(n).skip(1)[0] == text[n + 1]);
    lemma_harmless_is_written(text, n);
}

} // verus!
