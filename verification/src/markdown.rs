//! Escaping of text for a message: links are kept from being previewed and formatting characters
//! from being read as such.

use std::borrow::Cow;
use vstd::prelude::*;
use vstd::string::StringExecFns;

use crate::text::cut_out;

verus! {

/// What is escaped: a link, or a single formatting character.
pub const META_PATTERN: &'static str = "(https?://\\S+)|([_`*~|])";

/// The characters that Unicode counts as white space (the property `White_Space`).
pub open spec fn is_space(c: char) -> bool {
    ||| '\u{9}' <= c <= '\u{d}'
    ||| c == ' ' || c == '\u{85}' || c == '\u{a0}' || c == '\u{1680}'
    ||| '\u{2000}' <= c <= '\u{200a}'
    ||| c == '\u{2028}' || c == '\u{2029}' || c == '\u{202f}' || c == '\u{205f}' || c == '\u{3000}'
}

/// The characters that are escaped one by one.
pub open spec fn is_meta(c: char) -> bool {
    c == '_' || c == '`' || c == '*' || c == '~' || c == '|'
}

/// The number of characters before the first white space.
pub open spec fn word_len(text: Seq<char>) -> nat
    decreases text.len(),
{
    if text.len() == 0 || is_space(text[0]) {
        0
    } else {
        1 + word_len(text.skip(1))
    }
}

/// The length of the scheme, `http://` or `https://`, that `text` begins with.
pub open spec fn scheme_len(text: Seq<char>) -> nat {
    if seq!['h', 't', 't', 'p', ':', '/', '/'].is_prefix_of(text) {
        7
    } else if seq!['h', 't', 't', 'p', 's', ':', '/', '/'].is_prefix_of(text) {
        8
    } else {
        0
    }
}

/// The length of the link that `text` begins with: a scheme and at least one more character, up to
/// the first white space. Zero when it begins with none.
pub open spec fn link_len(text: Seq<char>) -> nat {
    let scheme = scheme_len(text);
    let word = word_len(text.skip(scheme as int));
    if scheme > 0 && word > 0 {
        scheme + word
    } else {
        0
    }
}

/// A place in a text, from character `start` to before character `end`, that holds a link or a
/// formatting character.
pub struct Found {
    pub start: int,
    pub end: int,
    pub link: bool,
}

/// The places in `text`, from character `at` on, that are escaped, from left to right.
pub open spec fn found_from(text: Seq<char>, at: int) -> Seq<Found>
    decreases text.len() - at,
{
    if at < 0 || at >= text.len() {
        Seq::empty()
    } else if link_len(text.skip(at)) > 0 {
        let end = at + link_len(text.skip(at));
        proof {
            lemma_link_fits(text.skip(at));
        }
        seq![Found { start: at, end, link: true }] + found_from(text, end)
    } else if is_meta(text[at]) {
        seq![Found { start: at, end: at + 1, link: false }] + found_from(text, at + 1)
    } else {
        found_from(text, at + 1)
    }
}

/// `text` with each link in angle brackets and a backslash before each formatting character
/// outside of links.
pub open spec fn meta_escaped(text: Seq<char>) -> Seq<char>
    decreases text.len(),
{
    let link = link_len(text) as int;
    if text.len() == 0 {
        Seq::empty()
    } else if link > 0 {
        proof {
            lemma_link_fits(text);
        }
        seq!['<'] + text.take(link) + seq!['>'] + meta_escaped(text.skip(link))
    } else if is_meta(text[0]) {
        seq!['\\', text[0]] + meta_escaped(text.skip(1))
    } else {
        seq![text[0]] + meta_escaped(text.skip(1))
    }
}

/// `Regex::captures_iter` of the `regex` crate, for the pattern above, which its `Regex::new` takes:
/// the successive leftmost matches that do not overlap. Each comes as the bytes where it begins and ends, and whether the
/// first group took part in it. In that crate `\S` is any character without the property
/// `White_Space`, `+` takes as many as there are, and of two alternatives the first that matches is
/// taken.
#[verifier::external_body]
fn captures(pattern: &str, text: &str) -> (found: Vec<(usize, usize, bool)>)
    requires
        pattern@ == META_PATTERN@,
    ensures
        found@.len() == found_from(text@, 0).len(),
        forall|i: int| #![trigger found@[i]]
            0 <= i < found@.len() ==> {
                &&& found@[i].0 == crate::text::byte_offset(text@, found_from(text@, 0)[i].start)
                &&& found@[i].1 == crate::text::byte_offset(text@, found_from(text@, 0)[i].end)
                &&& found@[i].2 == found_from(text@, 0)[i].link
            },
{
    let regex = regex::Regex::new(pattern).unwrap();
    let captures = regex.captures_iter(text).map(|c| (c.get(0).unwrap().range(), c.get(1)));
    captures.map(|(range, link)| (range.start, range.end, link.is_some())).collect()
}

/// Up to the first place found nothing changes, and behind it the text is escaped anew.
proof fn lemma_next_found(text: Seq<char>, at: int)
    requires
        0 <= at <= text.len(),
    ensures
        found_from(text, at).len() == 0 ==> meta_escaped(text.skip(at)) == text.skip(at),
        found_from(text, at).len() > 0 ==> ({
            let first = found_from(text, at)[0];
            &&& at <= first.start < first.end <= text.len()
            &&& found_from(text, at).skip(1) == found_from(text, first.end)
            &&& meta_escaped(text.skip(at)) == text.subrange(at, first.start) + replacement(
                text.subrange(first.start, first.end),
                first.link,
            ) + meta_escaped(text.skip(first.end))
        }),
    decreases text.len() - at,
{
    if at < text.len() {
        let rest = text.skip(at);
        let link = link_len(rest) as int;
        if link > 0 {
            lemma_link_fits(rest);
            assert(found_from(text, at).skip(1) =~= found_from(text, at + link));
            assert(rest.skip(link) =~= text.skip(at + link));
            assert(rest.take(link) =~= text.subrange(at, at + link));
            assert(text.subrange(at, at) =~= Seq::<char>::empty());
            assert(meta_escaped(rest) =~= text.subrange(at, at) + replacement(
                text.subrange(at, at + link),
                true,
            ) + meta_escaped(text.skip(at + link)));
        } else {
            assert(rest.skip(1) =~= text.skip(at + 1));
            if is_meta(text[at]) {
                assert(found_from(text, at).skip(1) =~= found_from(text, at + 1));
                assert(meta_escaped(rest) =~= text.subrange(at, at) + replacement(
                    text.subrange(at, at + 1),
                    false,
                ) + meta_escaped(text.skip(at + 1)));
            } else {
                lemma_next_found(text, at + 1);
                if found_from(text, at).len() == 0 {
                    assert(meta_escaped(rest) =~= rest);
                } else {
                    let first = found_from(text, at)[0];
                    assert(seq![text[at]] + text.subrange(at + 1, first.start) =~= text.subrange(
                        at,
                        first.start,
                    ));
                    assert(meta_escaped(rest) =~= text.subrange(at, first.start) + replacement(
                        text.subrange(first.start, first.end),
                        first.link,
                    ) + meta_escaped(text.skip(first.end)));
                }
            }
        }
    }
}

/// A word is no longer than the text it stands in.
proof fn lemma_word_fits(text: Seq<char>)
    ensures
        word_len(text) <= text.len(),
    decreases text.len(),
{
    if text.len() > 0 && !is_space(text[0]) {
        lemma_word_fits(text.skip(1));
    }
}

/// A link is no longer than the text it stands in.
pub proof fn lemma_link_fits(text: Seq<char>)
    ensures
        link_len(text) <= text.len(),
{
    lemma_word_fits(text.skip(scheme_len(text) as int));
}

/// How a place that was found is written: a link in angle brackets, a formatting character behind
/// a backslash.
pub open spec fn replacement(found: Seq<char>, link: bool) -> Seq<char> {
    if link {
        seq!['<'] + found + seq!['>']
    } else {
        seq!['\\'] + found
    }
}

/// Writes the text before a place that was found, and the place itself.
fn write_found(escaped: &mut String, gap: &str, found: &str, link: bool)
    ensures
        final(escaped)@ == old(escaped)@ + gap@ + replacement(found@, link),
{
    let ghost before = escaped@;
    escaped.append(gap);
    if link {
        escaped.push('<');
        escaped.append(found);
        escaped.push('>');
    } else {
        escaped.push('\\');
        escaped.append(found);
    }
    assert(escaped@ =~= before + gap@ + replacement(found@, link));
}

/// Escapes `text` for a message: a link is put in angle brackets, and outside of links each
/// formatting character gets a backslash. Where there is nothing to escape, `text` itself comes
/// back.
pub fn escape(text: &str) -> (escaped: Cow<'_, str>)
    ensures
        escaped@ == meta_escaped(text@),
        escaped is Borrowed <==> found_from(text@, 0).len() == 0,
        escaped is Borrowed <==> escaped@ == text@,
        bare(escaped@) == bare(text@),
{
    proof {
        escaping_loses_nothing(text@);
        changed_exactly_where_found(text@);
    }
    let found = captures(META_PATTERN, text);
    let ghost places = found_from(text@, 0);
    assert(text@.skip(0) =~= text@);
    if found.len() == 0 {
        proof {
            lemma_next_found(text@, 0);
        }
        return Cow::Borrowed(text);
    }
    let mut escaped = String::new();
    let mut rest: &str = text;
    let mut done: usize = 0;
    let ghost mut at: int = 0;
    assert(places.skip(0) =~= places);
    assert(text@.take(0) =~= Seq::<char>::empty());
    for i in 0..found.len()
        invariant
            0 <= at <= text@.len(),
            rest@ == text@.skip(at),
            done == crate::text::byte_offset(text@, at),
            places == found_from(text@, 0),
            found@.len() == places.len(),
            forall|k: int| #![trigger found@[k]]
                0 <= k < found@.len() ==> {
                    &&& found@[k].0 == crate::text::byte_offset(text@, places[k].start)
                    &&& found@[k].1 == crate::text::byte_offset(text@, places[k].end)
                    &&& found@[k].2 == places[k].link
                },
            found_from(text@, at) == places.skip(i as int),
            meta_escaped(text@) == escaped@ + meta_escaped(text@.skip(at)),
    {
        let (start, end, link) = found[i];
        let ghost first = places[i as int];
        let ghost before = escaped@;
        proof {
            lemma_next_found(text@, at);
            assert(places.skip(i as int)[0] == first);
            assert(places.skip(i as int).skip(1) =~= places.skip(i + 1));
            crate::text::lemma_offset_step(text@, at, first.start);
            crate::text::lemma_offset_step(text@, first.start, first.end);
        }
        let (gap, piece, tail) = cut_out(
            rest,
            start - done,
            end - start,
            Ghost(text@),
            Ghost(at),
            Ghost(first.start),
            Ghost(first.end),
        );
        write_found(&mut escaped, gap, piece, link);
        proof {
            assert(before + meta_escaped(text@.skip(at)) =~= escaped@ + meta_escaped(
                text@.skip(first.end),
            ));
            at = first.end;
        }
        rest = tail;
        done = end;
    }
    proof {
        lemma_next_found(text@, at);
        assert(places.skip(places.len() as int) =~= Seq::<Found>::empty());
    }
    escaped.append(rest);
    Cow::Owned(escaped)
}

/// A text in which there is nothing to escape is left as it is.
pub proof fn plain_text_is_left_alone(text: Seq<char>)
    requires
        found_from(text, 0).len() == 0,
    ensures
        meta_escaped(text) == text,
{
    lemma_next_found(text, 0);
    assert(text.skip(0) =~= text);
}

/// Nothing inside a link is escaped: a text that is one link is put in brackets as it stands.
pub proof fn links_are_kept_whole(text: Seq<char>)
    requires
        text.len() > 0,
        link_len(text) == text.len(),
    ensures
        meta_escaped(text) == seq!['<'] + text + seq!['>'],
{
    reveal_with_fuel(meta_escaped, 2);
    assert(text.take(text.len() as int) =~= text);
    assert(meta_escaped(text) =~= seq!['<'] + text + seq!['>']);
}

/// Escaping goes from left to right, and a formatting character that is no part of a link is taken
/// by itself: what stands behind it is escaped as if it stood alone.
pub proof fn formatting_characters_are_escaped(text: Seq<char>)
    requires
        text.len() > 0,
        is_meta(text[0]),
    ensures
        meta_escaped(text) == seq!['\\', text[0]] + meta_escaped(text.skip(1)),
{
}

/// `text` without backslashes and angle brackets.
pub open spec fn bare(text: Seq<char>) -> Seq<char>
    decreases text.len(),
{
    if text.len() == 0 {
        Seq::empty()
    } else if text[0] == '\\' || text[0] == '<' || text[0] == '>' {
        bare(text.skip(1))
    } else {
        seq![text[0]] + bare(text.skip(1))
    }
}

/// The signs are taken out of each part by itself.
proof fn lemma_bare_concat(a: Seq<char>, b: Seq<char>)
    ensures
        bare(a + b) == bare(a) + bare(b),
    decreases a.len(),
{
    if a.len() == 0 {
        assert(a + b =~= b);
        assert(bare(a) + bare(b) =~= bare(b));
    } else {
        assert((a + b).skip(1) =~= a.skip(1) + b);
        lemma_bare_concat(a.skip(1), b);
        assert(bare(a + b) =~= bare(a) + bare(b));
    }
}

/// Whatever the text, escaping adds nothing but backslashes and angle brackets, takes nothing out
/// and changes no order.
pub proof fn escaping_loses_nothing(text: Seq<char>)
    ensures
        bare(meta_escaped(text)) == bare(text),
        meta_escaped(text).len() >= text.len(),
    decreases text.len(),
{
    let link = link_len(text) as int;
    if text.len() == 0 {
    } else if link > 0 {
        lemma_link_fits(text);
        escaping_loses_nothing(text.skip(link));
        let front = text.take(link);
        let tail = meta_escaped(text.skip(link));
        assert(seq!['<'].skip(1) =~= Seq::<char>::empty());
        assert(seq!['>'].skip(1) =~= Seq::<char>::empty());
        reveal_with_fuel(bare, 2);
        assert(bare(seq!['<']) =~= Seq::<char>::empty());
        assert(bare(seq!['>']) =~= Seq::<char>::empty());
        lemma_bare_concat(seq!['<'], front);
        lemma_bare_concat(seq!['<'] + front, seq!['>']);
        lemma_bare_concat(seq!['<'] + front + seq!['>'], tail);
        lemma_bare_concat(front, text.skip(link));
        assert(front + text.skip(link) =~= text);
        assert(bare(meta_escaped(text)) =~= bare(text));
    } else {
        let rest = text.skip(1);
        let tail = meta_escaped(rest);
        escaping_loses_nothing(rest);
        if is_meta(text[0]) {
            assert(meta_escaped(text).skip(1) =~= seq![text[0]] + tail);
            assert((seq![text[0]] + tail).skip(1) =~= tail);
            assert((seq![text[0]] + tail)[0] == text[0]);
            assert(bare(meta_escaped(text)) == bare(seq![text[0]] + tail));
        } else {
            assert(meta_escaped(text).skip(1) =~= tail);
        }
    }
}

/// Outside of links, exactly the five characters ``_ ` * ~ |`` get a backslash: a text that does not
/// begin with `h`, and so with no link, begins with its first character, behind a backslash if it is
/// one of the five, and goes on as the rest does alone.
pub proof fn five_characters_get_a_backslash(text: Seq<char>)
    requires
        text.len() > 0,
        text[0] != 'h',
    ensures
        text[0] == '_' || text[0] == '`' || text[0] == '*' || text[0] == '~' || text[0] == '|'
            ==> meta_escaped(text) == seq!['\\', text[0]] + meta_escaped(text.skip(1)),
        text[0] != '_' && text[0] != '`' && text[0] != '*' && text[0] != '~' && text[0] != '|'
            ==> meta_escaped(text) == seq![text[0]] + meta_escaped(text.skip(1)),
{
    let plain = seq!['h', 't', 't', 'p', ':', '/', '/'];
    let secure = seq!['h', 't', 't', 'p', 's', ':', '/', '/'];
    assert(plain[0] == 'h' && secure[0] == 'h');
}

/// An `h` that begins no link is kept.
pub proof fn letters_are_not_links(text: Seq<char>)
    requires
        text.len() > 0,
        text[0] == 'h',
        !seq!['h', 't', 't', 'p', ':', '/', '/'].is_prefix_of(text),
        !seq!['h', 't', 't', 'p', 's', ':', '/', '/'].is_prefix_of(text),
    ensures
        meta_escaped(text) == seq!['h'] + meta_escaped(text.skip(1)),
{
}

/// A word of `n` characters ends where the white space begins.
proof fn lemma_word_is(text: Seq<char>, n: nat)
    requires
        n <= text.len(),
        forall|i: int| 0 <= i < n ==> !is_space(#[trigger] text[i]),
        n < text.len() ==> is_space(text[n as int]),
    ensures
        word_len(text) == n,
    decreases n,
{
    if n > 0 {
        let rest = text.skip(1);
        assert(!is_space(text[0]));
        assert forall|i: int| 0 <= i < n - 1 implies !is_space(#[trigger] rest[i]) by {
            assert(rest[i] == text[i + 1]);
        }
        lemma_word_is(rest, (n - 1) as nat);
    }
}

/// A link, which is `http://` or `https://` and other characters than white space behind it, up to
/// the first white space or the end of the text, stands in angle brackets with nothing inside it changed, and what
/// follows is escaped by itself.
pub proof fn links_stand_in_brackets(scheme: Seq<char>, word: Seq<char>, rest: Seq<char>)
    requires
        scheme == seq!['h', 't', 't', 'p', ':', '/', '/'] || scheme == seq![
            'h',
            't',
            't',
            'p',
            's',
            ':',
            '/',
            '/',
        ],
        word.len() > 0,
        forall|i: int|
            0 <= i < word.len() ==> !('\u{9}' <= #[trigger] word[i] <= '\u{d}') && word[i] != ' '
                && word[i] != '\u{85}' && word[i] != '\u{a0}' && word[i] != '\u{1680}' && !(
            '\u{2000}' <= word[i] <= '\u{200a}') && word[i] != '\u{2028}' && word[i] != '\u{2029}'
                && word[i] != '\u{202f}' && word[i] != '\u{205f}' && word[i] != '\u{3000}',
        rest.len() > 0 ==> '\u{9}' <= rest[0] <= '\u{d}' || rest[0] == ' ' || rest[0] == '\u{85}'
            || rest[0] == '\u{a0}' || rest[0] == '\u{1680}' || '\u{2000}' <= rest[0] <= '\u{200a}'
            || rest[0] == '\u{2028}' || rest[0] == '\u{2029}' || rest[0] == '\u{202f}' || rest[0]
            == '\u{205f}' || rest[0] == '\u{3000}',
    ensures
        meta_escaped(scheme + word + rest) == seq!['<'] + scheme + word + seq!['>'] + meta_escaped(
            rest,
        ),
{
    let text = scheme + word + rest;
    let behind = text.skip(scheme.len() as int);
    assert(behind =~= word + rest);
    assert(scheme.is_prefix_of(text));
    if scheme.len() == 8 {
        assert(text[4] == 's');
        assert(seq!['h', 't', 't', 'p', ':', '/', '/'][4] == ':');
    }
    assert forall|i: int| 0 <= i < word.len() implies !is_space(#[trigger] behind[i]) by {
        assert(behind[i] == word[i]);
    }
    lemma_word_is(behind, word.len());
    let link = (scheme.len() + word.len()) as int;
    assert(text.take(link) =~= scheme + word);
    assert(text.skip(link) =~= rest);
    assert(seq!['<'] + (scheme + word) =~= seq!['<'] + scheme + word);
}

/// A scheme with nothing visible behind it is no link.
pub proof fn bare_schemes_are_no_links(scheme: Seq<char>, rest: Seq<char>)
    requires
        scheme == seq!['h', 't', 't', 'p', ':', '/', '/'] || scheme == seq![
            'h',
            't',
            't',
            'p',
            's',
            ':',
            '/',
            '/',
        ],
        rest.len() > 0 ==> rest[0] == ' ' || rest[0] == '\n' || rest[0] == '\t' || rest[0] == '\r',
    ensures
        meta_escaped(scheme + rest) == seq!['h'] + meta_escaped((scheme + rest).skip(1)),
{
    let text = scheme + rest;
    assert(scheme.is_prefix_of(text));
    if scheme.len() == 8 {
        assert(text[4] == 's');
        assert(seq!['h', 't', 't', 'p', ':', '/', '/'][4] == ':');
    }
    assert(text.skip(scheme.len() as int) =~= rest);
}

/// A text without a colon, and so without a link, and without any of the five characters comes back
/// unchanged.
pub proof fn text_without_marks_is_kept(text: Seq<char>)
    requires
        forall|i: int|
            0 <= i < text.len() ==> (#[trigger] text[i]) != ':' && text[i] != '_' && text[i] != '`'
                && text[i] != '*' && text[i] != '~' && text[i] != '|',
    ensures
        meta_escaped(text) == text,
    decreases text.len(),
{
    if text.len() > 0 {
        let rest = text.skip(1);
        let plain = seq!['h', 't', 't', 'p', ':', '/', '/'];
        let secure = seq!['h', 't', 't', 'p', 's', ':', '/', '/'];
        assert forall|i: int| 0 <= i < rest.len() implies (#[trigger] rest[i]) != ':' && rest[i]
            != '_' && rest[i] != '`' && rest[i] != '*' && rest[i] != '~' && rest[i] != '|' by {
            assert(rest[i] == text[i + 1]);
        }
        if plain.is_prefix_of(text) {
            assert(text[4] == plain[4]);
        }
        if secure.is_prefix_of(text) {
            assert(text[5] == secure[5]);
        }
        text_without_marks_is_kept(rest);
        assert(meta_escaped(text) =~= text);
    }
}

/// A text comes back unchanged exactly if there is nothing in it to escape.
pub proof fn changed_exactly_where_found(text: Seq<char>)
    ensures
        meta_escaped(text) == text <==> found_from(text, 0).len() == 0,
{
    lemma_next_found(text, 0);
    assert(text.skip(0) =~= text);
    if found_from(text, 0).len() > 0 {
        let first = found_from(text, 0)[0];
        escaping_loses_nothing(text.skip(first.end));
        assert(meta_escaped(text).len() > text.len());
    }
}

} // verus!
