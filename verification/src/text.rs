//! Small operations on text that the rest of the crate is built from.

use vstd::prelude::*;
use vstd::string::StringExecFns;
use vstd::string::StringSliceAdditionalSpecFns;

verus! {

/// The text inside an optional string.
pub open spec fn text_of(text: Option<String>) -> Option<Seq<char>> {
    match text {
        Some(t) => Some(t@),
        None => None,
    }
}

/// `true` when `text` ends with the characters of `suffix`.
pub open spec fn has_suffix(text: Seq<char>, suffix: Seq<char>) -> bool {
    suffix.len() <= text.len() && text.skip(text.len() - suffix.len()) == suffix
}

/// The characters of `text`, one by one.
pub(crate) fn chars_of(text: &str) -> (chars: Vec<char>)
    ensures
        chars@ == text@,
{
    let mut chars: Vec<char> = Vec::new();
    for c in iter: text.chars()
        invariant
            chars@ == iter.seq().take(iter.index()),
            iter.seq() == text@,
    {
        chars.push(c);
    }
    chars
}

/// `String::push` of std: the character goes behind the text that is there.
pub assume_specification[ String::push ](text: &mut String, c: char)
    ensures
        final(text)@ == old(text)@.push(c),
;

/// `text` in small letters, as Unicode has it.
pub uninterp spec fn lowercase(text: Seq<char>) -> Seq<char>;

/// `str::to_lowercase` of std: the text in small letters, which depends on the text alone.
#[verifier::external_body]
pub(crate) fn to_lowercase(text: &str) -> (lower: String)
    ensures
        lower@ == lowercase(text@),
{
    text.to_lowercase()
}

/// The two texts, one after the other.
pub(crate) fn join2(a: &str, b: &str) -> (joined: String)
    ensures
        joined@ == a@ + b@,
{
    let mut joined = a.to_owned();
    joined.append(b);
    joined
}

/// The three texts, one after the other.
pub(crate) fn join3(a: &str, b: &str, c: &str) -> (joined: String)
    ensures
        joined@ == a@ + b@ + c@,
{
    let mut joined = a.to_owned();
    joined.append(b);
    joined.append(c);
    joined
}

/// The number of bytes that the first `n` characters of `text` take.
pub open spec fn byte_offset(text: Seq<char>, n: int) -> nat {
    vstd::utf8::encode_utf8(text.take(n)).len()
}

/// Encoding two texts one after the other is encoding their concatenation.
pub(crate) proof fn lemma_encode_concat(a: Seq<char>, b: Seq<char>)
    ensures
        vstd::utf8::encode_utf8(a + b) == vstd::utf8::encode_utf8(a) + vstd::utf8::encode_utf8(b),
    decreases a.len(),
{
    if a.len() == 0 {
        assert(a + b =~= b);
        assert(vstd::utf8::encode_utf8(a) =~= Seq::<u8>::empty());
    } else {
        lemma_encode_concat(a.drop_first(), b);
        assert((a + b).drop_first() =~= a.drop_first() + b);
    }
    assert(vstd::utf8::encode_utf8(a + b) =~= vstd::utf8::encode_utf8(a) + vstd::utf8::encode_utf8(b));
}

/// The bytes up to character `j` are those up to character `i` and those in between.
pub(crate) proof fn lemma_offset_step(text: Seq<char>, i: int, j: int)
    requires
        0 <= i <= j <= text.len(),
    ensures
        byte_offset(text, j) == byte_offset(text, i) + byte_offset(text.skip(i), j - i),
        byte_offset(text, j) <= vstd::utf8::encode_utf8(text).len(),
{
    lemma_encode_concat(text.take(i), text.skip(i).take(j - i));
    assert(text.take(i) + text.skip(i).take(j - i) =~= text.take(j));
    lemma_encode_concat(text.take(j), text.skip(j));
    assert(text.take(j) + text.skip(j) =~= text);
}

/// Between two characters there is a boundary of the encoding.
proof fn lemma_boundary(a: Seq<char>, b: Seq<char>)
    ensures
        vstd::utf8::is_char_boundary(vstd::utf8::encode_utf8(a + b), vstd::utf8::encode_utf8(a).len() as int),
    decreases a.len(),
{
    broadcast use vstd::utf8::encode_utf8_valid_utf8;

    let whole = vstd::utf8::encode_utf8(a + b);
    if a.len() > 0 {
        lemma_boundary(a.drop_first(), b);
        vstd::utf8::encode_utf8_first_scalar(a + b);
        assert((a + b).drop_first() =~= a.drop_first() + b);
        assert(vstd::utf8::pop_first_scalar(whole) =~= vstd::utf8::encode_utf8(a.drop_first() + b));
        lemma_encode_concat(a, b);
    }
}

/// Splits `text` behind its first `n` characters, which take `mid` bytes.
pub(crate) fn split_chars<'a>(text: &'a str, mid: usize, Ghost(n): Ghost<int>) -> (parts: (
    &'a str,
    &'a str,
))
    requires
        0 <= n <= text@.len(),
        mid == byte_offset(text@, n),
    ensures
        parts.0@ == text@.take(n),
        parts.1@ == text@.skip(n),
{
    proof {
        let a = text@.take(n);
        let b = text@.skip(n);
        assert(a + b =~= text@);
        lemma_boundary(a, b);
        lemma_encode_concat(a, b);
    }
    let parts = text.split_at(mid);
    proof {
        broadcast use vstd::utf8::encode_utf8_decode_utf8;

        let a = text@.take(n);
        let b = text@.skip(n);
        assert(parts.0.spec_bytes() =~= vstd::utf8::encode_utf8(a));
        assert(parts.1.spec_bytes() =~= vstd::utf8::encode_utf8(b));
        assert(vstd::utf8::decode_utf8(vstd::utf8::encode_utf8(parts.0@)) == parts.0@);
        assert(vstd::utf8::decode_utf8(vstd::utf8::encode_utf8(parts.1@)) == parts.1@);
    }
    parts
}

/// Takes `rest`, which is `whole` from character `at` on, apart: the text before character `start`,
/// that up to character `end`, and what follows. The first takes `gap` bytes, the second `len`.
pub(crate) fn cut_out<'a>(
    rest: &'a str,
    gap: usize,
    len: usize,
    Ghost(whole): Ghost<Seq<char>>,
    Ghost(at): Ghost<int>,
    Ghost(start): Ghost<int>,
    Ghost(end): Ghost<int>,
) -> (parts: (&'a str, &'a str, &'a str))
    requires
        0 <= at <= start <= end <= whole.len(),
        rest@ == whole.skip(at),
        gap == byte_offset(whole, start) - byte_offset(whole, at),
        len == byte_offset(whole, end) - byte_offset(whole, start),
    ensures
        parts.0@ == whole.subrange(at, start),
        parts.1@ == whole.subrange(start, end),
        parts.2@ == whole.skip(end),
{
    proof {
        lemma_offset_step(whole, at, start);
        lemma_offset_step(whole, start, end);
    }
    let (before, tail) = split_chars(rest, gap, Ghost(start - at));
    assert(tail@ =~= whole.skip(start));
    let (inside, after) = split_chars(tail, len, Ghost(end - start));
    assert(before@ =~= whole.subrange(at, start));
    assert(inside@ =~= whole.subrange(start, end));
    assert(after@ =~= whole.skip(end));
    (before, inside, after)
}

/// Tells whether `text` ends with `suffix`.
pub fn ends_with(text: &str, suffix: &str) -> (answer: bool)
    ensures
        answer == has_suffix(text@, suffix@),
{
    let whole = chars_of(text);
    let tail = chars_of(suffix);
    if tail.len() > whole.len() {
        return false;
    }
    let offset: usize = whole.len() - tail.len();
    for i in 0..tail.len()
        invariant
            whole@ == text@,
            tail@ == suffix@,
            offset + tail.len() == whole.len(),
            forall|j: int| 0 <= j < i ==> whole@[offset + j] == tail@[j],
    {
        if whole[offset + i] != tail[i] {
            assert(text@.skip(offset as int)[i as int] != suffix@[i as int]);
            return false;
        }
    }
    assert(text@.skip(offset as int) =~= suffix@);
    true
}

/// A text ends with another exactly if something, or nothing, precedes that at its end.
pub proof fn suffix_is_what_stands_last(text: Seq<char>, before: Seq<char>, suffix: Seq<char>)
    ensures
        has_suffix(before + suffix, suffix),
        has_suffix(text, suffix) ==> exists|front: Seq<char>| text == #[trigger] (front + suffix),
{
    assert((before + suffix).skip(before.len() as int) =~= suffix);
    if has_suffix(text, suffix) {
        let front = text.take(text.len() - suffix.len());
        assert(text =~= front + suffix);
    }
}

} // verus!
