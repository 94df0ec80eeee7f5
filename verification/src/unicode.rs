//! What std knows of Unicode.
use vstd::prelude::*;

use crate::text::{chars_of, string_of, texts};

verus! {

/// What `str::to_lowercase` makes of a text.
pub uninterp spec fn lowercase(text: Seq<char>) -> Seq<char>;

/// What `char::to_lowercase` makes of a character: the first character, and those
/// that follow it.
pub uninterp spec fn lowercase_parts(c: char) -> (char, Seq<char>);

/// The lower case of a character: one character or more.
pub open spec fn lowercase_of(c: char) -> Seq<char> {
    seq![lowercase_parts(c).0] + lowercase_parts(c).1
}

/// What `char::is_alphanumeric` says of a character.
pub uninterp spec fn alphanumeric_by_table(c: char) -> bool;

/// The character is one of the Cyrillic small letters from U+0430 to U+045F.
pub open spec fn is_cyrillic_small(c: char) -> bool {
    'а' <= c <= 'џ'
}

/// The character is a letter or a digit. Cyrillic small letters are, and a space is
/// not.
pub open spec fn is_alphanumeric_char(c: char) -> bool {
    is_cyrillic_small(c) || (c != ' ' && alphanumeric_by_table(c))
}

/// What `char::is_whitespace` says of a character.
pub uninterp spec fn is_whitespace_char(c: char) -> bool;

/// What `String::from_utf8_lossy` reads from bytes.
pub uninterp spec fn lossy_text(bytes: Seq<u8>) -> Seq<char>;

/// `str::to_lowercase`.
#[verifier::external_body]
pub(crate) fn to_lowercase(text: &str) -> (r: String)
    ensures
        r@ == lowercase(text@),
{
    text.to_lowercase()
}

/// `char::to_lowercase`: one character or more.
#[verifier::external_body]
pub(crate) fn char_to_lowercase(c: char) -> (r: Vec<char>)
    ensures
        r@ == seq![lowercase_parts(c).0] + lowercase_parts(c).1,
{
    c.to_lowercase().collect()
}

/// `char::is_alphanumeric`: true of the Cyrillic small letters, which have Unicode's
/// `Alphabetic` property, and false of a space. Of other characters it is a function
/// of the character.
#[verifier::external_body]
pub(crate) fn is_alphanumeric(c: char) -> (r: bool)
    ensures
        r == (is_cyrillic_small(c) || (c != ' ' && alphanumeric_by_table(c))),
{
    c.is_alphanumeric()
}

/// `char::is_whitespace`.
#[verifier::external_body]
pub(crate) fn is_whitespace(c: char) -> (r: bool)
    ensures
        r == is_whitespace_char(c),
{
    c.is_whitespace()
}

/// `String::from_utf8_lossy`: valid UTF-8 is read as what it encodes. What other
/// bytes are read as is a function of the bytes.
#[verifier::external_body]
pub(crate) fn from_utf8_lossy(bytes: &[u8]) -> (r: String)
    ensures
        r@ == lossy_text(bytes@),
        vstd::utf8::valid_utf8(bytes@) ==> r@ == vstd::utf8::decode_utf8(bytes@),
{
    String::from_utf8_lossy(bytes).into_owned()
}

/// What a text holds before its end: the words that white space follows, and the
/// one that nothing follows yet.
pub open spec fn words_so_far(s: Seq<char>) -> (Seq<Seq<char>>, Seq<char>)
    decreases s.len(),
{
    if s.len() == 0 {
        (Seq::empty(), Seq::empty())
    } else {
        let (done, current) = words_so_far(s.drop_last());
        if !is_whitespace_char(s.last()) {
            (done, current.push(s.last()))
        } else if current.len() > 0 {
            (done.push(current), Seq::empty())
        } else {
            (done, current)
        }
    }
}

/// The words of a text: the runs of characters that are no white space.
pub open spec fn words_in(s: Seq<char>) -> Seq<Seq<char>> {
    let (done, current) = words_so_far(s);
    if current.len() > 0 {
        done.push(current)
    } else {
        done
    }
}

/// The words of a text, as `str::split_whitespace` gives them.
pub fn split_whitespace(s: &str) -> (r: Vec<String>)
    ensures
        texts(r@) == words_in(s@),
{
    let chars = chars_of(s);
    let mut done: Vec<String> = Vec::new();
    let mut current: Vec<char> = Vec::new();
    assert(texts(done@) =~= Seq::empty());
    for i in 0..chars.len()
        invariant
            chars@ == s@,
            (texts(done@), current@) == words_so_far(s@.take(i as int)),
    {
        assert(s@.take(i + 1).drop_last() =~= s@.take(i as int));
        let ghost before = texts(done@);
        if !is_whitespace(chars[i]) {
            current.push(chars[i]);
        } else if current.len() > 0 {
            let word = string_of(current.as_slice());
            done.push(word);
            assert(texts(done@) =~= before.push(word@));
            current = Vec::new();
            assert(current@ =~= Seq::<char>::empty());
        }
    }
    assert(s@.take(s@.len() as int) =~= s@);
    if current.len() > 0 {
        let ghost before = texts(done@);
        let word = string_of(current.as_slice());
        done.push(word);
        assert(texts(done@) =~= before.push(word@));
    }
    done
}

/// A text without white space is one word.
pub proof fn a_text_without_spaces_is_one_word(s: Seq<char>)
    requires
        s.len() > 0,
        forall|i: int| 0 <= i < s.len() ==> !is_whitespace_char(#[trigger] s[i]),
    ensures
        words_in(s) == seq![s],
{
    one_word_so_far(s);
    assert(words_in(s) =~= seq![s]);
}

proof fn one_word_so_far(s: Seq<char>)
    requires
        forall|i: int| 0 <= i < s.len() ==> !is_whitespace_char(#[trigger] s[i]),
    ensures
        words_so_far(s) == (Seq::<Seq<char>>::empty(), s),
    decreases s.len(),
{
    if s.len() > 0 {
        let init = s.drop_last();
        assert forall|i: int| 0 <= i < init.len() implies !is_whitespace_char(
            #[trigger] init[i],
        ) by {
            assert(init[i] == s[i]);
        }
        one_word_so_far(init);
        assert(s[s.len() - 1] == s.last());
        assert(init.push(s.last()) =~= s);
    } else {
        assert(s =~= Seq::empty());
    }
}

proof fn words_behind_a_space(a: Seq<char>, b: Seq<char>)
    requires
        words_so_far(a).1.len() == 0,
    ensures
        words_so_far(a + b) == (words_so_far(a).0 + words_so_far(b).0, words_so_far(b).1),
    decreases b.len(),
{
    if b.len() == 0 {
        assert(a + b =~= a);
        assert(words_so_far(a).0 + words_so_far(b).0 =~= words_so_far(a).0);
        assert(words_so_far(a).1 =~= words_so_far(b).1);
    } else {
        let init = b.drop_last();
        words_behind_a_space(a, init);
        assert((a + b).drop_last() =~= a + init);
        assert((a + b).last() == b.last());
        assert(words_so_far(a + b).0 =~= words_so_far(a).0 + words_so_far(b).0);
    }
}

/// White space parts words: those of two texts with white space between them are the
/// words of the one and then the words of the other.
pub proof fn white_space_parts_words(a: Seq<char>, space: char, b: Seq<char>)
    requires
        is_whitespace_char(space),
    ensures
        words_in(a + seq![space] + b) == words_in(a) + words_in(b),
        words_in(Seq::empty()).len() == 0,
{
    let first = a + seq![space];
    assert(first.drop_last() =~= a);
    assert(words_so_far(first).1.len() == 0);
    assert(words_so_far(first).0 =~= words_in(a));
    words_behind_a_space(first, b);
    assert(words_in(first + b) =~= words_in(a) + words_in(b));
}

} // verus!
