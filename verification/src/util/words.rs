//! Splitting text into words at whitespace.

use crate::util::cursor::Cursor;
use crate::util::text::{char_is_whitespace, is_whitespace, lemma_trim_start, to_chars, trim_start};
use vstd::prelude::*;

verus! {

/// The characters that each string of `strings` holds.
pub open spec fn texts(strings: Seq<String>) -> Seq<Seq<char>> {
    Seq::new(strings.len(), |i: int| strings[i]@)
}

/// How many characters at the front of `s` are not whitespace.
pub open spec fn word_length(s: Seq<char>) -> nat
    decreases s.len(),
{
    if s.len() > 0 && !is_whitespace(s[0]) {
        1 + word_length(s.skip(1))
    } else {
        0
    }
}

/// The words of `s`: its longest runs of characters that are not whitespace,
/// in their order. Text that is empty or all whitespace has no words.
pub open spec fn words(s: Seq<char>) -> Seq<Seq<char>>
    decreases s.len(),
    via words_decreases
{
    let t = trim_start(s);
    if t.len() == 0 {
        Seq::empty()
    } else {
        seq![t.take(word_length(t) as int)] + words(t.skip(word_length(t) as int))
    }
}

#[via_fn]
proof fn words_decreases(s: Seq<char>) {
    let t = trim_start(s);
    lemma_trim_start(s);
    lemma_word_length(t);
}

/// A word is no longer than the text that it begins, and ends at whitespace
/// or at the end of the text.
pub proof fn lemma_word_length(s: Seq<char>)
    ensures
        word_length(s) <= s.len(),
        s.len() > 0 && !is_whitespace(s[0]) ==> word_length(s) > 0,
        word_length(s) < s.len() ==> is_whitespace(s[word_length(s) as int]),
        forall|i: int| 0 <= i < word_length(s) ==> !is_whitespace(#[trigger] s[i]),
    decreases s.len(),
{
    if s.len() > 0 && !is_whitespace(s[0]) {
        let t = s.skip(1);
        lemma_word_length(t);
        assert forall|i: int| 0 <= i < word_length(s) implies !is_whitespace(#[trigger] s[i]) by {
            if i > 0 {
                assert(s[i] == t[i - 1]);
            }
        }
    }
}

/// Splits `text` at whitespace into its words.
pub fn split_whitespace(text: &str) -> (r: Vec<String>)
    ensures
        texts(r@) == words(text@),
{
    let chars = to_chars(text);
    let mut cursor = Cursor::new(chars.as_slice());
    let mut out: Vec<String> = Vec::new();
    assert(texts(out@) + words(cursor@) =~= words(text@));
    loop
        invariant
            texts(out@) + words(cursor@) == words(text@),
        decreases cursor@.len(),
    {
        let ghost s = cursor@;
        cursor.trim_start();
        let ghost t = cursor@;
        proof {
            lemma_trim_start(s);
            lemma_word_length(t);
            assert(trim_start(t) == t);
        }
        if cursor.is_empty() {
            assert(texts(out@) =~= texts(out@) + words(s));
            return out;
        }
        let mut word = String::new();
        assert(t.take(0) =~= word@);
        assert(t.skip(0) =~= t);
        loop
            invariant
                word@.len() <= t.len(),
                word@ == t.take(word@.len() as int),
                cursor@ == t.skip(word@.len() as int),
                word_length(t) == word@.len() + word_length(cursor@),
            ensures
                word@ == t.take(word_length(t) as int),
                cursor@ == t.skip(word_length(t) as int),
            decreases cursor@.len(),
        {
            match cursor.peek() {
                None => {
                    break ;
                },
                Some(c) => {
                    if char_is_whitespace(c) {
                        break ;
                    }
                    let ghost n = word@.len() as int;
                    word.push(c);
                    cursor.pop_char();
                    assert(word@ =~= t.take(n + 1));
                    assert(cursor@ =~= t.skip(n + 1));
                },
            }
        }
        let ghost before = texts(out@);
        let ghost w = word@;
        out.push(word);
        assert(texts(out@) =~= before.push(w));
        assert(before.push(w) + words(cursor@) =~= before + (seq![w] + words(cursor@)));
    }
}

} // verus!
