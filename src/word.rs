use vstd::prelude::*;
use vstd::std_specs::iter::IteratorSpec;

verus! {

/// Number of letters in every word.
pub const WORD_LEN: usize = 5;

/// A word: exactly five letters, compared position by position.
pub type Word = [char; 5];

/// The letters of `s` that fill a word: the first five, padded with `'\0'`.
pub open spec fn word_of(s: Seq<char>) -> Seq<char> {
    Seq::new(5, |i: int| if i < s.len() { s[i] } else { '\0' })
}

/// Relies on String::push: the character is appended at the end.
#[verifier::external_body]
fn push_char(s: &mut String, c: char)
    ensures
        final(s)@ == old(s)@.push(c),
{
    s.push(c);
}

/// Builds a word from text: the first five characters, padded with `'\0'`.
pub fn word_from_str(word: &str) -> (r: Word)
    ensures
        r@ == word_of(word@),
{
    let mut result: Word = ['\0'; 5];
    let mut chars = word.chars();
    let mut i: usize = 0;
    proof {
        broadcast use vstd::string::axiom_spec_iter, vstd::string::next_postcondition;
    }
    while i < WORD_LEN
        invariant
            i <= 5,
            chars.obeys_prophetic_iter_laws(),
            chars.remaining() == word@.skip(i as int),
            forall|k: int| 0 <= k < i ==> result@[k] == word@[k],
            forall|k: int| i <= k < 5 ==> result@[k] == '\0',
            i <= word@.len(),
        ensures
            result@ =~= word_of(word@),
        decreases 5 - i,
    {
        match chars.next() {
            Some(c) => {
                result[i] = c;
                i = i + 1;
            },
            None => {
                assert(word@.skip(i as int).len() == 0);
                break;
            },
        }
    }
    assert(result@ =~= word_of(word@));
    result
}

/// Renders a word as text, one character per letter.
pub fn word_to_str(word: &Word) -> (r: String)
    ensures
        r@ == word@,
{
    let mut s = String::new();
    let mut i: usize = 0;
    while i < WORD_LEN
        invariant
            i <= 5,
            s@ == word@.take(i as int),
        decreases 5 - i,
    {
        push_char(&mut s, word[i]);
        assert(word@.take(i + 1) =~= word@.take(i as int).push(word@[i as int]));
        i = i + 1;
    }
    assert(word@.take(5) =~= word@);
    s
}

/// Whether the letter `c` occurs at any position of `word`.
pub fn word_contains(word: &Word, c: char) -> (r: bool)
    ensures
        r == word@.contains(c),
{
    let mut i: usize = 0;
    while i < WORD_LEN
        invariant
            i <= 5,
            forall|k: int| 0 <= k < i ==> word@[k] != c,
        decreases 5 - i,
    {
        if word[i] == c {
            return true;
        }
        i = i + 1;
    }
    false
}

} // verus!
