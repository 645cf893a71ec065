//! The rules of a word-guessing game: a secret word is drawn from a list, the
//! player names letters, and the word is shown with the letters that were
//! named.

use crate::text::{pieces_of, split_lines, token_texts, trim, trimmed};
use rand::Rng;
use vstd::prelude::*;

verus! {

/// The number of guesses that a player has.
pub const NUM_INCORRECT_GUESSES: u32 = 5;

/// How a game stands.
#[derive(Clone, Copy, Debug, PartialEq, Eq)]
pub enum Verdict {
    /// Every letter of the word was named.
    Won,
    /// The guesses are used up.
    Lost,
    /// The game goes on.
    Open,
}

/// Draws a number below `len` at random.
///
/// Calls `gen_range(0, len)` on the generator that `rand::thread_rng` gives.
/// The contract claims what the documentation of `gen_range` says: the value
/// lies in the range from `low`, inclusive, to `high`, exclusive. The call
/// panics where `low >= high`, which `len > 0` rules out.
#[verifier::external_body]
fn random_index(len: usize) -> (index: usize)
    requires
        len > 0,
    ensures
        index < len,
{
    rand::thread_rng().gen_range(0, len)
}

/// The word on line `index` of `words`: the line without the white space
/// around it.
pub fn word_on_line(words: &Vec<&str>, index: usize) -> (word: String)
    requires
        index < words@.len(),
    ensures
        word@ == trimmed(words@[index as int]@),
{
    let line: &str = words[index];
    trim(line).to_owned()
}

/// Draws a word at random from `file_string`, which holds one word on each
/// line. Whichever line is drawn, the word is that line without the white
/// space around it.
pub fn pick_a_random_word(file_string: &str) -> (word: String)
    ensures
        exists|i: int|
            0 <= i < pieces_of(file_string@).len() && word@ == trimmed(
                #[trigger] pieces_of(file_string@)[i],
            ),
{
    let words: Vec<&str> = split_lines(file_string);
    let index: usize = random_index(words.len());
    let word: String = word_on_line(&words, index);
    assert(token_texts(words@)[index as int] == words@[index as int]@);
    assert(word@ == trimmed(pieces_of(file_string@)[index as int]));
    word
}

/// Whether `letter` is among `letters`.
pub fn is_guessed(letters: &Vec<char>, letter: char) -> (found: bool)
    ensures
        found == letters@.contains(letter),
{
    let mut i: usize = 0;
    while i < letters.len()
        invariant
            i <= letters@.len(),
            forall|k: int| 0 <= k < i ==> letters@[k] != letter,
        decreases letters@.len() - i,
    {
        if letters[i] == letter {
            return true;
        }
        i = i + 1;
    }
    false
}

/// What is shown of the letter `letter`: the letter itself if it was named,
/// and a dash if not.
pub open spec fn shown(letter: char, guessed_letters: Seq<char>) -> char {
    if guessed_letters.contains(letter) {
        letter
    } else {
        '-'
    }
}

/// The word as the player sees it: each letter that was named, and a dash for
/// each that was not.
pub fn show_word(word: &str, guessed_letters: &Vec<char>) -> (seen: Vec<char>)
    ensures
        seen@.len() == word@.len(),
        forall|i: int| 0 <= i < word@.len() ==> seen@[i] == shown(word@[i], guessed_letters@),
{
    let len: usize = word.unicode_len();
    let mut seen: Vec<char> = Vec::new();
    let mut i: usize = 0;
    while i < len
        invariant
            i <= len,
            len == word@.len(),
            seen@.len() == i,
            forall|k: int| 0 <= k < i ==> seen@[k] == shown(word@[k], guessed_letters@),
        decreases len - i,
    {
        let letter: char = word.get_char(i);
        if is_guessed(guessed_letters, letter) {
            seen.push(letter);
        } else {
            seen.push('-');
        }
        i = i + 1;
    }
    seen
}

/// Whether every letter of `secret` is among `guessed_letters`.
pub open spec fn all_guessed(secret: Seq<char>, guessed_letters: Seq<char>) -> bool {
    forall|i: int| 0 <= i < secret.len() ==> guessed_letters.contains(#[trigger] secret[i])
}

/// How the game stands after a guess: won once every letter of the word was
/// named; else lost once the guesses are used up; else open.
pub fn judge(secret_word_chars: &Vec<char>, guessed_letters: &Vec<char>) -> (verdict: Verdict)
    ensures
        verdict == if all_guessed(secret_word_chars@, guessed_letters@) {
            Verdict::Won
        } else if guessed_letters@.len() == NUM_INCORRECT_GUESSES {
            Verdict::Lost
        } else {
            Verdict::Open
        },
{
    let mut i: usize = 0;
    let mut all: bool = true;
    while i < secret_word_chars.len()
        invariant
            i <= secret_word_chars@.len(),
            all == all_guessed(secret_word_chars@.take(i as int), guessed_letters@),
        decreases secret_word_chars@.len() - i,
    {
        let ghost before = secret_word_chars@.take(i as int);
        let ghost after = secret_word_chars@.take(i + 1);
        let found: bool = is_guessed(guessed_letters, secret_word_chars[i]);
        proof {
            assert(after[i as int] == secret_word_chars@[i as int]);
            assert forall|k: int| 0 <= k < i implies before[k] == after[k] by {}
            if all && found {
                assert forall|k: int| 0 <= k < after.len() implies guessed_letters@.contains(
                    #[trigger] after[k],
                ) by {
                    if k < i {
                        assert(guessed_letters@.contains(before[k]));
                    }
                }
            } else if !all {
                let k = choose|k: int| 0 <= k < before.len() && !guessed_letters@.contains(before[k]);
                assert(!guessed_letters@.contains(after[k]));
            }
        }
        all = all && found;
        i = i + 1;
    }
    assert(secret_word_chars@.take(i as int) =~= secret_word_chars@);
    if all {
        Verdict::Won
    } else if guessed_letters.len() == NUM_INCORRECT_GUESSES as usize {
        Verdict::Lost
    } else {
        Verdict::Open
    }
}

} // verus!
