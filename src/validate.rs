//! The checks that a guess, or a word offered for the dictionary, must pass.
use vstd::prelude::*;
use vstd::string::StrSliceExecFns;
use crate::letters::GuessedLetters;
use crate::text::{fold_text, folded, is_word_char, lower_of, to_lower, word_char};

verus! {

/// Why a guess or a new word was turned down.
#[derive(Clone, Copy, Debug, PartialEq, Eq, Structural)]
pub enum RejectReason {
    /// A guess must be exactly one character.
    NotSingleCharacter,
    /// Only letters, hyphens and apostrophes are allowed.
    InvalidCharacter,
    /// The letter was guessed before in this game.
    AlreadyGuessed,
    /// A new word needs at least two characters.
    TooShort,
    /// The word is in the dictionary already.
    AlreadyPresent,
}

/// The verdict on a guess `g` whose lower-case form is `f`, given the letters
/// already guessed; the first failing rule decides. The first two rules look
/// at the guess as typed, the third at its lower-case form.
pub open spec fn guess_rule(g: Seq<char>, f: char, guessed: Set<char>) -> Result<(), RejectReason> {
    if g.len() != 1 {
        Err(RejectReason::NotSingleCharacter)
    } else if !word_char(g[0]) {
        Err(RejectReason::InvalidCharacter)
    } else if guessed.contains(f) {
        Err(RejectReason::AlreadyGuessed)
    } else {
        Ok(())
    }
}

/// The verdict on a guess `g`, given the letters already guessed.
pub open spec fn guess_verdict(g: Seq<char>, guessed: Set<char>) -> Result<(), RejectReason> {
    guess_rule(g, folded(g), guessed)
}

/// Every character of `w` may stand in a word.
pub open spec fn all_word_chars(w: Seq<char>) -> bool {
    forall|i: int| 0 <= i < w.len() ==> word_char(#[trigger] w[i])
}

/// The texts of a list of strings.
pub open spec fn texts(d: Seq<String>) -> Seq<Seq<char>> {
    d.map_values(|s: String| s@)
}

/// The lower-case forms of a list of texts.
pub open spec fn lowered(d: Seq<Seq<char>>) -> Seq<Seq<char>> {
    d.map_values(|x: Seq<char>| lower_of(x))
}

/// `d` holds `w` up to case: some entry has the same lower-case form.
pub open spec fn present(w: Seq<char>, d: Seq<Seq<char>>) -> bool {
    lowered(d).contains(lower_of(w))
}

/// The verdict on a word `w` offered for a dictionary holding `d`; the first
/// failing rule decides, and the dictionary is searched without regard to case.
pub open spec fn word_verdict(w: Seq<char>, d: Seq<Seq<char>>) -> Result<(), RejectReason> {
    if w.len() < 2 {
        Err(RejectReason::TooShort)
    } else if !all_word_chars(w) {
        Err(RejectReason::InvalidCharacter)
    } else if present(w, d) {
        Err(RejectReason::AlreadyPresent)
    } else {
        Ok(())
    }
}

/// Checks a guess whose lower-case form is `folded_guess` against the rules.
pub fn check_guess(guess: &str, folded_guess: char, guessed: &GuessedLetters) -> (r: Result<(), RejectReason>)
    requires
        guessed.wf(),
    ensures
        r == guess_rule(guess@, folded_guess, guessed@),
{
    if guess.unicode_len() != 1 {
        return Err(RejectReason::NotSingleCharacter);
    }
    if !is_word_char(guess.get_char(0)) {
        return Err(RejectReason::InvalidCharacter);
    }
    if guessed.contains(folded_guess) {
        return Err(RejectReason::AlreadyGuessed);
    }
    Ok(())
}

/// Checks one guess against the rules, in order: one character, a letter,
/// hyphen or apostrophe, and its lower-case form not guessed before.
pub fn validate_guess(guess: &str, guessed: &GuessedLetters) -> (r: Result<(), RejectReason>)
    requires
        guessed.wf(),
    ensures
        r == guess_verdict(guess@, guessed@),
        guess@.len() == 1 && word_char(guess@[0]) ==> (r == Err::<(), RejectReason>(
            RejectReason::AlreadyGuessed) <==> guessed@.contains(folded(guess@))),
{
    if guess.unicode_len() != 1 {
        return Err(RejectReason::NotSingleCharacter);
    }
    let f = fold_text(guess);
    check_guess(guess, f, guessed)
}

/// Whether every character of `word` may stand in a word.
fn has_only_word_chars(word: &str) -> (r: bool)
    ensures
        r == all_word_chars(word@),
{
    let n = word.unicode_len();
    let mut i: usize = 0;
    while i < n
        invariant
            n == word@.len(),
            i <= n,
            forall|k: int| 0 <= k < i ==> word_char(#[trigger] word@[k]),
        decreases n - i,
    {
        if !is_word_char(word.get_char(i)) {
            return false;
        }
        i = i + 1;
    }
    true
}

/// Whether `texts` holds a string with the text of `word`, exactly.
pub fn contains_text(word: &str, dictionary: &Vec<String>) -> (r: bool)
    ensures
        r == texts(dictionary@).contains(word@),
{
    let w = word.to_owned();
    let mut i: usize = 0;
    while i < dictionary.len()
        invariant
            w@ == word@,
            i <= dictionary@.len(),
            forall|k: int| 0 <= k < i ==> dictionary@[k]@ != word@,
        decreases dictionary@.len() - i,
    {
        if dictionary[i] == w {
            proof {
                assert(texts(dictionary@)[i as int] == word@);
            }
            return true;
        }
        i = i + 1;
    }
    proof {
        if texts(dictionary@).contains(word@) {
            let k = choose|k: int| 0 <= k < texts(dictionary@).len() && texts(dictionary@)[k] == word@;
            assert(dictionary@[k]@ == word@);
        }
    }
    false
}

/// The entries of `dictionary` in lower case.
fn lowered_entries(dictionary: &Vec<String>) -> (r: Vec<String>)
    ensures
        texts(r@) == lowered(texts(dictionary@)),
{
    let mut r: Vec<String> = Vec::new();
    let mut i: usize = 0;
    while i < dictionary.len()
        invariant
            i <= dictionary@.len(),
            texts(r@) == lowered(texts(dictionary@.take(i as int))),
        decreases dictionary@.len() - i,
    {
        let ghost before = r@;
        r.push(to_lower(dictionary[i].as_str()));
        proof {
            assert(dictionary@.take(i + 1) =~= dictionary@.take(i as int).push(dictionary@[i as int]));
            assert(texts(r@) =~= texts(before).push(lower_of(dictionary@[i as int]@)));
            assert(lowered(texts(dictionary@.take(i + 1))) =~= lowered(texts(dictionary@.take(i as int))).push(
                lower_of(dictionary@[i as int]@)));
        }
        i = i + 1;
    }
    proof {
        assert(dictionary@.take(dictionary@.len() as int) =~= dictionary@);
    }
    r
}

/// Whether `dictionary` holds `word` up to case.
pub fn in_dictionary(word: &str, dictionary: &Vec<String>) -> (r: bool)
    ensures
        r == present(word@, texts(dictionary@)),
{
    let w = to_lower(word);
    let entries = lowered_entries(dictionary);
    contains_text(w.as_str(), &entries)
}

/// Checks a word offered for the dictionary, in order: at least two
/// characters, only letters, hyphens and apostrophes, and not in `dictionary`
/// whatever the case of the word or of the entries.
pub fn validate_new_word(word: &str, dictionary: &Vec<String>) -> (r: Result<(), RejectReason>)
    ensures
        r == word_verdict(word@, texts(dictionary@)),
        word@.len() < 2 ==> r == Err::<(), RejectReason>(RejectReason::TooShort),
{
    if word.unicode_len() < 2 {
        return Err(RejectReason::TooShort);
    }
    if !has_only_word_chars(word) {
        return Err(RejectReason::InvalidCharacter);
    }
    if in_dictionary(word, dictionary) {
        return Err(RejectReason::AlreadyPresent);
    }
    Ok(())
}

} // verus!
