//! One game: the secret word, the letters guessed, the count of misses, and
//! the transition made by each guess.
use vstd::prelude::*;
use vstd::string::StrSliceExecFns;
use crate::display::{fully_revealed, guessed_char, reveal_word, Slot, slots_of};
use crate::letters::GuessedLetters;
use crate::text::{fold_char, fold_text, folded, lower_of, to_lower};
use crate::validate::{guess_verdict, validate_guess, RejectReason};

verus! {

/// Misses allowed before the game is lost; also the last render stage.
pub const MAX_WRONG: u8 = 6;

/// Where a game stands.
#[derive(Clone, Copy, Debug, PartialEq, Eq, Structural)]
pub enum Outcome {
    /// More guesses are awaited.
    InProgress,
    /// Every letter of the word was guessed.
    Won,
    /// The last miss was made.
    Lost,
}

/// What one accepted guess did.
#[derive(Clone, Copy, Debug, PartialEq, Eq)]
pub struct TurnReport {
    /// Where the game stands after the guess.
    pub outcome: Outcome,
    /// Whether every letter of the word is now shown.
    pub fully_revealed: bool,
    /// On a miss, the new count of misses, which is the snowman picture to
    /// draw (1 to 6); `None` on a hit.
    pub render_stage: Option<u8>,
}

/// The state of a game as a mathematical value.
pub struct GameView {
    pub word: Seq<char>,
    pub guessed: Set<char>,
    pub wrong: nat,
}

/// Where a game with this word, these guesses and this many misses stands:
/// won once every letter is shown, else lost at the sixth miss.
pub open spec fn outcome_of(word: Seq<char>, guessed: Set<char>, wrong: nat) -> Outcome {
    if fully_revealed(word, guessed) {
        Outcome::Won
    } else if wrong >= MAX_WRONG {
        Outcome::Lost
    } else {
        Outcome::InProgress
    }
}

/// Some character of `word` has the lower-case form `c`.
pub open spec fn occurs(word: Seq<char>, c: char) -> bool {
    exists|k: int| 0 <= k < word.len() && folded(seq![#[trigger] word[k]]) == c
}

/// Misses after the accepted guess `c`, which made the guesses `guessed`.
/// Completion is checked first: only a guess that leaves a blank and is
/// absent from the word counts as a miss.
pub open spec fn misses_after(word: Seq<char>, guessed: Set<char>, wrong: nat, c: char) -> nat {
    if fully_revealed(word, guessed) {
        wrong
    } else if !occurs(word, c) {
        wrong + 1
    } else {
        wrong
    }
}

/// The report on an accepted guess that led from `wrong` misses to `misses`.
pub open spec fn report_of(word: Seq<char>, guessed: Set<char>, wrong: nat, misses: nat) -> TurnReport {
    TurnReport {
        outcome: outcome_of(word, guessed, misses),
        fully_revealed: fully_revealed(word, guessed),
        render_stage: if misses != wrong { Some(misses as u8) } else { None },
    }
}

/// One turn: the result of guess `g` and the state after it. A rejected guess
/// changes nothing.
pub open spec fn turn(s: GameView, g: Seq<char>) -> (Result<TurnReport, RejectReason>, GameView) {
    match guess_verdict(g, s.guessed) {
        Err(e) => (Err(e), s),
        Ok(_) => {
            let guessed = s.guessed.insert(folded(g));
            let misses = misses_after(s.word, guessed, s.wrong, folded(g));
            (
                Ok(report_of(s.word, guessed, s.wrong, misses)),
                GameView { word: s.word, guessed, wrong: misses },
            )
        },
    }
}

/// A turn never lowers the count of misses and raises it by at most one; only
/// an accepted guess absent from the word raises it, and only a guess that
/// occurs in the word can complete it.
pub proof fn lemma_turn_counts_only_misses(s: GameView, g: Seq<char>)
    requires
        !fully_revealed(s.word, s.guessed),
    ensures
        s.wrong <= turn(s, g).1.wrong <= s.wrong + 1,
        turn(s, g).1.wrong == s.wrong + 1 ==> g.len() == 1 && !occurs(s.word, folded(g)),
        fully_revealed(s.word, turn(s, g).1.guessed) ==> g.len() == 1 && occurs(s.word, folded(g)),
{
    let after = turn(s, g).1;
    if fully_revealed(s.word, after.guessed) {
        let k = choose|k: int| 0 <= k < s.word.len() && !guessed_char(#[trigger] s.word[k], s.guessed);
        assert(guessed_char(s.word[k], after.guessed));
        assert(folded(seq![s.word[k]]) == folded(g));
    }
}

/// A game in progress or finished.
pub struct Game {
    word: String,
    guessed: GuessedLetters,
    wrong: u8,
}

impl View for Game {
    type V = GameView;

    closed spec fn view(&self) -> GameView {
        GameView { word: self.word@, guessed: self.guessed@, wrong: self.wrong as nat }
    }
}

/// Whether some character of `word` has the lower-case form `c`.
fn occurs_in(word: &str, c: char) -> (r: bool)
    ensures
        r == occurs(word@, c),
{
    let n = word.unicode_len();
    let mut i: usize = 0;
    while i < n
        invariant
            n == word@.len(),
            i <= n,
            forall|k: int| 0 <= k < i ==> folded(seq![#[trigger] word@[k]]) != c,
        decreases n - i,
    {
        if fold_char(word.get_char(i)) == c {
            return true;
        }
        i = i + 1;
    }
    false
}

impl Game {
    /// The guessed letters are well formed and the misses never pass six.
    pub closed spec fn wf(&self) -> bool {
        self.guessed.wf() && self.wrong <= MAX_WRONG
    }

    /// Starts a game on `word`, kept in lower case so that it compares with
    /// the guesses; nothing guessed, no miss.
    pub fn new(word: &str) -> (r: Game)
        ensures
            r.wf(),
            r@.word == lower_of(word@),
            r@.guessed == Set::<char>::empty(),
            r@.wrong == 0,
    {
        Game { word: to_lower(word), guessed: GuessedLetters::new(), wrong: 0 }
    }

    /// The secret word.
    pub fn word(&self) -> (r: &str)
        ensures
            r@ == self@.word,
    {
        self.word.as_str()
    }

    /// The letters guessed so far.
    pub fn guessed(&self) -> (r: &GuessedLetters)
        requires
            self.wf(),
        ensures
            r.wf(),
            r@ == self@.guessed,
    {
        &self.guessed
    }

    /// The number of misses so far.
    pub fn wrong_guesses(&self) -> (r: u8)
        requires
            self.wf(),
        ensures
            r == self@.wrong,
            r <= MAX_WRONG,
    {
        self.wrong
    }

    /// Misses still allowed.
    pub fn tries_left(&self) -> (r: u8)
        requires
            self.wf(),
        ensures
            r == MAX_WRONG - self@.wrong,
    {
        MAX_WRONG - self.wrong
    }

    /// The word as displayed now, and whether it is fully shown.
    pub fn display(&self) -> (r: (Vec<Slot>, bool))
        requires
            self.wf(),
        ensures
            r.0@ == slots_of(self@.word, self@.guessed),
            r.1 == fully_revealed(self@.word, self@.guessed),
    {
        reveal_word(self.word.as_str(), &self.guessed)
    }

    /// Where the game stands.
    pub fn outcome(&self) -> (r: Outcome)
        requires
            self.wf(),
        ensures
            r == outcome_of(self@.word, self@.guessed, self@.wrong),
    {
        let (_, full) = reveal_word(self.word.as_str(), &self.guessed);
        if full {
            Outcome::Won
        } else if self.wrong >= MAX_WRONG {
            Outcome::Lost
        } else {
            Outcome::InProgress
        }
    }

    /// Plays one guess. A rejected guess returns its reason and changes
    /// nothing; an accepted one is added to the guesses in lower case, and
    /// counts as a miss when the word is not complete and does not hold it.
    pub fn submit(&mut self, guess: &str) -> (r: Result<TurnReport, RejectReason>)
        requires
            old(self).wf(),
            outcome_of(old(self)@.word, old(self)@.guessed, old(self)@.wrong) == Outcome::InProgress,
        ensures
            final(self).wf(),
            (r, final(self)@) == turn(old(self)@, guess@),
            guess_verdict(guess@, old(self)@.guessed) is Err ==> final(self)@ == old(self)@,
    {
        let ghost before = self@;
        match validate_guess(guess, &self.guessed) {
            Err(e) => {
                return Err(e);
            },
            Ok(_) => {},
        }
        let c = fold_text(guess);
        self.guessed.insert(c);
        let (_, full) = reveal_word(self.word.as_str(), &self.guessed);
        let mut render_stage: Option<u8> = None;
        if !full && !occurs_in(self.word.as_str(), c) {
            self.wrong = self.wrong + 1;
            render_stage = Some(self.wrong);
        }
        let outcome = if full {
            Outcome::Won
        } else if self.wrong >= MAX_WRONG {
            Outcome::Lost
        } else {
            Outcome::InProgress
        };
        let report = TurnReport { outcome, fully_revealed: full, render_stage };
        proof {
            let (rr, after) = turn(before, guess@);
            assert(self@ == after);
            assert(rr == Ok::<TurnReport, RejectReason>(report));
        }
        Ok(report)
    }
}

} // verus!
