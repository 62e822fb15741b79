//! The secret word as the player sees it: guessed letters shown, the rest blank.
use vstd::prelude::*;
use vstd::string::StrSliceExecFns;
use crate::letters::GuessedLetters;
use crate::text::{fold_char, folded, push_char};

verus! {

/// One position of the displayed word.
#[derive(Clone, Copy, Debug, PartialEq, Eq, Structural)]
pub enum Slot {
    /// The character at this position was guessed.
    Shown(char),
    /// Not guessed yet.
    Blank,
}

/// Character `c` of the word was guessed: its lower-case form is among the guesses.
pub open spec fn guessed_char(c: char, guessed: Set<char>) -> bool {
    guessed.contains(folded(seq![c]))
}

/// The slot for character `c` of the word.
pub open spec fn slot_of(c: char, guessed: Set<char>) -> Slot {
    if guessed_char(c, guessed) {
        Slot::Shown(c)
    } else {
        Slot::Blank
    }
}

/// The displayed word: one slot per character of `word`.
pub open spec fn slots_of(word: Seq<char>, guessed: Set<char>) -> Seq<Slot> {
    word.map_values(|c: char| slot_of(c, guessed))
}

/// Every character of `word` was guessed.
pub open spec fn fully_revealed(word: Seq<char>, guessed: Set<char>) -> bool {
    forall|i: int| 0 <= i < word.len() ==> guessed_char(#[trigger] word[i], guessed)
}

/// The display of `word` given the letters guessed, and whether no slot is
/// blank. Each character of the word is looked up in its lower-case form.
pub fn reveal_word(word: &str, guessed: &GuessedLetters) -> (r: (Vec<Slot>, bool))
    requires
        guessed.wf(),
    ensures
        r.0@ == slots_of(word@, guessed@),
        r.1 == fully_revealed(word@, guessed@),
        r.1 <==> !r.0@.contains(Slot::Blank),
{
    let n = word.unicode_len();
    let mut slots: Vec<Slot> = Vec::new();
    let mut all: bool = true;
    let mut i: usize = 0;
    while i < n
        invariant
            guessed.wf(),
            n == word@.len(),
            i <= n,
            slots@ == slots_of(word@.subrange(0, i as int), guessed@),
            all == fully_revealed(word@.subrange(0, i as int), guessed@),
        decreases n - i,
    {
        let c = word.get_char(i);
        if guessed.contains(fold_char(c)) {
            slots.push(Slot::Shown(c));
        } else {
            slots.push(Slot::Blank);
            all = false;
        }
        proof {
            let w = word@.subrange(0, i + 1);
            assert(w.subrange(0, i as int) =~= word@.subrange(0, i as int));
            assert(slots@ =~= slots_of(w, guessed@));
            if all {
                assert forall|k: int| 0 <= k < w.len() implies guessed_char(#[trigger] w[k], guessed@) by {
                    if k < i {
                        assert(w[k] == word@.subrange(0, i as int)[k]);
                    }
                }
            }
            if !guessed_char(c, guessed@) {
                assert(!guessed_char(w[i as int], guessed@));
            }
            if !all && guessed_char(c, guessed@) {
                let k = choose|k: int| 0 <= k < i && !guessed_char(#[trigger] word@.subrange(0, i as int)[k], guessed@);
                assert(w[k] == word@.subrange(0, i as int)[k]);
            }
        }
        i = i + 1;
    }
    proof {
        assert(word@.subrange(0, n as int) =~= word@);
        let s = slots@;
        if all {
            assert forall|k: int| 0 <= k < s.len() implies s[k] != Slot::Blank by {
                assert(guessed_char(word@[k], guessed@));
            }
        } else {
            let k = choose|k: int| 0 <= k < word@.len() && !guessed_char(#[trigger] word@[k], guessed@);
            assert(s[k] == Slot::Blank);
        }
    }
    (slots, all)
}

/// The display text: each slot as its character or `_`, each followed by a space.
pub open spec fn masked_text(slots: Seq<Slot>) -> Seq<char>
    decreases slots.len(),
{
    if slots.len() == 0 {
        Seq::empty()
    } else {
        let ch = match slots.last() {
            Slot::Shown(c) => c,
            Slot::Blank => '_',
        };
        masked_text(slots.drop_last()).push(ch).push(' ')
    }
}

/// Renders slots as text, for example `c _ t `.
pub fn render_slots(slots: &Vec<Slot>) -> (r: String)
    ensures
        r@ == masked_text(slots@),
{
    let mut out = String::new();
    let mut i: usize = 0;
    while i < slots.len()
        invariant
            i <= slots@.len(),
            out@ == masked_text(slots@.subrange(0, i as int)),
        decreases slots@.len() - i,
    {
        let ch = match slots[i] {
            Slot::Shown(c) => c,
            Slot::Blank => '_',
        };
        push_char(&mut out, ch);
        push_char(&mut out, ' ');
        proof {
            assert(slots@.subrange(0, i + 1).drop_last() =~= slots@.subrange(0, i as int));
        }
        i = i + 1;
    }
    proof {
        assert(slots@.subrange(0, slots@.len() as int) =~= slots@);
    }
    out
}

/// The display depends on the word and on the set of letters guessed alone:
/// computed twice from the same word and the same guesses, it is the same.
pub proof fn lemma_reveal_repeatable(word: Seq<char>, g1: Set<char>, g2: Set<char>)
    requires
        g1 == g2,
    ensures
        slots_of(word, g1) == slots_of(word, g2),
        fully_revealed(word, g1) == fully_revealed(word, g2),
{
}

} // verus!
