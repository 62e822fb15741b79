//! The set of letters guessed so far in one game.
use vstd::prelude::*;

verus! {

/// Characters strictly increasing by code point: sorted, and no repeats.
pub open spec fn strictly_increasing(s: Seq<char>) -> bool {
    forall|i: int, j: int| 0 <= i < j < s.len() ==> (s[i] as u32) < (s[j] as u32)
}

/// Two characters with the same code point are the same character.
pub proof fn lemma_code_injective(a: char, b: char)
    requires
        a as u32 == b as u32,
    ensures
        a == b,
{
    vstd::utf8::char_u32_cast(a, a as u32);
    vstd::utf8::char_u32_cast(b, b as u32);
}

/// The letters guessed so far, kept sorted by code point and without repeats,
/// so that membership is a binary search.
pub struct GuessedLetters {
    letters: Vec<char>,
}

impl View for GuessedLetters {
    type V = Set<char>;

    closed spec fn view(&self) -> Set<char> {
        self.letters@.to_set()
    }
}

impl GuessedLetters {
    /// The letters in increasing order.
    pub closed spec fn ordered(&self) -> Seq<char> {
        self.letters@
    }

    /// The letters are kept in strictly increasing order.
    pub closed spec fn wf(&self) -> bool {
        strictly_increasing(self.letters@)
    }

    /// No letter guessed yet.
    pub fn new() -> (r: GuessedLetters)
        ensures
            r.wf(),
            r@ == Set::<char>::empty(),
    {
        let r = GuessedLetters { letters: Vec::new() };
        proof {
            assert(r@ =~= Set::<char>::empty());
        }
        r
    }

    /// How many distinct letters were guessed.
    pub fn len(&self) -> (r: usize)
        requires
            self.wf(),
        ensures
            r == self@.len(),
    {
        proof {
            self.lemma_distinct();
            self.letters@.unique_seq_to_set();
        }
        self.letters.len()
    }

    proof fn lemma_distinct(&self)
        requires
            self.wf(),
        ensures
            self.letters@.no_duplicates(),
    {
    }

    /// Index of the first letter whose code point is not below `c`'s.
    fn position(&self, c: char) -> (p: usize)
        requires
            self.wf(),
        ensures
            p <= self.letters@.len(),
            forall|i: int| 0 <= i < p ==> (self.letters@[i] as u32) < (c as u32),
            forall|i: int| p <= i < self.letters@.len() ==> (c as u32) <= (self.letters@[i] as u32),
    {
        let mut lo: usize = 0;
        let mut hi: usize = self.letters.len();
        while lo < hi
            invariant
                self.wf(),
                0 <= lo <= hi <= self.letters@.len(),
                forall|i: int| 0 <= i < lo ==> (self.letters@[i] as u32) < (c as u32),
                forall|i: int| hi <= i < self.letters@.len() ==> (c as u32) <= (self.letters@[i] as u32),
            decreases hi - lo,
        {
            let mid: usize = lo + (hi - lo) / 2;
            if (self.letters[mid] as u32) < (c as u32) {
                lo = mid + 1;
            } else {
                hi = mid;
            }
        }
        lo
    }

    /// Whether `c` was guessed.
    pub fn contains(&self, c: char) -> (r: bool)
        requires
            self.wf(),
        ensures
            r == self@.contains(c),
    {
        let p = self.position(c);
        let r = p < self.letters.len() && self.letters[p] == c;
        proof {
            if !r {
                assert forall|i: int| 0 <= i < self.letters@.len() implies self.letters@[i] != c by {
                    if i >= p && self.letters@[i] == c {
                        assert(i == p || (self.letters@[p as int] as u32) < (self.letters@[i] as u32));
                    }
                }
                assert(!self.letters@.contains(c));
            }
        }
        r
    }

    /// Adds `c`; a letter already present is left as it is.
    pub fn insert(&mut self, c: char)
        requires
            old(self).wf(),
        ensures
            final(self).wf(),
            final(self)@ == old(self)@.insert(c),
    {
        let p = self.position(c);
        if p < self.letters.len() && self.letters[p] == c {
            proof {
                assert(self.letters@.contains(c));
                assert(self@ =~= old(self)@.insert(c));
            }
            return;
        }
        let ghost before = self.letters@;
        self.letters.insert(p, c);
        proof {
            let after = self.letters@;
            assert(after =~= before.subrange(0, p as int).push(c) + before.subrange(p as int, before.len() as int));
            assert forall|i: int, j: int| 0 <= i < j < after.len() implies (after[i] as u32) < (after[j] as u32) by {
                if j < p {
                } else if j == p {
                } else if i < p {
                    assert((before[i] as u32) < (c as u32));
                } else if i == p {
                    assert(before[p as int] != c);
                    if (c as u32) == (before[p as int] as u32) {
                        lemma_code_injective(c, before[p as int]);
                    }
                    assert((c as u32) < (before[p as int] as u32));
                    if j - 1 > p {
                        assert((before[p as int] as u32) < (before[j - 1] as u32));
                    }
                } else {
                }
            }
            assert forall|x: char| after.contains(x) <==> before.contains(x) || x == c by {
                if after.contains(x) {
                    let k = choose|k: int| 0 <= k < after.len() && after[k] == x;
                    if k < p {
                        assert(before[k] == x);
                    } else if k > p {
                        assert(before[k - 1] == x);
                    }
                }
                if before.contains(x) {
                    let k = choose|k: int| 0 <= k < before.len() && before[k] == x;
                    if k < p {
                        assert(after[k] == x);
                    } else {
                        assert(after[k + 1] == x);
                    }
                }
                if x == c {
                    assert(after[p as int] == x);
                }
            }
            assert(self@ =~= old(self)@.insert(c));
        }
    }

    /// The letters in increasing order, for display.
    pub fn sorted(&self) -> (r: Vec<char>)
        requires
            self.wf(),
        ensures
            strictly_increasing(r@),
            r@.to_set() == self@,
            r@ == self.ordered(),
    {
        self.letters.clone()
    }
}

} // verus!
