//! The word list: its line format, the choice of a secret word, and the
//! admission of new words.
use vstd::prelude::*;
use crate::text::{is_whitespace, push_char, whitespace};
use crate::validate::{texts, validate_new_word, word_verdict, RejectReason};
use rand::Rng;

verus! {

/// A finished line as it enters the list: a trailing carriage return is
/// dropped, and an empty line adds nothing.
pub open spec fn finish_line(done: Seq<Seq<char>>, line: Seq<char>) -> Seq<Seq<char>> {
    let l = if line.len() > 0 && line.last() == '\r' { line.drop_last() } else { line };
    if l.len() == 0 {
        done
    } else {
        done.push(l)
    }
}

/// Reading `s` from the start: the lines finished so far, and the line begun.
pub open spec fn scan(s: Seq<char>) -> (Seq<Seq<char>>, Seq<char>)
    decreases s.len(),
{
    if s.len() == 0 {
        (Seq::empty(), Seq::empty())
    } else {
        let (done, line) = scan(s.drop_last());
        if s.last() == '\n' {
            (finish_line(done, line), Seq::empty())
        } else {
            (done, line.push(s.last()))
        }
    }
}

/// The words that a word-list text holds: its non-empty lines, in order.
pub open spec fn load_words(s: Seq<char>) -> Seq<Seq<char>> {
    finish_line(scan(s).0, scan(s).1)
}

/// The text that adding `word` appends to the list: the word and a newline.
pub open spec fn entry_of(word: Seq<char>) -> Seq<char> {
    word.push('\n')
}

/// A word that reads back as itself from its own line.
pub open spec fn storable(word: Seq<char>) -> bool {
    word.len() > 0 && !word.contains('\n') && word.last() != '\r'
}

/// Splits a word-list text into its words: one per non-empty line, with a
/// line ending of `\n` or `\r\n`.
pub fn parse_dictionary(contents: &str) -> (r: Vec<String>)
    ensures
        texts(r@) == load_words(contents@),
{
    let mut done: Vec<String> = Vec::new();
    let mut line = String::new();
    let mut pending_cr: bool = false;
    for c in it: contents.chars()
        invariant
            it.seq() == contents@,
            !pending_cr && line@.len() > 0 ==> line@.last() != '\r',
            ({
                let (d, l) = scan(contents@.subrange(0, it.index()));
                &&& texts(done@) == d
                &&& l == if pending_cr { line@.push('\r') } else { line@ }
            }),
    {
        let ghost prefix = contents@.subrange(0, it.index());
        let ghost line_before = if pending_cr { line@.push('\r') } else { line@ };
        proof {
            assert(contents@.subrange(0, it.index() + 1).drop_last() =~= prefix);
            assert(contents@.subrange(0, it.index() + 1).last() == c);
        }
        if c == '\n' {
            if !line.as_str().is_empty() {
                let ghost done_before = done@;
                let ghost lv = line@;
                proof {
                    if pending_cr {
                        assert(line_before.drop_last() =~= lv);
                    }
                }
                done.push(line);
                proof {
                    assert(texts(done@) =~= texts(done_before).push(lv));
                    assert(texts(done@) =~= finish_line(scan(prefix).0, line_before));
                }
            } else {
                proof {
                    if pending_cr {
                        assert(line_before.drop_last() =~= line@);
                    }
                    assert(texts(done@) =~= finish_line(scan(prefix).0, line_before));
                }
            }
            line = String::new();
            pending_cr = false;
        } else {
            if pending_cr {
                push_char(&mut line, '\r');
            }
            if c == '\r' {
                pending_cr = true;
            } else {
                push_char(&mut line, c);
                pending_cr = false;
            }
        }
    }
    let ghost line_end = if pending_cr { line@.push('\r') } else { line@ };
    proof {
        assert(contents@.subrange(0, contents@.len() as int) =~= contents@);
        if pending_cr {
            assert(line_end.drop_last() =~= line@);
        }
    }
    let ghost done_before = done@;
    let ghost lv = line@;
    if !line.as_str().is_empty() {
        done.push(line);
        proof {
            assert(texts(done@) =~= texts(done_before).push(lv));
        }
    }
    proof {
        assert(texts(done@) =~= load_words(contents@));
    }
    done
}

/// The text that adds `word` to the word list.
pub fn dictionary_entry(word: &str) -> (r: String)
    ensures
        r@ == entry_of(word@),
{
    let mut r = word.to_owned();
    push_char(&mut r, '\n');
    r
}

/// A text that is empty or ends with a newline has no line begun.
proof fn lemma_scan_at_line_start(s: Seq<char>)
    requires
        s.len() == 0 || s.last() == '\n',
    ensures
        scan(s).1 == Seq::<char>::empty(),
{
}

/// Characters without a newline only extend the line begun.
proof fn lemma_scan_extend(s: Seq<char>, x: Seq<char>)
    requires
        !x.contains('\n'),
    ensures
        scan(s + x) == (scan(s).0, scan(s).1 + x),
    decreases x.len(),
{
    if x.len() == 0 {
        assert(s + x =~= s);
        assert(scan(s).1 + x =~= scan(s).1);
    } else {
        let y = x.drop_last();
        assert(!y.contains('\n')) by {
            if y.contains('\n') {
                let k = choose|k: int| 0 <= k < y.len() && y[k] == '\n';
                assert(x[k] == '\n');
            }
        }
        lemma_scan_extend(s, y);
        assert((s + x).drop_last() =~= s + y);
        assert((s + x).last() == x.last());
        assert(x.last() != '\n') by {
            assert(x[x.len() - 1] == x.last());
        }
        assert((scan(s).1 + y).push(x.last()) =~= scan(s).1 + x);
    }
}

/// Appending the entry of a storable word to a word-list text that ends at a
/// line boundary adds exactly that word, at the end, to what the text reads as.
pub proof fn lemma_append_then_load(contents: Seq<char>, x: Seq<char>)
    requires
        contents.len() == 0 || contents.last() == '\n',
        storable(x),
    ensures
        load_words(contents + entry_of(x)) == load_words(contents).push(x),
{
    let s = contents + entry_of(x);
    lemma_scan_at_line_start(contents);
    lemma_scan_extend(contents, x);
    assert(s.drop_last() =~= contents + x);
    assert(s.last() == '\n');
    assert(Seq::<char>::empty() + x =~= x);
    assert(x[x.len() - 1] == x.last());
}

/// An empty word list, once a storable word `x` is appended, reads back as
/// exactly the list `[x]`.
pub proof fn lemma_load_after_first_entry(x: Seq<char>)
    requires
        storable(x),
    ensures
        load_words(entry_of(x)) == seq![x],
{
    lemma_append_then_load(Seq::empty(), x);
    assert(Seq::<char>::empty() + entry_of(x) =~= entry_of(x));
    assert(load_words(Seq::<char>::empty()) =~= Seq::<Seq<char>>::empty());
    assert(Seq::<Seq<char>>::empty().push(x) =~= seq![x]);
}

/// Relies on `rand::rng` and `Rng::random_range`: an index drawn uniformly
/// below `len`. `random_range` panics on an empty range, hence `len > 0`.
#[verifier::external_body]
fn random_index(len: usize) -> (r: usize)
    requires
        len > 0,
    ensures
        r < len,
{
    rand::rng().random_range(0..len)
}

/// The word at `index`, or `None` when `index` is past the end.
pub fn select_word(dictionary: &Vec<String>, index: usize) -> (r: Option<String>)
    ensures
        r is Some <==> index < dictionary@.len(),
        r is Some ==> r->Some_0@ == dictionary@[index as int]@,
{
    if index < dictionary.len() {
        Some(dictionary[index].clone())
    } else {
        None
    }
}

/// A word of `dictionary` drawn at random, or `None` when it is empty.
pub fn choose_word(dictionary: &Vec<String>) -> (r: Option<String>)
    ensures
        r is None <==> dictionary@.len() == 0,
        r is Some ==> texts(dictionary@).contains(r->Some_0@),
{
    if dictionary.len() == 0 {
        return None;
    }
    let i = random_index(dictionary.len());
    let r = select_word(dictionary, i);
    proof {
        assert(texts(dictionary@)[i as int] == r->Some_0@);
    }
    r
}

/// Reading `s` from the start, split at white space: the words finished so
/// far, and the word begun.
pub open spec fn split_scan(s: Seq<char>) -> (Seq<Seq<char>>, Seq<char>)
    decreases s.len(),
{
    if s.len() == 0 {
        (Seq::empty(), Seq::empty())
    } else {
        let (done, cur) = split_scan(s.drop_last());
        if whitespace(s.last()) {
            (if cur.len() > 0 { done.push(cur) } else { done }, Seq::empty())
        } else {
            (done, cur.push(s.last()))
        }
    }
}

/// The words of a line: its non-empty runs of characters between white space.
pub open spec fn words_in(s: Seq<char>) -> Seq<Seq<char>> {
    let (done, cur) = split_scan(s);
    if cur.len() > 0 {
        done.push(cur)
    } else {
        done
    }
}

/// Splits a line at white space into its words; runs of white space separate
/// no empty word.
pub fn split_words(line: &str) -> (r: Vec<String>)
    ensures
        texts(r@) == words_in(line@),
{
    let mut done: Vec<String> = Vec::new();
    let mut cur = String::new();
    for c in it: line.chars()
        invariant
            it.seq() == line@,
            ({
                let (d, w) = split_scan(line@.subrange(0, it.index()));
                &&& texts(done@) == d
                &&& cur@ == w
            }),
    {
        proof {
            assert(line@.subrange(0, it.index() + 1).drop_last() =~= line@.subrange(0, it.index()));
            assert(line@.subrange(0, it.index() + 1).last() == c);
        }
        if is_whitespace(c) {
            if !cur.as_str().is_empty() {
                let ghost done_before = done@;
                let ghost cv = cur@;
                done.push(cur);
                proof {
                    assert(texts(done@) =~= texts(done_before).push(cv));
                }
            }
            cur = String::new();
        } else {
            push_char(&mut cur, c);
        }
    }
    proof {
        assert(line@.subrange(0, line@.len() as int) =~= line@);
    }
    let ghost done_before = done@;
    let ghost cv = cur@;
    if !cur.as_str().is_empty() {
        done.push(cur);
        proof {
            assert(texts(done@) =~= texts(done_before).push(cv));
        }
    }
    done
}

/// The dictionary after offering `words` in order to one holding `d`: each
/// word that passes the checks against the dictionary as it stands then is added.
pub open spec fn admit_all(words: Seq<Seq<char>>, d: Seq<Seq<char>>) -> Seq<Seq<char>>
    decreases words.len(),
{
    if words.len() == 0 {
        d
    } else {
        let before = admit_all(words.drop_last(), d);
        if word_verdict(words.last(), before) is Ok {
            before.push(words.last())
        } else {
            before
        }
    }
}

/// Offers each of `words` in order for `dictionary`. A word that passes the
/// checks is added at once, so that it counts against the words after it;
/// the result gives the verdict on each word. The caller stores the words
/// that were admitted.
pub fn review_new_words(words: &Vec<String>, dictionary: &mut Vec<String>) -> (r: Vec<
    Result<(), RejectReason>,
>)
    ensures
        r@.len() == words@.len(),
        forall|k: int|
            0 <= k < words@.len() ==> #[trigger] r@[k] == word_verdict(
                words@[k]@,
                admit_all(texts(words@).take(k), texts(old(dictionary)@)),
            ),
        texts(final(dictionary)@) == admit_all(texts(words@), texts(old(dictionary)@)),
{
    let ghost d0 = texts(dictionary@);
    let mut verdicts: Vec<Result<(), RejectReason>> = Vec::new();
    let mut i: usize = 0;
    while i < words.len()
        invariant
            i <= words@.len(),
            verdicts@.len() == i,
            texts(dictionary@) == admit_all(texts(words@).take(i as int), d0),
            forall|k: int|
                0 <= k < i ==> #[trigger] verdicts@[k] == word_verdict(
                    words@[k]@,
                    admit_all(texts(words@).take(k), d0),
                ),
        decreases words@.len() - i,
    {
        let ghost before = dictionary@;
        let verdict = validate_new_word(words[i].as_str(), dictionary);
        proof {
            let t = texts(words@).take(i + 1);
            assert(t.drop_last() =~= texts(words@).take(i as int));
            assert(t.last() == words@[i as int]@);
        }
        if verdict.is_ok() {
            dictionary.push(words[i].clone());
            proof {
                assert(texts(dictionary@) =~= texts(before).push(words@[i as int]@));
            }
        }
        verdicts.push(verdict);
        i = i + 1;
    }
    proof {
        assert(texts(words@).take(words@.len() as int) =~= texts(words@));
    }
    verdicts
}

} // verus!
