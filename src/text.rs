//! Character classes and the few string operations that the rules need.
use vstd::prelude::*;
use vstd::string::StrSliceExecFns;

verus! {

/// Whether `char::is_alphabetic` holds of `c` (Unicode's Alphabetic property).
pub uninterp spec fn alphabetic(c: char) -> bool;

/// An ASCII letter, `a` to `z` or `A` to `Z`.
pub open spec fn ascii_letter(c: char) -> bool {
    (97 <= (c as u32) <= 122) || (65 <= (c as u32) <= 90)
}

/// Relies on `char::is_alphabetic`: the answer depends on the character
/// alone, and among ASCII characters exactly the letters are alphabetic.
#[verifier::external_body]
pub(crate) fn is_alphabetic(c: char) -> (r: bool)
    ensures
        r == alphabetic(c),
        (c as u32) < 128 ==> (r <==> ascii_letter(c)),
{
    c.is_alphabetic()
}

/// A character that may stand in a word or be guessed: a letter, a hyphen or
/// an apostrophe. Among ASCII characters the letters are exactly `a` to `z`
/// and `A` to `Z`.
pub open spec fn word_char(c: char) -> bool {
    c == '-' || c == '\'' || if (c as u32) < 128 {
        ascii_letter(c)
    } else {
        alphabetic(c)
    }
}

/// Decides `word_char`.
pub fn is_word_char(c: char) -> (r: bool)
    ensures
        r == word_char(c),
{
    c == '-' || c == '\'' || is_alphabetic(c)
}

/// Relies on `String::push`: the character is appended at the end.
#[verifier::external_body]
pub(crate) fn push_char(s: &mut String, c: char)
    ensures
        final(s)@ == old(s)@.push(c),
{
    s.push(c)
}

/// What `str::to_lowercase` makes of a text.
pub uninterp spec fn lower_of(s: Seq<char>) -> Seq<char>;

/// Relies on `str::to_lowercase`: the result depends on the characters alone.
#[verifier::external_body]
pub(crate) fn to_lower(s: &str) -> (r: String)
    ensures
        r@ == lower_of(s@),
{
    s.to_lowercase()
}

/// Whether `char::is_whitespace` holds of `c` (Unicode's White_Space property).
pub uninterp spec fn whitespace(c: char) -> bool;

/// Relies on `char::is_whitespace`: the answer depends on the character alone.
#[verifier::external_body]
pub(crate) fn is_whitespace(c: char) -> (r: bool)
    ensures
        r == whitespace(c),
{
    c.is_whitespace()
}

/// `r` is `s` without its leading and trailing white space: a contiguous
/// part of `s`, all that is cut off is white space, and `r` neither begins
/// nor ends with white space.
pub open spec fn trims_to(s: Seq<char>, r: Seq<char>) -> bool {
    exists|i: int, j: int|
        0 <= i <= j <= s.len() && r == s.subrange(i, j) && (forall|k: int|
            0 <= k < i ==> whitespace(#[trigger] s[k])) && (forall|k: int|
            j <= k < s.len() ==> whitespace(#[trigger] s[k])) && (r.len() > 0 ==> !whitespace(r[0])
            && !whitespace(r.last()))
}

/// Relies on `str::trim`: leading and trailing characters with the
/// White_Space property are removed, and nothing else.
#[verifier::external_body]
pub(crate) fn trim(s: &str) -> (r: &str)
    ensures
        trims_to(s@, r@),
{
    s.trim()
}

/// Puts one line typed by the player into the form that the validators
/// expect: surrounding white space removed, then lower case.
pub fn normalize_input(raw: &str) -> (r: String)
    ensures
        exists|t: Seq<char>| trims_to(raw@, t) && r@ == lower_of(t),
{
    let t = trim(raw);
    to_lower(t)
}

/// The lower-case form of a guess `g`: the first character of its lower-case
/// text, or its own first character should that text be empty.
pub open spec fn folded(g: Seq<char>) -> char {
    if lower_of(g).len() > 0 {
        lower_of(g)[0]
    } else {
        g[0]
    }
}

/// The lower-case form of a non-empty text, as `folded` gives it.
pub fn fold_text(g: &str) -> (r: char)
    requires
        g@.len() > 0,
    ensures
        r == folded(g@),
{
    let low = to_lower(g);
    fold_lowered(g, low.as_str())
}

/// `folded` of `g`, given the lower-case text `low` of `g`.
pub fn fold_lowered(g: &str, low: &str) -> (r: char)
    requires
        g@.len() > 0,
    ensures
        lower_of(g@) == low@ ==> r == folded(g@),
        r == (if low@.len() > 0 { low@[0] } else { g@[0] }),
{
    if low.unicode_len() > 0 {
        low.get_char(0)
    } else {
        g.get_char(0)
    }
}

/// The lower-case form of one character, as `folded` gives it.
pub fn fold_char(c: char) -> (r: char)
    ensures
        r == folded(seq![c]),
{
    let mut s = String::new();
    push_char(&mut s, c);
    proof {
        assert(s@ =~= seq![c]);
    }
    fold_text(s.as_str())
}

} // verus!
