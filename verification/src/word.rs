//! Word motion over codepoint-indexed text.

use std::str::Chars;
use vstd::prelude::*;
use vstd::std_specs::iter::IteratorSpec;

use crate::text::lemma_char_count_bound;

verus! {

broadcast use vstd::string::group_string_axioms;

/// Whether `c` is whitespace, as `char::is_whitespace` reports it: whether it
/// has the Unicode property White_Space.
pub uninterp spec fn char_is_whitespace(c: char) -> bool;

/// Whether `c` is alphanumeric, as `char::is_alphanumeric` reports it: whether
/// it has the Unicode property Alphabetic or is in one of the number categories.
pub uninterp spec fn char_is_alphanumeric(c: char) -> bool;

/// `char::is_whitespace` depends on the character alone; its result is `char_is_whitespace`.
pub assume_specification[ char::is_whitespace ](c: char) -> (b: bool)
    ensures
        b == char_is_whitespace(c),
;

/// `char::is_alphanumeric` depends on the character alone; its result is `char_is_alphanumeric`.
pub assume_specification[ char::is_alphanumeric ](c: char) -> (b: bool)
    ensures
        b == char_is_alphanumeric(c),
;

/// First index at or after `from` whose codepoint is not whitespace; the
/// codepoint count if there is none.
pub open spec fn skip_whitespace(text: Seq<char>, from: int) -> int
    decreases text.len() - from,
{
    if from >= text.len() {
        text.len() as int
    } else if from >= 0 && !char_is_whitespace(text[from]) {
        from
    } else {
        skip_whitespace(text, from + 1)
    }
}

/// Whether the codepoint `c` ends a word whose codepoints are alphanumeric
/// exactly if `alnum` holds. Whitespace always does; with `full_word` unset, so
/// does a change between alphanumeric and other codepoints.
pub open spec fn is_word_break(c: char, alnum: bool, full_word: bool) -> bool {
    char_is_whitespace(c) || (!full_word && char_is_alphanumeric(c) != alnum)
}

/// First index at or after `from` whose codepoint ends the word; the codepoint
/// count if there is none.
pub open spec fn word_end(text: Seq<char>, from: int, alnum: bool, full_word: bool) -> int
    decreases text.len() - from,
{
    if from >= text.len() {
        text.len() as int
    } else if from >= 0 && is_word_break(text[from], alnum, full_word) {
        from
    } else {
        word_end(text, from + 1, alnum, full_word)
    }
}

/// Index of the start of the next word after `cursor`.
///
/// At or past the end this is the codepoint count. On whitespace it is the
/// first codepoint after it that is not whitespace. Otherwise the word that
/// `cursor` stands in is left behind: where it ends in a codepoint of another
/// class, that codepoint is the start; where it ends in whitespace, the start
/// is the first codepoint after the whitespace. Where that whitespace runs to
/// the end of the text, the result is the codepoint count, unless the
/// whitespace itself counts as a change of class, in which case it is the
/// index where the whitespace begins.
pub open spec fn next_word_start(text: Seq<char>, cursor: int, full_word: bool) -> int {
    if cursor < 0 || cursor >= text.len() {
        text.len() as int
    } else if char_is_whitespace(text[cursor]) {
        skip_whitespace(text, cursor + 1)
    } else {
        let alnum = char_is_alphanumeric(text[cursor]);
        let stop = word_end(text, cursor + 1, alnum, full_word);
        if stop >= text.len() {
            text.len() as int
        } else if char_is_whitespace(text[stop]) {
            let next = skip_whitespace(text, stop + 1);
            if next < text.len() {
                next
            } else if !full_word && char_is_alphanumeric(text[stop]) != alnum {
                stop
            } else {
                text.len() as int
            }
        } else {
            stop
        }
    }
}

/// Last index at or before `from` whose codepoint is not whitespace; 0 if
/// there is none.
pub open spec fn skip_whitespace_back(text: Seq<char>, from: int) -> int
    decreases from,
{
    if 0 < from < text.len() && char_is_whitespace(text[from]) {
        skip_whitespace_back(text, from - 1)
    } else {
        from
    }
}

/// Start of the word that the codepoint at `at` stands in: the least index
/// from which on no codepoint before `at` ends the word.
pub open spec fn word_start(text: Seq<char>, at: int, alnum: bool, full_word: bool) -> int
    decreases at,
{
    if at <= 0 {
        0
    } else if at <= text.len() && is_word_break(text[at - 1], alnum, full_word) {
        at
    } else {
        word_start(text, at - 1, alnum, full_word)
    }
}

/// Index of the start of the word before `cursor`.
///
/// With `cursor` at most 1 this is 0. Otherwise whitespace directly before
/// `cursor` is passed over, and the result is the start of the word that the
/// codepoint reached belongs to.
pub open spec fn prev_word_start(text: Seq<char>, cursor: int, full_word: bool) -> int {
    if cursor <= 1 {
        0
    } else {
        let last = skip_whitespace_back(text, cursor - 1);
        word_start(text, last, char_is_alphanumeric(text[last]), full_word)
    }
}

/// Whether every codepoint of `text` is whitespace.
pub open spec fn is_blank(text: Seq<char>) -> bool {
    forall|i: int| 0 <= i < text.len() ==> char_is_whitespace(#[trigger] text[i])
}

/// The index that `skip_whitespace` gives lies at or after `from`, only
/// whitespace stands before it, and what stands there is no whitespace.
pub proof fn lemma_skip_whitespace(text: Seq<char>, from: int)
    requires
        0 <= from <= text.len(),
    ensures
        from <= skip_whitespace(text, from) <= text.len(),
        forall|i: int| from <= i < skip_whitespace(text, from) ==> char_is_whitespace(text[i]),
        skip_whitespace(text, from) < text.len() ==> !char_is_whitespace(
            text[skip_whitespace(text, from)],
        ),
    decreases text.len() - from,
{
    if from < text.len() && char_is_whitespace(text[from]) {
        lemma_skip_whitespace(text, from + 1);
    }
}

/// The index that `word_end` gives lies at or after `from`, no codepoint
/// before it ends the word, and the one that stands there does.
pub proof fn lemma_word_end(text: Seq<char>, from: int, alnum: bool, full_word: bool)
    requires
        0 <= from <= text.len(),
    ensures
        from <= word_end(text, from, alnum, full_word) <= text.len(),
        forall|i: int|
            from <= i < word_end(text, from, alnum, full_word) ==> !is_word_break(
                text[i],
                alnum,
                full_word,
            ),
        word_end(text, from, alnum, full_word) < text.len() ==> is_word_break(
            text[word_end(text, from, alnum, full_word)],
            alnum,
            full_word,
        ),
    decreases text.len() - from,
{
    if from < text.len() && !is_word_break(text[from], alnum, full_word) {
        lemma_word_end(text, from + 1, alnum, full_word);
    }
}

/// The index that `skip_whitespace_back` gives lies at or before `from`,
/// only whitespace stands after it up to `from`, and what stands there is no
/// whitespace unless it is the start of the text.
pub proof fn lemma_skip_whitespace_back(text: Seq<char>, from: int)
    requires
        0 <= from < text.len(),
    ensures
        0 <= skip_whitespace_back(text, from) <= from,
        forall|i: int|
            skip_whitespace_back(text, from) < i <= from ==> char_is_whitespace(text[i]),
        skip_whitespace_back(text, from) > 0 ==> !char_is_whitespace(
            text[skip_whitespace_back(text, from)],
        ),
    decreases from,
{
    if 0 < from && char_is_whitespace(text[from]) {
        lemma_skip_whitespace_back(text, from - 1);
    }
}

/// The index that `word_start` gives lies at or before `at`, no codepoint
/// from it up to `at` ends the word, and the one before it does.
pub proof fn lemma_word_start(text: Seq<char>, at: int, alnum: bool, full_word: bool)
    requires
        0 <= at <= text.len(),
    ensures
        0 <= word_start(text, at, alnum, full_word) <= at,
        forall|i: int|
            word_start(text, at, alnum, full_word) <= i < at ==> !is_word_break(
                text[i],
                alnum,
                full_word,
            ),
        word_start(text, at, alnum, full_word) > 0 ==> is_word_break(
            text[word_start(text, at, alnum, full_word) - 1],
            alnum,
            full_word,
        ),
    decreases at,
{
    if at > 0 && !is_word_break(text[at - 1], alnum, full_word) {
        lemma_word_start(text, at - 1, alnum, full_word);
    }
}

/// Both word motions stay inside the text, and each moves the cursor unless
/// it stands at the end that the motion leads to.
pub proof fn lemma_word_motion_bounds(text: Seq<char>, cursor: int, full_word: bool)
    ensures
        0 <= next_word_start(text, cursor, full_word) <= text.len(),
        0 <= cursor < text.len() ==> cursor < next_word_start(text, cursor, full_word),
        0 < cursor <= text.len() ==> 0 <= prev_word_start(text, cursor, full_word) < cursor,
        cursor <= 0 ==> prev_word_start(text, cursor, full_word) == 0,
{
    if 0 <= cursor < text.len() {
        lemma_skip_whitespace(text, cursor + 1);
        let alnum = char_is_alphanumeric(text[cursor]);
        lemma_word_end(text, cursor + 1, alnum, full_word);
        let stop = word_end(text, cursor + 1, alnum, full_word);
        if stop < text.len() {
            lemma_skip_whitespace(text, stop + 1);
        }
    }
    if 1 < cursor <= text.len() {
        lemma_skip_whitespace_back(text, cursor - 1);
        let last = skip_whitespace_back(text, cursor - 1);
        lemma_word_start(text, last, char_is_alphanumeric(text[last]), full_word);
    }
}

/// Reads on from index `start` until a codepoint that is not whitespace has
/// been read. Returns the index it stopped at and whether such a codepoint
/// was found.
fn scan_whitespace(chars: &mut Chars<'_>, Ghost(text): Ghost<Seq<char>>, start: usize) -> (found: (
    usize,
    bool,
))
    requires
        start <= text.len() <= usize::MAX,
        (*old(chars)).remaining() == text.skip(start as int),
    ensures
        found.0 == skip_whitespace(text, start as int),
        found.1 == (found.0 < text.len()),
{
    let mut index: usize = start;
    loop
        invariant
            index <= text.len() <= usize::MAX,
            (*chars).remaining() == text.skip(index as int),
            skip_whitespace(text, index as int) == skip_whitespace(text, start as int),
        decreases text.len() - index,
    {
        match chars.next() {
            None => {
                return (index, false);
            },
            Some(ch) => {
                if !ch.is_whitespace() {
                    return (index, true);
                }
                index = index + 1;
            },
        }
    }
}

/// Reads on from index `start` until a codepoint that ends the word has been
/// read. Returns the index it stopped at and that codepoint, if there was one.
fn scan_word(
    chars: &mut Chars<'_>,
    Ghost(text): Ghost<Seq<char>>,
    start: usize,
    alnum: bool,
    full_word: bool,
) -> (found: (usize, Option<char>))
    requires
        start <= text.len() <= usize::MAX,
        (*old(chars)).remaining() == text.skip(start as int),
    ensures
        found.0 == word_end(text, start as int, alnum, full_word),
        found.1 is None <==> found.0 == text.len(),
        found.1 matches Some(ch) ==> ch == text[found.0 as int] && (*final(chars)).remaining()
            == text.skip(found.0 + 1),
{
    let mut index: usize = start;
    loop
        invariant
            index <= text.len() <= usize::MAX,
            (*chars).remaining() == text.skip(index as int),
            word_end(text, index as int, alnum, full_word) == word_end(
                text,
                start as int,
                alnum,
                full_word,
            ),
        decreases text.len() - index,
    {
        match chars.next() {
            None => {
                return (index, None);
            },
            Some(ch) => {
                if ch.is_whitespace() || (!full_word && ch.is_alphanumeric() != alnum) {
                    return (index, Some(ch));
                }
                index = index + 1;
            },
        }
    }
}

/// Returns the codepoint index of the start of the word to the right of
/// `cursor`. With `full_word` set, words are separated by whitespace only;
/// without it, a run of alphanumeric codepoints and a run of other codepoints
/// are words of their own.
pub fn find_word_next(string: &str, cursor: usize, full_word: bool) -> (found: usize)
    ensures
        found == next_word_start(string@, cursor as int, full_word),
{
    let ghost text = string@;
    let byte_len = string.as_bytes().len();
    proof {
        broadcast use vstd::slice::axiom_spec_len;

        lemma_char_count_bound(text);
    }
    let mut chars = string.chars();
    let mut index: usize = 0;
    while index < cursor
        invariant
            text == string@,
            index <= cursor,
            index <= text.len() <= usize::MAX,
            chars.remaining() == text.skip(index as int),
        decreases cursor - index,
    {
        match chars.next() {
            None => {
                assert(text.skip(index as int).len() == 0);
                return index;
            },
            Some(_) => {
                assert(text.skip(index as int).drop_first() =~= text.skip(index + 1));
                index = index + 1;
            },
        }
    }
    let first = match chars.next() {
        None => {
            assert(text.skip(index as int).len() == 0);
            return index;
        },
        Some(ch) => ch,
    };
    assert(text.skip(index as int).drop_first() =~= text.skip(index + 1));
    if first.is_whitespace() {
        let (next, _) = scan_whitespace(&mut chars, Ghost(text), index + 1);
        return next;
    }
    let alnum = first.is_alphanumeric();
    let (stop, breaker) = scan_word(&mut chars, Ghost(text), index + 1, alnum, full_word);
    proof {
        lemma_word_end(text, index + 1, alnum, full_word);
    }
    match breaker {
        None => stop,
        Some(ch) => {
            if ch.is_whitespace() {
                let (next, found) = scan_whitespace(&mut chars, Ghost(text), stop + 1);
                proof {
                    lemma_skip_whitespace(text, stop + 1);
                }
                if found {
                    next
                } else if !full_word && ch.is_alphanumeric() != alnum {
                    stop
                } else {
                    next
                }
            } else {
                stop
            }
        },
    }
}

/// Returns the codepoint index of the start of the word to the left of
/// `cursor`, by the same rules as [`find_word_next`].
pub fn find_word_back(string: &str, cursor: usize, full_word: bool) -> (found: usize)
    requires
        cursor <= string@.len(),
    ensures
        found == prev_word_start(string@, cursor as int, full_word),
{
    if cursor <= 1 {
        return 0;
    }
    let ghost text = string@;
    let mut at: usize = cursor - 1;
    while at > 0 && string.get_char(at).is_whitespace()
        invariant
            at < text.len(),
            text == string@,
            skip_whitespace_back(text, at as int) == skip_whitespace_back(text, cursor - 1),
        decreases at,
    {
        at = at - 1;
    }
    let alnum = string.get_char(at).is_alphanumeric();
    let ghost last = at;
    while at > 0
        invariant
            at < text.len(),
            text == string@,
            cursor > 1,
            last == skip_whitespace_back(text, cursor - 1),
            alnum == char_is_alphanumeric(text[last as int]),
            word_start(text, at as int, alnum, full_word) == word_start(
                text,
                last as int,
                alnum,
                full_word,
            ),
        decreases at,
    {
        at = at - 1;
        let ch = string.get_char(at);
        if ch.is_whitespace() || (!full_word && ch.is_alphanumeric() != alnum) {
            assert(word_start(text, at + 1, alnum, full_word) == at + 1);
            return at + 1;
        }
    }
    0
}

/// Whether `string` holds nothing but whitespace.
pub fn is_blank_str(string: &str) -> (blank: bool)
    ensures
        blank == is_blank(string@),
{
    for ch in iter: string.chars()
        invariant
            iter.seq() == string@,
            forall|i: int| 0 <= i < iter.index() ==> char_is_whitespace(#[trigger] string@[i]),
    {
        if !ch.is_whitespace() {
            return false;
        }
    }
    true
}

} // verus!
