//! Lines of text as sequences of characters: whitespace and the words
//! between it.

use vstd::prelude::*;
use vstd::string::*;
use vstd::utf8::*;

verus! {

/// `c` is whitespace: a character with the Unicode property `White_Space`.
pub open spec fn is_space(c: char) -> bool {
    ||| '\u{9}' <= c <= '\u{d}'
    ||| c == ' '
    ||| c == '\u{85}'
    ||| c == '\u{a0}'
    ||| c == '\u{1680}'
    ||| '\u{2000}' <= c <= '\u{200a}'
    ||| c == '\u{2028}'
    ||| c == '\u{2029}'
    ||| c == '\u{202f}'
    ||| c == '\u{205f}'
    ||| c == '\u{3000}'
}

/// The first position at or after `from` that holds no whitespace; where
/// there is none, the length of `s`.
pub open spec fn skip_spaces(s: Seq<char>, from: int) -> int
    decreases s.len() - from,
{
    if 0 <= from < s.len() && is_space(s[from]) {
        skip_spaces(s, from + 1)
    } else {
        from
    }
}

/// The first position at or after `from` that holds whitespace; where there
/// is none, the length of `s`.
pub open spec fn skip_word(s: Seq<char>, from: int) -> int
    decreases s.len() - from,
{
    if 0 <= from < s.len() && !is_space(s[from]) {
        skip_word(s, from + 1)
    } else {
        from
    }
}

/// Where the words of `s` lie that start at or after `from`: for each maximal
/// run of characters that are not whitespace, in their order, the position of
/// its first character and the position after its last.
pub open spec fn word_spans_from(s: Seq<char>, from: int) -> Seq<(int, int)>
    decreases s.len() - from,
{
    let start = skip_spaces(s, from);
    if 0 <= from && start < s.len() {
        let end = skip_word(s, start);
        proof {
            lemma_skip_bounds(s, from);
            lemma_skip_bounds(s, start);
        }
        seq![(start, end)] + word_spans_from(s, end)
    } else {
        Seq::empty()
    }
}

/// Where the words of `s` lie.
pub open spec fn word_spans(s: Seq<char>) -> Seq<(int, int)> {
    word_spans_from(s, 0)
}

/// The words of `s`: what is left when `s` is split at whitespace and the
/// empty pieces are dropped.
pub open spec fn words(s: Seq<char>) -> Seq<Seq<char>> {
    Seq::new(word_spans(s).len(), |k: int| s.subrange(word_spans(s)[k].0, word_spans(s)[k].1))
}

/// `line` without its line ending: a final line feed is dropped, then a final
/// carriage return.
pub open spec fn strip_line_end(line: Seq<char>) -> Seq<char> {
    let s = if line.len() > 0 && line.last() == '\n' {
        line.drop_last()
    } else {
        line
    };
    if s.len() > 0 && s.last() == '\r' {
        s.drop_last()
    } else {
        s
    }
}

/// The encoding of a text has at least one byte for each character.
pub proof fn lemma_encoding_len(chars: Seq<char>)
    ensures
        encode_utf8(chars).len() >= chars.len(),
    decreases chars.len(),
{
    if chars.len() > 0 {
        lemma_encoding_len(chars.drop_first());
    }
}

/// Skipping stays within `s` and moves forward; it stops before a character
/// of the other kind, and a word that starts at `from` does not end there.
pub proof fn lemma_skip_bounds(s: Seq<char>, from: int)
    requires
        0 <= from <= s.len(),
    ensures
        from <= skip_spaces(s, from) <= s.len(),
        from <= skip_word(s, from) <= s.len(),
        skip_spaces(s, from) < s.len() ==> !is_space(s[skip_spaces(s, from)]),
        skip_word(s, from) < s.len() ==> is_space(s[skip_word(s, from)]),
        from < s.len() && !is_space(s[from]) ==> from < skip_word(s, from),
    decreases s.len() - from,
{
    if from < s.len() {
        lemma_skip_bounds(s, from + 1);
    }
}

/// Tells whether `c` is whitespace.
pub fn is_whitespace(c: char) -> (space: bool)
    ensures
        space == is_space(c),
{
    ('\u{9}' <= c && c <= '\u{d}') || c == ' ' || c == '\u{85}' || c == '\u{a0}' || c == '\u{1680}'
        || ('\u{2000}' <= c && c <= '\u{200a}') || c == '\u{2028}' || c == '\u{2029}' || c
        == '\u{202f}' || c == '\u{205f}' || c == '\u{3000}'
}

/// The characters of `text`.
pub fn chars_of(text: &str) -> (chars: Vec<char>)
    ensures
        chars@ == text@,
{
    let mut chars: Vec<char> = Vec::new();
    for c in it: text.chars()
        invariant
            chars@ == it.seq().take(it.index() as int),
    {
        chars.push(c);
    }
    chars
}

/// Tells whether `chars` begins with `prefix`.
pub fn starts_with(chars: &Vec<char>, prefix: &Vec<char>) -> (found: bool)
    ensures
        found == prefix@.is_prefix_of(chars@),
{
    if prefix.len() > chars.len() {
        return false;
    }
    let mut i: usize = 0;
    while i < prefix.len()
        invariant
            i <= prefix@.len() <= chars@.len(),
            forall|k: int| 0 <= k < i ==> chars@[k] == prefix@[k],
        decreases prefix@.len() - i,
    {
        if chars[i] != prefix[i] {
            return false;
        }
        i += 1;
    }
    assert(chars@.subrange(0, prefix@.len() as int) =~= prefix@);
    true
}

/// Where the words of `chars` lie: for each word the position of its first
/// character and the position after its last.
pub fn split_words(chars: &Vec<char>) -> (ranges: Vec<(usize, usize)>)
    ensures
        ranges@.len() == word_spans(chars@).len(),
        forall|k: int|
            0 <= k < ranges@.len() ==> {
                &&& (#[trigger] ranges@[k]).0 == word_spans(chars@)[k].0
                &&& ranges@[k].1 == word_spans(chars@)[k].1
                &&& ranges@[k].0 < ranges@[k].1 <= chars@.len()
            },
{
    let mut ranges: Vec<(usize, usize)> = Vec::new();
    let ghost mut found: Seq<(int, int)> = Seq::empty();
    let mut pos: usize = 0;
    loop
        invariant
            pos <= chars@.len(),
            found.len() == ranges@.len(),
            word_spans(chars@) == found + word_spans_from(chars@, pos as int),
            forall|k: int|
                0 <= k < ranges@.len() ==> {
                    &&& (#[trigger] ranges@[k]).0 == found[k].0
                    &&& ranges@[k].1 == found[k].1
                    &&& ranges@[k].0 < ranges@[k].1 <= chars@.len()
                },
        ensures
            ranges@.len() == word_spans(chars@).len(),
            forall|k: int|
                0 <= k < ranges@.len() ==> {
                    &&& (#[trigger] ranges@[k]).0 == word_spans(chars@)[k].0
                    &&& ranges@[k].1 == word_spans(chars@)[k].1
                    &&& ranges@[k].0 < ranges@[k].1 <= chars@.len()
                },
        decreases chars@.len() - pos,
    {
        let mut start: usize = pos;
        while start < chars.len() && is_whitespace(chars[start])
            invariant
                pos <= start <= chars@.len(),
                skip_spaces(chars@, pos as int) == skip_spaces(chars@, start as int),
            decreases chars@.len() - start,
        {
            start += 1;
        }
        if start >= chars.len() {
            assert(found + word_spans_from(chars@, pos as int) =~= found);
            break;
        }
        let mut end: usize = start;
        while end < chars.len() && !is_whitespace(chars[end])
            invariant
                start <= end <= chars@.len(),
                skip_word(chars@, start as int) == skip_word(chars@, end as int),
            decreases chars@.len() - end,
        {
            end += 1;
        }
        proof {
            let span = (start as int, end as int);
            assert(word_spans_from(chars@, pos as int) == seq![span] + word_spans_from(
                chars@,
                end as int,
            ));
            assert(found + (seq![span] + word_spans_from(chars@, end as int)) =~= found.push(span)
                + word_spans_from(chars@, end as int));
            found = found.push(span);
        }
        ranges.push((start, end));
        pos = end;
    }
    ranges
}

} // verus!
