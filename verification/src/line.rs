//! What one line of an instruction file is, and the words of a move.

use crate::number::{MAX_FIXED, fixed_value, parse_fixed};
use vstd::prelude::*;
use vstd::slice::slice_subrange;

verus! {

/// The kind of a line.
#[derive(Clone, Copy, Debug, PartialEq, Eq, Structural)]
pub enum LineKind {
    /// A comment with the time that the slicer declares: it starts with
    /// `;TIME:`.
    TimeEstimate,
    /// A comment that starts a layer: it starts with `;LAYER:`.
    LayerMarker,
    /// A linear move: it starts with `G0` or `G1` and a space.
    Move,
    /// Any other line.
    Other,
}

/// The values that the words of a move give: the new position on each axis
/// and the new feed rate, each where the move has a word for it.
#[derive(Clone, Copy, Debug, PartialEq, Eq, Structural)]
pub struct MoveWords {
    pub x: Option<i64>,
    pub y: Option<i64>,
    pub f: Option<i64>,
}

/// The bytes of a text of ASCII characters.
pub open spec fn ascii_bytes(text: Seq<char>) -> Seq<u8> {
    Seq::new(text.len(), |i: int| text[i] as u8)
}

/// Whether `line` begins with `prefix`.
pub open spec fn starts_with(line: Seq<u8>, prefix: Seq<u8>) -> bool {
    prefix.len() <= line.len() && line.take(prefix.len() as int) == prefix
}

/// The length of the keyword of a time comment.
pub const TIME_KEYWORD_LEN: usize = 6;

/// The length of the keyword of a layer comment.
pub const LAYER_KEYWORD_LEN: usize = 7;

/// The kind of `line`.
pub open spec fn line_kind(line: Seq<u8>) -> LineKind {
    if starts_with(line, ascii_bytes(";TIME:"@)) {
        LineKind::TimeEstimate
    } else if starts_with(line, ascii_bytes(";LAYER:"@)) {
        LineKind::LayerMarker
    } else if starts_with(line, ascii_bytes("G0 "@)) || starts_with(line, ascii_bytes("G1 "@)) {
        LineKind::Move
    } else {
        LineKind::Other
    }
}

/// Whether `b` is a white space character of ASCII: a space, a tab, a
/// line feed, a vertical tab, a form feed or a carriage return.
pub open spec fn is_space(b: u8) -> bool {
    b == 0x20 || (0x09 <= b <= 0x0d)
}

/// Whether `a`, `b` are the UTF-8 form of a white space character of two
/// bytes: the next line character U+0085 or the no-break space U+00A0.
pub open spec fn is_space_of_two(a: u8, b: u8) -> bool {
    a == 0xc2 && (b == 0x85 || b == 0xa0)
}

/// Whether `a`, `b`, `c` are the UTF-8 form of a white space character of
/// three bytes: the Ogham space mark U+1680, a space from U+2000 to U+200A,
/// the line separator U+2028, the paragraph separator U+2029, the narrow
/// no-break space U+202F, the medium mathematical space U+205F or the
/// ideographic space U+3000.
pub open spec fn is_space_of_three(a: u8, b: u8, c: u8) -> bool {
    ||| a == 0xe1 && b == 0x9a && c == 0x80
    ||| a == 0xe2 && b == 0x80 && (0x80 <= c <= 0x8a || c == 0xa8 || c == 0xa9 || c == 0xaf)
    ||| a == 0xe2 && b == 0x81 && c == 0x9f
    ||| a == 0xe3 && b == 0x80 && c == 0x80
}

/// The number of bytes of the separator that `s` starts with, or zero
/// where it starts with none. A separator is a white space character of
/// Unicode in its UTF-8 form.
pub open spec fn space_len(s: Seq<u8>) -> int {
    if s.len() >= 1 && is_space(s[0]) {
        1
    } else if s.len() >= 2 && is_space_of_two(s[0], s[1]) {
        2
    } else if s.len() >= 3 && is_space_of_three(s[0], s[1], s[2]) {
        3
    } else {
        0
    }
}

/// The length of the word at the start of `s`: the number of bytes before
/// the first separator.
pub open spec fn word_len(s: Seq<u8>) -> int
    decreases s.len(),
{
    if s.len() == 0 || space_len(s) > 0 {
        0
    } else {
        1 + word_len(s.drop_first())
    }
}

/// The words of `s`: the longest runs of bytes without a separator, in
/// order.
pub open spec fn words(s: Seq<u8>) -> Seq<Seq<u8>>
    decreases s.len(),
    via words_decreases
{
    if s.len() == 0 {
        Seq::empty()
    } else if space_len(s) > 0 {
        words(s.skip(space_len(s)))
    } else {
        seq![s.take(word_len(s))] + words(s.skip(word_len(s)))
    }
}

#[via_fn]
proof fn words_decreases(s: Seq<u8>) {
    lemma_word_len_bounds(s);
}

/// The values after one more word. A word that starts with `X`, `Y` or `F`
/// sets that value to the number that follows the letter, and gives `None`
/// where no number follows. Any other word changes nothing.
pub open spec fn word_applied(values: MoveWords, word: Seq<u8>) -> Option<MoveWords> {
    if word.len() > 0 && word[0] == 'X' as u8 {
        match fixed_value(word.skip(1)) {
            Some(v) => Some(MoveWords { x: Some(v), ..values }),
            None => None,
        }
    } else if word.len() > 0 && word[0] == 'Y' as u8 {
        match fixed_value(word.skip(1)) {
            Some(v) => Some(MoveWords { y: Some(v), ..values }),
            None => None,
        }
    } else if word.len() > 0 && word[0] == 'F' as u8 {
        match fixed_value(word.skip(1)) {
            Some(v) => Some(MoveWords { f: Some(v), ..values }),
            None => None,
        }
    } else {
        Some(values)
    }
}

/// The values after all of `list`, word by word from the first, or `None`
/// where one of the words gives `None`.
pub open spec fn words_applied(values: MoveWords, list: Seq<Seq<u8>>) -> Option<MoveWords>
    decreases list.len(),
{
    if list.len() == 0 {
        Some(values)
    } else {
        match word_applied(values, list[0]) {
            Some(next) => words_applied(next, list.drop_first()),
            None => None,
        }
    }
}

/// No value given.
pub open spec fn no_words() -> MoveWords {
    MoveWords { x: None, y: None, f: None }
}

/// The values that the words of the move `line` give, or `None` where an
/// `X`, `Y` or `F` word has no number. The last word for a value counts.
pub open spec fn move_words(line: Seq<u8>) -> Option<MoveWords> {
    words_applied(no_words(), words(line))
}

/// Whether each value that is given is a fixed-point number in range.
pub open spec fn words_in_range(values: MoveWords) -> bool {
    &&& values.x matches Some(v) ==> -MAX_FIXED <= v <= MAX_FIXED
    &&& values.y matches Some(v) ==> -MAX_FIXED <= v <= MAX_FIXED
    &&& values.f matches Some(v) ==> -MAX_FIXED <= v <= MAX_FIXED
}

/// Words give values in range.
pub proof fn lemma_words_applied_range(values: MoveWords, list: Seq<Seq<u8>>)
    requires
        words_in_range(values),
    ensures
        words_applied(values, list) matches Some(given) ==> words_in_range(given),
    decreases list.len(),
{
    if list.len() > 0 {
        match word_applied(values, list[0]) {
            Some(next) => {
                lemma_words_applied_range(next, list.drop_first());
            },
            None => {},
        }
    }
}

/// The word at the start of `s` lies within `s`, and has a byte where `s`
/// starts with no separator.
pub proof fn lemma_word_len_bounds(s: Seq<u8>)
    ensures
        0 <= word_len(s) <= s.len(),
        s.len() > 0 && space_len(s) == 0 ==> word_len(s) >= 1,
    decreases s.len(),
{
    if s.len() == 0 || space_len(s) > 0 {
    } else {
        lemma_word_len_bounds(s.drop_first());
    }
}

/// The word at the start of `s` has `k` bytes where no separator starts
/// before `k` and `s` ends at `k` or has a separator there.
pub proof fn lemma_word_len(s: Seq<u8>, k: int)
    requires
        0 <= k <= s.len(),
        forall|i: int| 0 <= i < k ==> space_len(#[trigger] s.skip(i)) == 0,
        k == s.len() || space_len(s.skip(k)) > 0,
    ensures
        word_len(s) == k,
    decreases k,
{
    assert(s.skip(0) =~= s);
    if k > 0 {
        let rest = s.drop_first();
        assert forall|i: int| 0 <= i < k - 1 implies space_len(#[trigger] rest.skip(i)) == 0 by {
            assert(rest.skip(i) =~= s.skip(i + 1));
        }
        assert(rest.skip(k - 1) =~= s.skip(k));
        lemma_word_len(rest, k - 1);
    }
}

/// Whether `line` begins with `prefix`.
pub fn has_prefix(line: &[u8], prefix: &[u8]) -> (found: bool)
    ensures
        found == starts_with(line@, prefix@),
{
    let n: usize = prefix.len();
    if line.len() < n {
        return false;
    }
    let mut i: usize = 0;
    while i < n
        invariant
            i <= n,
            n == prefix@.len(),
            n <= line@.len(),
            forall|j: int| 0 <= j < i ==> line@[j] == prefix@[j],
        decreases n - i,
    {
        if line[i] != prefix[i] {
            assert(line@.take(n as int)[i as int] != prefix@[i as int]);
            return false;
        }
        i += 1;
    }
    assert(line@.take(n as int) =~= prefix@);
    true
}

/// The bytes of a keyword, which is a text of ASCII characters.
fn keyword(text: &str) -> (bytes: &[u8])
    requires
        text.is_ascii(),
    ensures
        bytes@ == ascii_bytes(text@),
{
    proof {
        vstd::string::is_ascii_spec_bytes(text);
    }
    text.as_bytes()
}

/// The kind of `line`.
pub fn classify(line: &[u8]) -> (kind: LineKind)
    ensures
        kind == line_kind(line@),
{
    proof {
        reveal_strlit(";TIME:");
        reveal_strlit(";LAYER:");
        reveal_strlit("G0 ");
        reveal_strlit("G1 ");
    }
    if has_prefix(line, keyword(";TIME:")) {
        LineKind::TimeEstimate
    } else if has_prefix(line, keyword(";LAYER:")) {
        LineKind::LayerMarker
    } else if has_prefix(line, keyword("G0 ")) || has_prefix(line, keyword("G1 ")) {
        LineKind::Move
    } else {
        LineKind::Other
    }
}

/// The values after one more word.
pub fn apply_word(values: MoveWords, word: &[u8]) -> (next: Option<MoveWords>)
    ensures
        next == word_applied(values, word@),
{
    if word.len() == 0 {
        return Some(values);
    }
    let letter: u8 = word[0];
    if letter != 'X' as u8 && letter != 'Y' as u8 && letter != 'F' as u8 {
        return Some(values);
    }
    let number: &[u8] = slice_subrange(word, 1, word.len());
    assert(number@ =~= word@.skip(1));
    match parse_fixed(number) {
        None => None,
        Some(v) => {
            if letter == 'X' as u8 {
                Some(MoveWords { x: Some(v), y: values.y, f: values.f })
            } else if letter == 'Y' as u8 {
                Some(MoveWords { x: values.x, y: Some(v), f: values.f })
            } else {
                Some(MoveWords { x: values.x, y: values.y, f: Some(v) })
            }
        },
    }
}

/// The number of bytes of the separator that `line` has at `at`, or zero
/// where it has none there.
pub fn separator_len(line: &[u8], at: usize) -> (len: usize)
    requires
        at <= line@.len(),
    ensures
        len == space_len(line@.skip(at as int)),
{
    let n: usize = line.len();
    let ghost rest = line@.skip(at as int);
    if at >= n {
        return 0;
    }
    let a: u8 = line[at];
    assert(rest[0] == a);
    if a == 0x20 || (0x09 <= a && a <= 0x0d) {
        return 1;
    }
    if n - at < 2 {
        return 0;
    }
    let b: u8 = line[at + 1];
    assert(rest[1] == b);
    if a == 0xc2 && (b == 0x85 || b == 0xa0) {
        return 2;
    }
    if n - at < 3 {
        return 0;
    }
    let c: u8 = line[at + 2];
    assert(rest[2] == c);
    let wide: bool = (a == 0xe1 && b == 0x9a && c == 0x80) || (a == 0xe2 && b == 0x80 && ((0x80
        <= c && c <= 0x8a) || c == 0xa8 || c == 0xa9 || c == 0xaf)) || (a == 0xe2 && b == 0x81 && c
        == 0x9f) || (a == 0xe3 && b == 0x80 && c == 0x80);
    if wide {
        3
    } else {
        0
    }
}

/// The values that the words of the move `line` give, or `None` where an
/// `X`, `Y` or `F` word has no number.
pub fn parse_move(line: &[u8]) -> (values: Option<MoveWords>)
    ensures
        values == move_words(line@),
        values matches Some(given) ==> words_in_range(given),
{
    proof {
        lemma_words_applied_range(no_words(), words(line@));
    }
    let n: usize = line.len();
    let mut current: MoveWords = MoveWords { x: None, y: None, f: None };
    let mut i: usize = 0;
    assert(line@.skip(0) =~= line@);
    while i < n
        invariant
            i <= n,
            n == line@.len(),
            words_applied(current, words(line@.skip(i as int))) == move_words(line@),
        decreases n - i,
    {
        let ghost rest = line@.skip(i as int);
        let space: usize = separator_len(line, i);
        if space > 0 {
            assert(rest.skip(space as int) =~= line@.skip(i + space));
            i += space;
        } else {
            let mut end: usize = i + 1;
            while end < n && separator_len(line, end) == 0
                invariant
                    i < end <= n,
                    n == line@.len(),
                    forall|j: int| i <= j < end ==> space_len(#[trigger] line@.skip(j)) == 0,
                decreases n - end,
            {
                end += 1;
            }
            let word: &[u8] = slice_subrange(line, i, end);
            proof {
                assert forall|j: int| 0 <= j < end - i implies space_len(#[trigger] rest.skip(j))
                    == 0 by {
                    assert(rest.skip(j) =~= line@.skip(i + j));
                }
                assert(rest.skip(end - i) =~= line@.skip(end as int));
                lemma_word_len(rest, end - i);
                assert(word@ =~= rest.take(word_len(rest)));
                let list = words(rest);
                assert(list[0] == word@);
                assert(list.drop_first() =~= words(line@.skip(end as int)));
            }
            match apply_word(current, word) {
                None => {
                    return None;
                },
                Some(next) => {
                    current = next;
                },
            }
            i = end;
        }
    }
    assert(line@.skip(n as int) =~= Seq::<u8>::empty());
    Some(current)
}

} // verus!
