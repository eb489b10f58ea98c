//! Character-level helpers for the descriptor grammar: white space,
//! trimming, splitting at a separator, and matching against literals.

use vstd::prelude::*;
use vstd::string::*;

verus! {

/// The model of a list of strings.
pub open spec fn strings_model(values: Seq<String>) -> Seq<Seq<char>> {
    Seq::new(values.len(), |i: int| values[i]@)
}

/// The characters that count as white space.
pub open spec fn is_whitespace(c: char) -> bool {
    ||| '\u{9}' <= c <= '\u{D}'
    ||| c == ' '
    ||| c == '\u{85}'
    ||| c == '\u{A0}'
    ||| c == '\u{1680}'
    ||| '\u{2000}' <= c <= '\u{200A}'
    ||| c == '\u{2028}'
    ||| c == '\u{2029}'
    ||| c == '\u{202F}'
    ||| c == '\u{205F}'
    ||| c == '\u{3000}'
}

/// The text without its leading white space.
pub open spec fn trim_start(s: Seq<char>) -> Seq<char>
    decreases s.len(),
{
    if s.len() > 0 && is_whitespace(s[0]) {
        trim_start(s.drop_first())
    } else {
        s
    }
}

/// The text without its trailing white space.
pub open spec fn trim_end(s: Seq<char>) -> Seq<char>
    decreases s.len(),
{
    if s.len() > 0 && is_whitespace(s.last()) {
        trim_end(s.drop_last())
    } else {
        s
    }
}

/// The text without its leading and trailing white space.
pub open spec fn trim(s: Seq<char>) -> Seq<char> {
    trim_end(trim_start(s))
}

/// The pieces of the text between the occurrences of the separator: one
/// more piece than there are separators, so never none.
pub open spec fn split(s: Seq<char>, sep: char) -> Seq<Seq<char>>
    decreases s.len(),
{
    if s.len() == 0 {
        seq![Seq::<char>::empty()]
    } else {
        let head = split(s.drop_last(), sep);
        if s.last() == sep {
            head.push(Seq::<char>::empty())
        } else {
            head.drop_last().push(head.last().push(s.last()))
        }
    }
}

/// How many `<` of the text are still open at its end: each `<` opens one
/// level, each `>` closes one where one is open.
pub open spec fn nesting(s: Seq<char>) -> nat
    decreases s.len(),
{
    if s.len() == 0 {
        0
    } else {
        let before = nesting(s.drop_last());
        if s.last() == '<' {
            before + 1
        } else if s.last() == '>' && before > 0 {
            (before - 1) as nat
        } else {
            before
        }
    }
}

/// The pieces of the text between the occurrences of the separator that
/// stand outside every `<`...`>`: a separator with a `<` still open before
/// it stays inside its piece.
pub open spec fn split_top(s: Seq<char>, sep: char) -> Seq<Seq<char>>
    decreases s.len(),
{
    if s.len() == 0 {
        seq![Seq::<char>::empty()]
    } else {
        let head = split_top(s.drop_last(), sep);
        if s.last() == sep && nesting(s.drop_last()) == 0 {
            head.push(Seq::<char>::empty())
        } else {
            head.drop_last().push(head.last().push(s.last()))
        }
    }
}

/// Whether the text begins with the given prefix.
pub open spec fn has_prefix(s: Seq<char>, prefix: Seq<char>) -> bool {
    prefix.len() <= s.len() && s.subrange(0, prefix.len() as int) == prefix
}

/// A trimmed text is no longer than the text.
pub proof fn lemma_trim_len(s: Seq<char>)
    ensures
        trim_start(s).len() <= s.len(),
        trim_end(s).len() <= s.len(),
        trim(s).len() <= s.len(),
    decreases s.len(),
{
    if s.len() > 0 {
        lemma_trim_len(s.drop_first());
        lemma_trim_len(s.drop_last());
    }
}

/// A text always splits into at least one piece outside its brackets, and
/// no piece is longer than the text.
pub proof fn lemma_split_top_len(s: Seq<char>, sep: char)
    ensures
        split_top(s, sep).len() >= 1,
        forall|k: int|
            0 <= k < split_top(s, sep).len() ==> (#[trigger] split_top(s, sep)[k]).len()
                <= s.len(),
    decreases s.len(),
{
    if s.len() > 0 {
        lemma_split_top_len(s.drop_last(), sep);
    }
}

/// Whether a character is white space.
pub fn char_is_whitespace(c: char) -> (r: bool)
    ensures
        r == is_whitespace(c),
{
    ('\u{9}' <= c && c <= '\u{D}') || c == ' ' || c == '\u{85}' || c == '\u{A0}' || c
        == '\u{1680}' || ('\u{2000}' <= c && c <= '\u{200A}') || c == '\u{2028}' || c
        == '\u{2029}' || c == '\u{202F}' || c == '\u{205F}' || c == '\u{3000}'
}

/// The characters of a text, one by one.
pub fn chars_of(s: &str) -> (r: Vec<char>)
    ensures
        r@ == s@,
{
    let mut out: Vec<char> = Vec::new();
    for c in it: s.chars()
        invariant
            out@ == s@.subrange(0, it.index() as int),
            it.seq() == s@,
    {
        out.push(c);
    }
    out
}

/// Whether the characters from `lo` up to `hi` spell the literal.
pub fn range_equals(chars: &Vec<char>, lo: usize, hi: usize, literal: &str) -> (r: bool)
    requires
        lo <= hi <= chars.len(),
    ensures
        r == (chars@.subrange(lo as int, hi as int) == literal@),
{
    let pattern = chars_of(literal);
    if pattern.len() != hi - lo {
        return false;
    }
    let ghost sub = chars@.subrange(lo as int, hi as int);
    let mut k: usize = 0;
    while k < pattern.len()
        invariant
            lo <= hi <= chars.len(),
            pattern.len() == hi - lo,
            pattern@ == literal@,
            sub == chars@.subrange(lo as int, hi as int),
            k <= pattern.len(),
            forall|j: int| 0 <= j < k ==> sub[j] == pattern[j],
        decreases pattern.len() - k,
    {
        if chars[lo + k] != pattern[k] {
            return false;
        }
        k += 1;
    }
    assert(sub =~= pattern@);
    true
}

/// Whether the characters from `lo` up to `hi` begin with the literal;
/// where they do, the literal's length is returned with it.
pub fn range_starts_with(chars: &Vec<char>, lo: usize, hi: usize, literal: &str) -> (r: (
    bool,
    usize,
))
    requires
        lo <= hi <= chars.len(),
    ensures
        r.0 == has_prefix(chars@.subrange(lo as int, hi as int), literal@),
        r.1 == literal@.len(),
{
    let pattern = chars_of(literal);
    let n = pattern.len();
    if n > hi - lo {
        return (false, n);
    }
    let matched = range_equals(chars, lo, lo + n, literal);
    assert(chars@.subrange(lo as int, hi as int).subrange(0, n as int) =~= chars@.subrange(
        lo as int,
        lo + n,
    ));
    (matched, n)
}

/// Trims the range from `lo` up to `hi`: the bounds of what is left once
/// the white space at both ends is gone. Where nothing is left, the result
/// is the empty range at `hi`.
pub fn trim_range(chars: &Vec<char>, lo: usize, hi: usize) -> (r: (usize, usize))
    requires
        lo <= hi <= chars.len(),
    ensures
        lo <= r.0 <= r.1 <= hi,
        chars@.subrange(r.0 as int, r.1 as int) == trim(chars@.subrange(lo as int, hi as int)),
        r.0 == hi - trim_start(chars@.subrange(lo as int, hi as int)).len(),
{
    let mut a: usize = lo;
    while a < hi && char_is_whitespace(chars[a])
        invariant
            lo <= a <= hi <= chars.len(),
            trim_start(chars@.subrange(a as int, hi as int)) == trim_start(
                chars@.subrange(lo as int, hi as int),
            ),
        decreases hi - a,
    {
        assert(chars@.subrange(a as int, hi as int).drop_first() =~= chars@.subrange(
            a + 1,
            hi as int,
        ));
        a += 1;
    }
    let mut b: usize = hi;
    while a < b && char_is_whitespace(chars[b - 1])
        invariant
            lo <= a <= b <= hi <= chars.len(),
            trim_end(chars@.subrange(a as int, b as int)) == trim_end(
                chars@.subrange(a as int, hi as int),
            ),
        decreases b - a,
    {
        assert(chars@.subrange(a as int, b as int).drop_last() =~= chars@.subrange(
            a as int,
            b - 1,
        ));
        b -= 1;
    }
    (a, b)
}

/// Splits the range from `lo` up to `hi` at every occurrence of the
/// separator: the bounds of each piece, in order. The first piece starts at
/// `lo`, each further piece one character after the end of the piece before
/// it, and the last piece ends at `hi`.
pub fn split_range(chars: &Vec<char>, lo: usize, hi: usize, sep: char) -> (r: Vec<(usize, usize)>)
    requires
        lo <= hi <= chars.len(),
    ensures
        r.len() == split(chars@.subrange(lo as int, hi as int), sep).len(),
        forall|k: int|
            0 <= k < r.len() ==> {
                &&& lo <= (#[trigger] r[k]).0 <= r[k].1 <= hi
                &&& chars@.subrange(r[k].0 as int, r[k].1 as int) == split(
                    chars@.subrange(lo as int, hi as int),
                    sep,
                )[k]
            },
        r[0].0 == lo,
        r[r.len() - 1].1 == hi,
        forall|k: int| 0 <= k < r.len() - 1 ==> (#[trigger] r[k]).1 + 1 == r[k + 1].0,
{
    let mut pieces: Vec<(usize, usize)> = Vec::new();
    let mut start: usize = lo;
    let mut i: usize = lo;
    while i < hi
        invariant
            lo <= start <= i <= hi <= chars.len(),
            pieces.len() == 0 ==> start == lo,
            pieces.len() > 0 ==> pieces[0].0 == lo && pieces[pieces.len() - 1].1 + 1 == start,
            forall|k: int|
                0 <= k < pieces.len() - 1 ==> (#[trigger] pieces[k]).1 + 1 == pieces[k + 1].0,
            split(chars@.subrange(lo as int, i as int), sep).len() == pieces.len() + 1,
            split(chars@.subrange(lo as int, i as int), sep).last() == chars@.subrange(
                start as int,
                i as int,
            ),
            forall|k: int|
                0 <= k < pieces.len() ==> {
                    &&& lo <= (#[trigger] pieces[k]).0 <= pieces[k].1 <= hi
                    &&& chars@.subrange(pieces[k].0 as int, pieces[k].1 as int) == split(
                        chars@.subrange(lo as int, i as int),
                        sep,
                    )[k]
                },
        decreases hi - i,
    {
        let ghost before = chars@.subrange(lo as int, i as int);
        let ghost after = chars@.subrange(lo as int, i + 1);
        assert(after.drop_last() =~= before);
        if chars[i] == sep {
            pieces.push((start, i));
            start = i + 1;
        }
        i += 1;
    }
    pieces.push((start, hi));
    pieces
}

/// Splits the range from `lo` up to `hi` at every occurrence of the
/// separator that stands outside every `<`...`>`: the bounds of each piece,
/// in order. The first piece starts at `lo`, each further piece one
/// character after the end of the piece before it, and the last piece ends
/// at `hi`.
pub fn split_top_range(chars: &Vec<char>, lo: usize, hi: usize, sep: char) -> (r: Vec<
    (usize, usize),
>)
    requires
        lo <= hi <= chars.len(),
    ensures
        r.len() == split_top(chars@.subrange(lo as int, hi as int), sep).len(),
        forall|k: int|
            0 <= k < r.len() ==> {
                &&& lo <= (#[trigger] r[k]).0 <= r[k].1 <= hi
                &&& chars@.subrange(r[k].0 as int, r[k].1 as int) == split_top(
                    chars@.subrange(lo as int, hi as int),
                    sep,
                )[k]
            },
        r[0].0 == lo,
        r[r.len() - 1].1 == hi,
        forall|k: int| 0 <= k < r.len() - 1 ==> (#[trigger] r[k]).1 + 1 == r[k + 1].0,
{
    let mut pieces: Vec<(usize, usize)> = Vec::new();
    let mut start: usize = lo;
    let mut depth: usize = 0;
    let mut i: usize = lo;
    while i < hi
        invariant
            lo <= start <= i <= hi <= chars.len(),
            depth == nesting(chars@.subrange(lo as int, i as int)),
            depth <= i - lo,
            pieces.len() == 0 ==> start == lo,
            pieces.len() > 0 ==> pieces[0].0 == lo && pieces[pieces.len() - 1].1 + 1 == start,
            forall|k: int|
                0 <= k < pieces.len() - 1 ==> (#[trigger] pieces[k]).1 + 1 == pieces[k + 1].0,
            split_top(chars@.subrange(lo as int, i as int), sep).len() == pieces.len() + 1,
            split_top(chars@.subrange(lo as int, i as int), sep).last() == chars@.subrange(
                start as int,
                i as int,
            ),
            forall|k: int|
                0 <= k < pieces.len() ==> {
                    &&& lo <= (#[trigger] pieces[k]).0 <= pieces[k].1 <= hi
                    &&& chars@.subrange(pieces[k].0 as int, pieces[k].1 as int) == split_top(
                        chars@.subrange(lo as int, i as int),
                        sep,
                    )[k]
                },
        decreases hi - i,
    {
        let ghost before = chars@.subrange(lo as int, i as int);
        let ghost after = chars@.subrange(lo as int, i + 1);
        assert(after.drop_last() =~= before);
        assert(after.last() == chars[i as int]);
        let c = chars[i];
        if c == sep && depth == 0 {
            pieces.push((start, i));
            start = i + 1;
            assert(chars@.subrange(start as int, start as int) =~= Seq::<char>::empty());
        } else {
            assert(chars@.subrange(start as int, i as int).push(c) =~= chars@.subrange(
                start as int,
                i + 1,
            ));
        }
        if c == '<' {
            depth = depth + 1;
        } else if c == '>' && depth > 0 {
            depth = depth - 1;
        }
        i += 1;
    }
    pieces.push((start, hi));
    pieces
}

/// The characters from `lo` up to `hi` of a text, as a string of their own.
pub fn slice_of(text: &str, lo: usize, hi: usize) -> (r: String)
    requires
        lo <= hi <= text@.len(),
    ensures
        r@ == text@.subrange(lo as int, hi as int),
{
    String::from_str(text.substring_char(lo, hi))
}

/// The pieces of the characters from `lo` up to `hi`, cut at every
/// occurrence of the separator, each as a string of its own.
pub fn split_strings(text: &str, chars: &Vec<char>, lo: usize, hi: usize, sep: char) -> (pieces:
    Vec<String>)
    requires
        text@ == chars@,
        lo <= hi <= chars.len(),
    ensures
        strings_model(pieces@) == split(chars@.subrange(lo as int, hi as int), sep),
{
    let ranges = split_range(chars, lo, hi, sep);
    let mut pieces: Vec<String> = Vec::new();
    let mut k: usize = 0;
    while k < ranges.len()
        invariant
            text@ == chars@,
            lo <= hi <= chars.len(),
            k <= ranges.len(),
            pieces.len() == k,
            ranges.len() == split(chars@.subrange(lo as int, hi as int), sep).len(),
            forall|j: int|
                0 <= j < ranges.len() ==> {
                    &&& lo <= (#[trigger] ranges[j]).0 <= ranges[j].1 <= hi
                    &&& chars@.subrange(ranges[j].0 as int, ranges[j].1 as int) == split(
                        chars@.subrange(lo as int, hi as int),
                        sep,
                    )[j]
                },
            forall|j: int|
                0 <= j < k ==> (#[trigger] pieces[j])@ == split(
                    chars@.subrange(lo as int, hi as int),
                    sep,
                )[j],
        decreases ranges.len() - k,
    {
        pieces.push(slice_of(text, ranges[k].0, ranges[k].1));
        k += 1;
    }
    pieces
}

} // verus!
