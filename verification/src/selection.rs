//! Screen selections as a selection tool reports them: `WxH+X+Y`.

use crate::bitmap::Image;
use crate::text::to_chars;
use vstd::prelude::*;

verus! {

/// A selected region of the screen, in absolute coordinates.
#[derive(Clone, Copy, Debug, PartialEq, Eq, Structural)]
pub struct Selection {
    pub x: i32,
    pub y: i32,
    pub width: i32,
    pub height: i32,
}

/// Whether `c` is white space: a character with the Unicode property
/// `White_Space`.
pub open spec fn is_space(c: char) -> bool {
    ('\u{9}' <= c && c <= '\u{d}') || c == ' ' || c == '\u{85}' || c == '\u{a0}' || c
        == '\u{1680}' || ('\u{2000}' <= c && c <= '\u{200a}') || c == '\u{2028}' || c
        == '\u{2029}' || c == '\u{202f}' || c == '\u{205f}' || c == '\u{3000}'
}

/// How many characters of white space `s` starts with.
pub open spec fn leading_spaces(s: Seq<char>) -> int
    decreases s.len(),
{
    if s.len() > 0 && is_space(s[0]) {
        1 + leading_spaces(s.drop_first())
    } else {
        0
    }
}

/// How many characters of white space `s` ends with.
pub open spec fn trailing_spaces(s: Seq<char>) -> int
    decreases s.len(),
{
    if s.len() > 0 && is_space(s.last()) {
        1 + trailing_spaces(s.drop_last())
    } else {
        0
    }
}

/// `s` without the white space at its two ends.
pub open spec fn trimmed(s: Seq<char>) -> Seq<char> {
    let from = leading_spaces(s);
    if from == s.len() {
        Seq::empty()
    } else {
        s.subrange(from, s.len() - trailing_spaces(s))
    }
}

/// The index of the first `c` in `s` at or after `from`, or the length of
/// `s` where there is none.
pub open spec fn position(s: Seq<char>, c: char, from: int) -> int
    decreases s.len() - from,
{
    if from < 0 || from >= s.len() {
        s.len() as int
    } else if s[from] == c {
        from
    } else {
        position(s, c, from + 1)
    }
}

/// What stands before and behind the first `c` in `s`.
pub open spec fn split_once(s: Seq<char>, c: char) -> Option<(Seq<char>, Seq<char>)> {
    let at = position(s, c, 0);
    if at < s.len() {
        Some((s.subrange(0, at), s.subrange(at + 1, s.len() as int)))
    } else {
        None
    }
}

/// Whether `c` is one of the ten digits.
pub open spec fn is_digit(c: char) -> bool {
    '0' <= c && c <= '9'
}

/// The number that a text of digits writes in base ten.
pub open spec fn decimal(s: Seq<char>) -> int
    decreases s.len(),
{
    if s.len() == 0 {
        0
    } else {
        10 * decimal(s.drop_last()) + (s.last() as int - '0' as int)
    }
}

/// Every character is a digit.
pub open spec fn all_digits(s: Seq<char>) -> bool {
    forall|i: int| 0 <= i < s.len() ==> is_digit(#[trigger] s[i])
}

/// The 32-bit integer that `s` writes: an optional sign, then at least one
/// digit and nothing else, with a value in range.
pub open spec fn integer(s: Seq<char>) -> Option<i32> {
    let signed = s.len() > 0 && (s[0] == '-' || s[0] == '+');
    let digits = if signed {
        s.drop_first()
    } else {
        s
    };
    let value = if signed && s[0] == '-' {
        -decimal(digits)
    } else {
        decimal(digits)
    };
    if digits.len() > 0 && all_digits(digits) && i32::MIN <= value <= i32::MAX {
        Some(value as i32)
    } else {
        None
    }
}

/// The selection that `WxH+X+Y` stands for, white space around it aside.
///
/// The text is split at its first `+`, what stands before that at its
/// first `x`, what stands behind it at its first `+`, and each of the four
/// parts must be an integer.
pub open spec fn selection_of(s: Seq<char>) -> Option<Selection> {
    match split_once(trimmed(s), '+') {
        None => None,
        Some((dimensions, coordinates)) => match (
            split_once(dimensions, 'x'),
            split_once(coordinates, '+'),
        ) {
            (Some((width, height)), Some((x, y))) => match (
                integer(x),
                integer(y),
                integer(width),
                integer(height),
            ) {
                (Some(x), Some(y), Some(width), Some(height)) => Some(
                    Selection { x, y, width, height },
                ),
                _ => None,
            },
            _ => None,
        },
    }
}

fn white(c: char) -> (b: bool)
    ensures
        b == is_space(c),
{
    ('\u{9}' <= c && c <= '\u{d}') || c == ' ' || c == '\u{85}' || c == '\u{a0}' || c
        == '\u{1680}' || ('\u{2000}' <= c && c <= '\u{200a}') || c == '\u{2028}' || c
        == '\u{2029}' || c == '\u{202f}' || c == '\u{205f}' || c == '\u{3000}'
}

/// The leading white space of a text ends where the slice without it
/// begins.
proof fn lemma_leading(s: Seq<char>, k: int)
    requires
        0 <= k <= s.len(),
        forall|i: int| 0 <= i < k ==> is_space(#[trigger] s[i]),
    ensures
        leading_spaces(s) == k + leading_spaces(s.subrange(k, s.len() as int)),
    decreases k,
{
    if k == 0 {
        assert(s.subrange(0, s.len() as int) =~= s);
    } else {
        let rest = s.drop_first();
        assert forall|i: int| 0 <= i < k - 1 implies is_space(#[trigger] rest[i]) by {
            assert(rest[i] == s[i + 1]);
        }
        lemma_leading(rest, k - 1);
        assert(rest.subrange(k - 1, rest.len() as int) =~= s.subrange(k, s.len() as int));
    }
}

/// The trailing white space of a text ends where the slice without it
/// ends.
proof fn lemma_trailing(s: Seq<char>, k: int)
    requires
        0 <= k <= s.len(),
        forall|i: int| s.len() - k <= i < s.len() ==> is_space(#[trigger] s[i]),
    ensures
        trailing_spaces(s) == k + trailing_spaces(s.subrange(0, s.len() - k)),
    decreases k,
{
    if k == 0 {
        assert(s.subrange(0, s.len() as int) =~= s);
    } else {
        let rest = s.drop_last();
        assert forall|i: int| rest.len() - (k - 1) <= i < rest.len() implies is_space(
            #[trigger] rest[i],
        ) by {
            assert(rest[i] == s[i]);
        }
        lemma_trailing(rest, k - 1);
        assert(rest.subrange(0, rest.len() - (k - 1)) =~= s.subrange(0, s.len() - k));
    }
}

fn trim(s: &Vec<char>) -> (kept: Vec<char>)
    ensures
        kept@ == trimmed(s@),
{
    let mut from: usize = 0;
    while from < s.len() && white(s[from])
        invariant
            from <= s.len(),
            forall|i: int| 0 <= i < from ==> is_space(#[trigger] s@[i]),
        decreases s.len() - from,
    {
        from = from + 1;
    }
    proof {
        lemma_leading(s@, from as int);
    }
    let mut kept: Vec<char> = Vec::new();
    if from == s.len() {
        assert(s@.subrange(from as int, s@.len() as int).len() == 0);
        return kept;
    }
    assert(s@.subrange(from as int, s@.len() as int)[0] == s@[from as int]);
    let mut to: usize = s.len();
    while to > from && white(s[to - 1])
        invariant
            from <= to <= s.len(),
            forall|i: int| to <= i < s.len() ==> is_space(#[trigger] s@[i]),
        decreases to,
    {
        to = to - 1;
    }
    proof {
        lemma_trailing(s@, s.len() - to);
        assert(to > from);
        assert(s@.subrange(0, to as int).last() == s@[to - 1]);
    }
    let mut i: usize = from;
    while i < to
        invariant
            from <= i <= to <= s.len(),
            kept@ == s@.subrange(from as int, i as int),
        decreases to - i,
    {
        kept.push(s[i]);
        i = i + 1;
        assert(kept@ =~= s@.subrange(from as int, i as int));
    }
    kept
}

fn find(s: &Vec<char>, c: char) -> (at: usize)
    ensures
        at == position(s@, c, 0),
        at <= s.len(),
{
    let mut at: usize = 0;
    while at < s.len() && s[at] != c
        invariant
            at <= s.len(),
            position(s@, c, 0) == position(s@, c, at as int),
        decreases s.len() - at,
    {
        at = at + 1;
    }
    at
}

fn slice(s: &Vec<char>, from: usize, to: usize) -> (part: Vec<char>)
    requires
        from <= to <= s.len(),
    ensures
        part@ == s@.subrange(from as int, to as int),
{
    let mut part: Vec<char> = Vec::new();
    let mut i: usize = from;
    while i < to
        invariant
            from <= i <= to <= s.len(),
            part@ == s@.subrange(from as int, i as int),
        decreases to - i,
    {
        part.push(s[i]);
        i = i + 1;
        assert(part@ =~= s@.subrange(from as int, i as int));
    }
    part
}

fn split(s: &Vec<char>, c: char) -> (r: Option<(Vec<char>, Vec<char>)>)
    ensures
        match r {
            Some((a, b)) => split_once(s@, c) == Some((a@, b@)),
            None => split_once(s@, c) is None,
        },
{
    let at = find(s, c);
    if at < s.len() {
        Some((slice(s, 0, at), slice(s, at + 1, s.len())))
    } else {
        None
    }
}

/// A text of digits writes a natural number, and a longer one no smaller
/// number.
proof fn lemma_decimal_grows(s: Seq<char>, k: int)
    requires
        0 <= k <= s.len(),
        all_digits(s),
    ensures
        0 <= decimal(s.subrange(0, k)) <= decimal(s),
    decreases s.len() - k,
{
    if k < s.len() {
        lemma_decimal_grows(s, k + 1);
        let longer = s.subrange(0, k + 1);
        assert(longer.drop_last() =~= s.subrange(0, k));
        assert(longer.last() == s[k]);
        assert(is_digit(s[k]));
        lemma_decimal_natural(s.subrange(0, k));
    } else {
        assert(s.subrange(0, k) =~= s);
        lemma_decimal_natural(s);
    }
}

/// A text of digits writes a natural number.
proof fn lemma_decimal_natural(s: Seq<char>)
    requires
        all_digits(s),
    ensures
        0 <= decimal(s),
    decreases s.len(),
{
    if s.len() > 0 {
        assert(is_digit(s.last()));
        assert forall|i: int| 0 <= i < s.drop_last().len() implies is_digit(
            #[trigger] s.drop_last()[i],
        ) by {
            assert(s.drop_last()[i] == s[i]);
        }
        lemma_decimal_natural(s.drop_last());
    }
}

fn parse(s: &Vec<char>) -> (r: Option<i32>)
    ensures
        r == integer(s@),
{
    let signed = s.len() > 0 && (s[0] == '-' || s[0] == '+');
    let negative = signed && s[0] == '-';
    let start: usize = if signed {
        1
    } else {
        0
    };
    let ghost digits = if signed {
        s@.drop_first()
    } else {
        s@
    };
    assert(digits =~= s@.subrange(start as int, s@.len() as int));
    if start == s.len() {
        return None;
    }
    let mut value: i64 = 0;
    let mut i: usize = start;
    while i < s.len()
        invariant
            start <= i <= s.len(),
            digits == s@.subrange(start as int, s@.len() as int),
            digits == if s@.len() > 0 && (s@[0] == '-' || s@[0] == '+') {
                s@.drop_first()
            } else {
                s@
            },
            forall|k: int| 0 <= k < i - start ==> is_digit(#[trigger] digits[k]),
            value == decimal(digits.subrange(0, i - start)),
            0 <= value <= 0x8000_0000,
        decreases s.len() - i,
    {
        let c = s[i];
        assert(digits[i - start] == c);
        if !('0' <= c && c <= '9') {
            assert(!all_digits(digits));
            return None;
        }
        let d: i64 = (c as u32 - '0' as u32) as i64;
        let next: i64 = 10 * value + d;
        proof {
            let longer = digits.subrange(0, i - start + 1);
            assert(longer.drop_last() =~= digits.subrange(0, i - start));
            assert(longer.last() == c);
            assert(decimal(longer) == next);
        }
        if next > 0x8000_0000 {
            // the rest must still be digits for the text to be a number at all
            let mut j: usize = i + 1;
            while j < s.len()
                invariant
                    i < j <= s.len(),
                    start <= i,
                    digits == s@.subrange(start as int, s@.len() as int),
                    digits == if s@.len() > 0 && (s@[0] == '-' || s@[0] == '+') {
                        s@.drop_first()
                    } else {
                        s@
                    },
                    forall|k: int| 0 <= k < j - start ==> is_digit(#[trigger] digits[k]),
                decreases s.len() - j,
            {
                let e = s[j];
                assert(digits[j - start] == e);
                if !('0' <= e && e <= '9') {
                    assert(!all_digits(digits));
                    return None;
                }
                j = j + 1;
            }
            proof {
                assert(all_digits(digits));
                lemma_decimal_grows(digits, i - start + 1);
                assert(decimal(digits) > 0x8000_0000);
            }
            return None;
        }
        value = next;
        i = i + 1;
    }
    assert(digits.subrange(0, digits.len() as int) =~= digits);
    if negative {
        Some((-value) as i32)
    } else if value > 0x7fff_ffff {
        None
    } else {
        Some(value as i32)
    }
}

/// Reads a selection of the form `WxH+X+Y`, as in `100x200+300+400`:
/// 100 wide and 200 high, at (300, 400).
///
/// White space around the text is ignored. `None` for any other text.
pub fn slop_to_selection(slop_output: &str) -> (r: Option<Selection>)
    ensures
        r == selection_of(slop_output@),
{
    let text = trim(&to_chars(slop_output));
    let (dimensions, coordinates) = match split(&text, '+') {
        Some(parts) => parts,
        None => {
            return None;
        },
    };
    let sizes = split(&dimensions, 'x');
    let places = split(&coordinates, '+');
    let (width, height) = match sizes {
        Some(parts) => parts,
        None => {
            return None;
        },
    };
    let (x, y) = match places {
        Some(parts) => parts,
        None => {
            return None;
        },
    };
    let x = parse(&x);
    let y = parse(&y);
    let width = parse(&width);
    let height = parse(&height);
    match (x, y, width, height) {
        (Some(x), Some(y), Some(width), Some(height)) => Some(Selection { x, y, width, height }),
        _ => None,
    }
}

/// The part of a bitmap that a selection covers, with the selection given
/// relative to the bitmap.
///
/// Negative sizes and positions count as zero, and what reaches over the
/// edge is cut off.
pub fn extract_part(image: &Image, sel_size: (i32, i32), sel_pos: (i32, i32)) -> (part: Image)
    ensures
        part@ == image@.crop(
            floor_zero(sel_pos.0) as int,
            floor_zero(sel_pos.1) as int,
            floor_zero(sel_size.0) as int,
            floor_zero(sel_size.1) as int,
        ),
{
    image.crop(at_least_zero(sel_pos.0), at_least_zero(sel_pos.1), at_least_zero(sel_size.0), at_least_zero(sel_size.1))
}

/// `v`, or zero where `v` is negative.
pub open spec fn floor_zero(v: i32) -> u32 {
    if v < 0 {
        0
    } else {
        v as u32
    }
}

fn at_least_zero(v: i32) -> (r: u32)
    ensures
        r == floor_zero(v),
{
    if v < 0 {
        0
    } else {
        v as u32
    }
}

} // verus!
