//! What holds of characters, of white space, of decimal numbers and of lengths.

use vstd::prelude::*;
use vstd::utf8::encode_utf8;

use crate::text::{
    byte_len, decimal, digit_char, is_whitespace, lemma_trim_bounds, lowercase, trimmed,
};

verus! {

/// The characters that count as white space, by their code points.
pub proof fn law_white_space(c: char)
    ensures
        is_whitespace(c) <==> {
            let code = c as u32;
            ||| 0x9 <= code <= 0xd
            ||| code == 0x20
            ||| code == 0x85
            ||| code == 0xa0
            ||| code == 0x1680
            ||| 0x2000 <= code <= 0x200a
            ||| code == 0x2028
            ||| code == 0x2029
            ||| code == 0x202f
            ||| code == 0x205f
            ||| code == 0x3000
        },
{
}

proof fn lemma_leading_part(s: Seq<char>) -> (from: int)
    ensures
        0 <= from <= s.len(),
        forall|i: int| 0 <= i < from ==> is_whitespace(#[trigger] s[i]),
        from < s.len() ==> !is_whitespace(s[from]),
    decreases s.len(),
{
    if s.len() > 0 && is_whitespace(s[0]) {
        let rest = s.drop_first();
        let from = lemma_leading_part(rest);
        assert forall|i: int| 0 <= i < from + 1 implies is_whitespace(#[trigger] s[i]) by {
            if i > 0 {
                assert(rest[i - 1] == s[i]);
            }
        }
        if from < rest.len() {
            assert(rest[from] == s[from + 1]);
        }
        from + 1
    } else {
        0
    }
}

proof fn lemma_trailing_part(s: Seq<char>, from: int, to: int) -> (end: int)
    requires
        0 <= from <= to <= s.len(),
        from < s.len() ==> !is_whitespace(s[from]),
        forall|i: int| to <= i < s.len() ==> is_whitespace(#[trigger] s[i]),
    ensures
        from <= end <= s.len(),
        forall|i: int| end <= i < s.len() ==> is_whitespace(#[trigger] s[i]),
        from < end ==> !is_whitespace(s[end - 1]),
    decreases to,
{
    if from < to && is_whitespace(s[to - 1]) {
        lemma_trailing_part(s, from, to - 1)
    } else {
        to
    }
}

/// The trimmed form of a text is a part of it. What stands before and after the
/// part is white space, and the part neither begins nor ends in white space.
pub proof fn law_trim_takes_white_space(s: Seq<char>) -> (part: (int, int))
    ensures
        0 <= part.0 <= part.1 <= s.len(),
        trimmed(s) == s.subrange(part.0, part.1),
        forall|i: int| 0 <= i < part.0 || part.1 <= i < s.len() ==> is_whitespace(#[trigger] s[i]),
        part.0 < part.1 ==> !is_whitespace(s[part.0]) && !is_whitespace(s[part.1 - 1]),
{
    let from = lemma_leading_part(s);
    let to = lemma_trailing_part(s, from, s.len() as int);
    lemma_trim_bounds(s, from, to);
    (from, to)
}

/// Small letters take the place of the capital letters from A to Z, and nothing
/// else changes.
pub proof fn law_lowercase_letters(s: Seq<char>)
    ensures
        lowercase(s).len() == s.len(),
        forall|i: int|
            0 <= i < s.len() ==> #[trigger] lowercase(s)[i] as u32 == if 65 <= s[i] as u32 <= 90 {
                s[i] as u32 + 32
            } else {
                s[i] as int
            },
{
}

/// The bytes of a text are those of its parts, one after the other.
pub proof fn law_bytes_joined(first: Seq<char>, second: Seq<char>)
    ensures
        encode_utf8(first + second) == encode_utf8(first) + encode_utf8(second),
    decreases first.len(),
{
    if first.len() == 0 {
        assert(first + second =~= second);
        assert(encode_utf8(first) =~= Seq::empty());
    } else {
        law_bytes_joined(first.drop_first(), second);
        assert((first + second).drop_first() =~= first.drop_first() + second);
    }
}

/// A text has no bytes where it is empty, and a character adds one byte to four,
/// by its code point.
pub proof fn law_byte_count(s: Seq<char>, c: char)
    ensures
        byte_len(Seq::empty()) == 0,
        byte_len(s.push(c)) == byte_len(s) + if (c as u32) < 0x80 {
            1int
        } else if (c as u32) < 0x800 {
            2
        } else if (c as u32) < 0x1_0000 {
            3
        } else {
            4
        },
{
    law_bytes_joined(s, seq![c]);
    assert(s + seq![c] =~= s.push(c));
    assert(seq![c].drop_first() =~= Seq::empty());
    reveal_with_fuel(encode_utf8, 2);
    vstd::utf8::char_is_scalar(c);
}

/// The number of bytes of a text in parts is the sum of theirs.
pub proof fn law_byte_count_adds(first: Seq<char>, second: Seq<char>)
    ensures
        byte_len(first + second) == byte_len(first) + byte_len(second),
{
    law_bytes_joined(first, second);
}

/// A number below ten is written as its digit, and ten times a number and a digit
/// as the number and then the digit.
pub proof fn law_decimal_digits(n: nat, d: nat)
    requires
        d < 10,
    ensures
        decimal(d).len() == 1,
        decimal(d)[0] as u32 == 48 + d,
        n > 0 ==> decimal(10 * n + d) == decimal(n) + decimal(d),
{
    if n > 0 {
        assert((10 * n + d) / 10 == n);
        assert((10 * n + d) % 10 == d);
        assert(decimal(n).push(digit_char(d)) =~= decimal(n) + decimal(d));
    }
}

} // verus!
