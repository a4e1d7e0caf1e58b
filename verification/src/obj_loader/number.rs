//! The decimal literals that write a coordinate.
//!
//! A coordinate is written as
//!
//! ```text
//! Literal ::= Sign? ( 'inf' | 'infinity' | 'nan' | Number )
//! Number  ::= ( Digit+ | Digit+ '.' Digit* | Digit* '.' Digit+ ) Exp?
//! Exp     ::= 'e' Sign? Digit+
//! Sign    ::= [+-]
//! Digit   ::= [0-9]
//! ```
//!
//! where letters may be upper or lower case. This module decides whether a
//! text is such a literal. Which number it writes is not decided here.

use vstd::prelude::*;
use crate::obj_loader::text::all_digits;
use crate::obj_loader::text::characters;
use crate::obj_loader::text::digit;

verus! {

/// Whether `c` is the lower-case letter `letter` or its upper-case form.
pub open spec fn letter(c: char, letter: char) -> bool {
    c == letter || c as u32 + 0x20 == letter as u32
}

/// Whether `s` spells `word`, a word of lower-case letters, in any case.
pub open spec fn spells(s: Seq<char>, word: Seq<char>) -> bool {
    s.len() == word.len() && forall|i: int| 0 <= i < s.len() ==> letter(s[i], #[trigger] word[i])
}

/// Whether `c` is a sign.
pub open spec fn sign(c: char) -> bool {
    c == '+' || c == '-'
}

/// Whether `s` is an exponent: `e`, an optional sign, and at least one digit.
pub open spec fn exponent(s: Seq<char>) -> bool {
    &&& s.len() > 0
    &&& letter(s[0], 'e')
    &&& {
        let digits = if s.len() > 1 && sign(s[1]) {
            s.skip(2)
        } else {
            s.skip(1)
        };
        digits.len() > 0 && all_digits(digits)
    }
}

/// Whether `s` is a number whose digits before the point end at `i` and whose
/// digits end at `j`: digits, then perhaps a point and digits, with at least
/// one digit in all, then perhaps an exponent.
pub open spec fn number_shape(s: Seq<char>, i: int, j: int) -> bool {
    &&& 0 <= i <= j <= s.len()
    &&& all_digits(s.subrange(0, i))
    &&& if i == j {
        i > 0
    } else {
        s[i] == '.' && all_digits(s.subrange(i + 1, j)) && j > 1
    }
    &&& j == s.len() || exponent(s.skip(j))
}

/// Whether `s` is a number without a sign.
pub open spec fn number(s: Seq<char>) -> bool {
    exists|i: int, j: int| number_shape(s, i, j)
}

/// Whether `s` is a literal that writes a coordinate.
pub open spec fn number_literal(s: Seq<char>) -> bool {
    let body = if s.len() > 0 && sign(s[0]) {
        s.drop_first()
    } else {
        s
    };
    ||| spells(body, seq!['i', 'n', 'f'])
    ||| spells(body, seq!['i', 'n', 'f', 'i', 'n', 'i', 't', 'y'])
    ||| spells(body, seq!['n', 'a', 'n'])
    ||| number(body)
}

/// Where the digits that start at `from` end.
pub open spec fn digits_end(s: Seq<char>, from: int) -> int
    decreases s.len() - from,
{
    if 0 <= from < s.len() && digit(s[from]) {
        digits_end(s, from + 1)
    } else {
        from
    }
}

/// A run of digits from `from` to `to` that cannot go on ends where the
/// digits end.
pub proof fn lemma_digits_end(s: Seq<char>, from: int, to: int)
    requires
        0 <= from <= to <= s.len(),
        forall|k: int| from <= k < to ==> digit(s[k]),
        to == s.len() || !digit(s[to]),
    ensures
        digits_end(s, from) == to,
    decreases to - from,
{
    if from < to {
        lemma_digits_end(s, from + 1, to);
    }
}

/// A number has one shape only: its digits before the point end where the
/// digits from the start end, and its digits end after the point, if one
/// follows, where the digits from there end.
pub proof fn lemma_number_shape_unique(s: Seq<char>, i: int, j: int)
    requires
        number_shape(s, i, j),
    ensures
        i == digits_end(s, 0),
        j == if i < s.len() && s[i] == '.' {
            digits_end(s, i + 1)
        } else {
            i
        },
{
    assert forall|k: int| 0 <= k < i implies digit(s[k]) by {
        assert(s.subrange(0, i)[k] == s[k]);
    }
    if j < s.len() {
        assert(s.skip(j)[0] == s[j]);
        assert(!digit(s[j]));
    }
    if i == j {
        lemma_digits_end(s, 0, i);
    } else {
        lemma_digits_end(s, 0, i);
        assert forall|k: int| i + 1 <= k < j implies digit(s[k]) by {
            assert(s.subrange(i + 1, j)[k - (i + 1)] == s[k]);
        }
        lemma_digits_end(s, i + 1, j);
    }
}

fn is_digit(c: char) -> (r: bool)
    ensures
        r == digit(c),
{
    let n: u32 = c as u32;
    0x30 <= n && n <= 0x39
}

fn is_sign(c: char) -> (r: bool)
    ensures
        r == sign(c),
{
    c == '+' || c == '-'
}

fn is_letter(c: char, lower: char) -> (r: bool)
    ensures
        r == letter(c, lower),
{
    c == lower || c as u32 + 0x20 == lower as u32
}

/// Where the digits that start at `from` end, at `to` at the latest.
fn skip_digits(chars: &Vec<char>, from: usize, to: usize) -> (r: usize)
    requires
        from <= to <= chars.len(),
    ensures
        from <= r <= to,
        forall|k: int| from <= k < r ==> digit(chars@[k]),
        r == to || !digit(chars@[r as int]),
{
    let mut i: usize = from;
    while i < to && is_digit(chars[i])
        invariant
            from <= i <= to <= chars.len(),
            forall|k: int| from <= k < i ==> digit(chars@[k]),
        decreases to - i,
    {
        i = i + 1;
    }
    i
}

/// Whether the characters from `from` up to `to` spell one of the words that
/// stand for a value without digits.
fn is_special(chars: &Vec<char>, from: usize, to: usize) -> (r: bool)
    requires
        from <= to <= chars.len(),
    ensures
        r == {
            let body = chars@.subrange(from as int, to as int);
            ||| spells(body, seq!['i', 'n', 'f'])
            ||| spells(body, seq!['i', 'n', 'f', 'i', 'n', 'i', 't', 'y'])
            ||| spells(body, seq!['n', 'a', 'n'])
        },
{
    let ghost body = chars@.subrange(from as int, to as int);
    let ghost inf = seq!['i', 'n', 'f'];
    let ghost infinity = seq!['i', 'n', 'f', 'i', 'n', 'i', 't', 'y'];
    let ghost nan = seq!['n', 'a', 'n'];
    let length = to - from;
    if length == 3 {
        let a = chars[from];
        let b = chars[from + 1];
        let c = chars[from + 2];
        let is_inf = is_letter(a, 'i') && is_letter(b, 'n') && is_letter(c, 'f');
        let is_nan = is_letter(a, 'n') && is_letter(b, 'a') && is_letter(c, 'n');
        proof {
            assert(body[0] == a && body[1] == b && body[2] == c);
            assert(inf[0] == 'i' && inf[1] == 'n' && inf[2] == 'f');
            assert(nan[0] == 'n' && nan[1] == 'a' && nan[2] == 'n');
            assert(is_inf <==> spells(body, inf));
            assert(is_nan <==> spells(body, nan));
        }
        is_inf || is_nan
    } else if length == 8 {
        let r = is_letter(chars[from], 'i') && is_letter(chars[from + 1], 'n') && is_letter(
            chars[from + 2],
            'f',
        ) && is_letter(chars[from + 3], 'i') && is_letter(chars[from + 4], 'n') && is_letter(
            chars[from + 5],
            'i',
        ) && is_letter(chars[from + 6], 't') && is_letter(chars[from + 7], 'y');
        proof {
            assert(forall|k: int| 0 <= k < 8 ==> body[k] == chars@[from + k]);
            assert(infinity[0] == 'i' && infinity[1] == 'n' && infinity[2] == 'f' && infinity[3]
                == 'i' && infinity[4] == 'n' && infinity[5] == 'i' && infinity[6] == 't'
                && infinity[7] == 'y');
            assert(r <==> spells(body, infinity));
        }
        r
    } else {
        false
    }
}

/// Whether the characters from `from` up to `to` are an exponent.
fn is_exponent(chars: &Vec<char>, from: usize, to: usize) -> (r: bool)
    requires
        from <= to <= chars.len(),
    ensures
        r == exponent(chars@.subrange(from as int, to as int)),
{
    let ghost s = chars@.subrange(from as int, to as int);
    if from == to || !is_letter(chars[from], 'e') {
        assert(from < to ==> s[0] == chars@[from as int]);
        return false;
    }
    assert(s[0] == chars@[from as int]);
    let start: usize = if from + 1 < to && is_sign(chars[from + 1]) {
        from + 2
    } else {
        from + 1
    };
    proof {
        if from + 1 < to {
            assert(s[1] == chars@[from + 1]);
        }
    }
    let ghost digits = s.skip(start - from);
    let end = skip_digits(chars, start, to);
    proof {
        assert(digits.len() == to - start);
        assert forall|k: int| 0 <= k < digits.len() implies digits[k] == chars@[start + k] by {}
        if end == to {
            assert(all_digits(digits));
        } else {
            assert(digits[end - start] == chars@[end as int]);
            assert(!all_digits(digits));
        }
    }
    end == to && start < to
}

/// A scan decides: a text is a number exactly when it has the one shape that
/// its runs of digits allow.
pub proof fn lemma_number_by_scan(s: Seq<char>, i: int, j: int)
    requires
        i == digits_end(s, 0),
        j == if i < s.len() && s[i] == '.' {
            digits_end(s, i + 1)
        } else {
            i
        },
    ensures
        number(s) <==> number_shape(s, i, j),
{
    if number(s) {
        let (a, b) = choose|a: int, b: int| number_shape(s, a, b);
        lemma_number_shape_unique(s, a, b);
    }
}

/// Whether the characters from `from` up to `to` are a number without a sign.
fn is_number(chars: &Vec<char>, from: usize, to: usize) -> (r: bool)
    requires
        from <= to <= chars.len(),
    ensures
        r == number(chars@.subrange(from as int, to as int)),
{
    let ghost s = chars@.subrange(from as int, to as int);
    let whole_end = skip_digits(chars, from, to);
    let has_point: bool = whole_end < to && chars[whole_end] == '.';
    let end: usize = if has_point {
        skip_digits(chars, whole_end + 1, to)
    } else {
        whole_end
    };
    let ghost i = whole_end - from;
    let ghost j = end - from;
    proof {
        assert forall|k: int| 0 <= k < s.len() implies s[k] == chars@[from + k] by {}
        lemma_digits_end(s, 0, i);
        if has_point {
            lemma_digits_end(s, i + 1, j);
        }
        lemma_number_by_scan(s, i, j);
        assert(all_digits(s.subrange(0, i))) by {
            assert forall|k: int| 0 <= k < i implies digit(#[trigger] s.subrange(0, i)[k]) by {
                assert(s.subrange(0, i)[k] == chars@[from + k]);
            }
        }
        if has_point {
            assert(all_digits(s.subrange(i + 1, j))) by {
                assert forall|k: int| 0 <= k < j - (i + 1) implies digit(
                    #[trigger] s.subrange(i + 1, j)[k],
                ) by {
                    assert(s.subrange(i + 1, j)[k] == chars@[from + i + 1 + k]);
                }
            }
        }
        assert(s.skip(j) =~= chars@.subrange(end as int, to as int));
    }
    let some_digit: bool = if has_point {
        end - from > 1
    } else {
        whole_end > from
    };
    if !some_digit {
        return false;
    }
    end == to || is_exponent(chars, end, to)
}

/// Whether the characters of `chars` from `from` up to `to` are a literal that
/// writes a coordinate.
pub fn is_number_literal_at(chars: &Vec<char>, from: usize, to: usize) -> (r: bool)
    requires
        from <= to <= chars.len(),
    ensures
        r == number_literal(chars@.subrange(from as int, to as int)),
{
    let ghost s = chars@.subrange(from as int, to as int);
    let begin: usize = if from < to && is_sign(chars[from]) {
        from + 1
    } else {
        from
    };
    proof {
        if from < to {
            assert(s[0] == chars@[from as int]);
        }
        assert(chars@.subrange(begin as int, to as int) =~= if s.len() > 0 && sign(s[0]) {
            s.drop_first()
        } else {
            s
        });
    }
    is_special(chars, begin, to) || is_number(chars, begin, to)
}

/// Whether `text` is a literal that writes a coordinate.
pub fn is_number_literal(text: &str) -> (r: bool)
    ensures
        r == number_literal(text@),
{
    let chars = characters(text);
    assert(chars@.subrange(0, chars@.len() as int) =~= chars@);
    is_number_literal_at(&chars, 0, chars.len())
}

} // verus!
