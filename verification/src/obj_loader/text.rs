//! The lexical layer: whitespace, tokens, fields and decimal indices.

use vstd::prelude::*;

verus! {

/// Whether `c` separates tokens: the code points with the Unicode property
/// `White_Space`.
pub open spec fn whitespace(c: char) -> bool {
    let n = c as u32;
    ||| 0x09 <= n <= 0x0D
    ||| n == 0x20
    ||| n == 0x85
    ||| n == 0xA0
    ||| n == 0x1680
    ||| 0x2000 <= n <= 0x200A
    ||| n == 0x2028
    ||| n == 0x2029
    ||| n == 0x202F
    ||| n == 0x205F
    ||| n == 0x3000
}

/// The tokens of a line: its longest runs of characters that are not
/// whitespace, from left to right.
///
/// The definition reads the line from its end. A whitespace character adds
/// nothing; any other character lengthens the last token when the character
/// before it belongs to a token too, and starts a token otherwise.
pub open spec fn tokens(s: Seq<char>) -> Seq<Seq<char>>
    decreases s.len(),
{
    if s.len() == 0 {
        Seq::empty()
    } else {
        let before = tokens(s.drop_last());
        let c = s.last();
        if whitespace(c) {
            before
        } else if s.len() >= 2 && !whitespace(s[s.len() - 2]) {
            before.drop_last().push(before.last().push(c))
        } else {
            before.push(seq![c])
        }
    }
}

/// The fields of `s` between occurrences of `sep`. There is always one field
/// more than there are separators, so an empty text has one empty field.
pub open spec fn fields(s: Seq<char>, sep: char) -> Seq<Seq<char>>
    decreases s.len(),
{
    if s.len() == 0 {
        seq![Seq::empty()]
    } else {
        let before = fields(s.drop_last(), sep);
        if s.last() == sep {
            before.push(Seq::empty())
        } else {
            before.drop_last().push(before.last().push(s.last()))
        }
    }
}

/// Whether `c` is one of the decimal digits `0` to `9`.
pub open spec fn digit(c: char) -> bool {
    0x30 <= c as u32 <= 0x39
}

/// Whether `s` holds decimal digits only.
pub open spec fn all_digits(s: Seq<char>) -> bool {
    forall|i: int| 0 <= i < s.len() ==> digit(#[trigger] s[i])
}

/// The number that a run of decimal digits writes.
pub open spec fn digits_value(s: Seq<char>) -> nat
    decreases s.len(),
{
    if s.len() == 0 {
        0
    } else {
        (digits_value(s.drop_last()) * 10 + (s.last() as u32 - 0x30)) as nat
    }
}

/// The 32-bit signed integer that `s` writes in decimal: an optional `+` or
/// `-`, then at least one digit and nothing else. `None` where `s` has another
/// shape or the number does not fit.
pub open spec fn index_value(s: Seq<char>) -> Option<i32> {
    let negative = s.len() > 0 && s[0] == '-';
    let signed = s.len() > 0 && (s[0] == '-' || s[0] == '+');
    let digits = if signed { s.drop_first() } else { s };
    let magnitude = digits_value(digits) as int;
    let value = if negative { -magnitude } else { magnitude };
    if digits.len() > 0 && all_digits(digits) && i32::MIN <= value <= i32::MAX {
        Some(value as i32)
    } else {
        None
    }
}

/// No token is empty and no token holds whitespace; a line that ends in a
/// character that is not whitespace has at least one token.
pub proof fn lemma_tokens_hold_no_whitespace(s: Seq<char>)
    ensures
        forall|k: int| 0 <= k < tokens(s).len() ==> (#[trigger] tokens(s)[k]).len() > 0,
        forall|k: int, j: int|
            0 <= k < tokens(s).len() && 0 <= j < tokens(s)[k].len() ==> !whitespace(
                #[trigger] tokens(s)[k][j],
            ),
        s.len() > 0 && !whitespace(s.last()) ==> tokens(s).len() > 0,
    decreases s.len(),
{
    if s.len() > 0 {
        let init = s.drop_last();
        lemma_tokens_hold_no_whitespace(init);
        let before = tokens(init);
        let c = s.last();
        if whitespace(c) {
        } else if s.len() >= 2 && !whitespace(s[s.len() - 2]) {
            assert(init.last() == s[s.len() - 2]);
            assert forall|k: int, j: int|
                0 <= k < tokens(s).len() && 0 <= j < tokens(s)[k].len() implies !whitespace(
                #[trigger] tokens(s)[k][j],
            ) by {
                if k < before.len() - 1 {
                    assert(tokens(s)[k] == before[k]);
                } else if j < before.last().len() {
                    assert(tokens(s)[k][j] == before[before.len() - 1][j]);
                }
            }
        } else {
            assert forall|k: int, j: int|
                0 <= k < tokens(s).len() && 0 <= j < tokens(s)[k].len() implies !whitespace(
                #[trigger] tokens(s)[k][j],
            ) by {
                if k < before.len() {
                    assert(tokens(s)[k] == before[k]);
                }
            }
        }
    }
}

/// A line of whitespace has no tokens.
pub proof fn lemma_tokens_of_whitespace(s: Seq<char>)
    requires
        forall|i: int| 0 <= i < s.len() ==> whitespace(s[i]),
    ensures
        tokens(s).len() == 0,
    decreases s.len(),
{
    if s.len() > 0 {
        lemma_tokens_of_whitespace(s.drop_last());
    }
}

/// A text without whitespace that is not empty is its own single token.
pub proof fn lemma_tokens_of_word(s: Seq<char>)
    requires
        s.len() > 0,
        forall|i: int| 0 <= i < s.len() ==> !whitespace(s[i]),
    ensures
        tokens(s) == seq![s],
    decreases s.len(),
{
    if s.len() == 1 {
        assert(tokens(s.drop_last()) =~= Seq::<Seq<char>>::empty());
        assert(seq![s.last()] =~= s);
        assert(tokens(s) =~= seq![s]);
    } else {
        let init = s.drop_last();
        lemma_tokens_of_word(init);
        assert(init.push(s.last()) =~= s);
        assert(tokens(s) =~= seq![s]);
    }
}

/// Whitespace parts a line: the tokens of a line with a whitespace character
/// in it are the tokens before that character, then the tokens after it.
pub proof fn lemma_tokens_split(a: Seq<char>, c: char, b: Seq<char>)
    requires
        whitespace(c),
    ensures
        tokens(a.push(c) + b) == tokens(a) + tokens(b),
    decreases b.len(),
{
    let s = a.push(c) + b;
    if b.len() == 0 {
        assert(s =~= a.push(c));
        assert(s.drop_last() =~= a);
        assert(tokens(a) + tokens(b) =~= tokens(a));
    } else {
        let init = b.drop_last();
        lemma_tokens_split(a, c, init);
        assert(s.drop_last() =~= a.push(c) + init);
        assert(s.last() == b.last());
        let before = tokens(init);
        if whitespace(b.last()) {
        } else if b.len() >= 2 && !whitespace(b[b.len() - 2]) {
            assert(s[s.len() - 2] == b[b.len() - 2]);
            assert(init.last() == b[b.len() - 2]);
            lemma_tokens_hold_no_whitespace(init);
            assert(tokens(s) =~= tokens(a) + tokens(b));
        } else {
            if b.len() >= 2 {
                assert(s[s.len() - 2] == b[b.len() - 2]);
            } else {
                assert(s[s.len() - 2] == c);
            }
            assert(tokens(s) =~= tokens(a) + tokens(b));
        }
    }
}

/// There is one field more than there are separators, and no field holds one.
pub proof fn lemma_fields_hold_no_separator(s: Seq<char>, sep: char)
    ensures
        fields(s, sep).len() == 1 + s.filter(|c: char| c == sep).len(),
        forall|k: int, j: int|
            0 <= k < fields(s, sep).len() && 0 <= j < fields(s, sep)[k].len()
                ==> #[trigger] fields(s, sep)[k][j] != sep,
    decreases s.len(),
{
    let is_sep = |c: char| c == sep;
    if s.len() == 0 {
        assert(s.filter(is_sep) =~= Seq::<char>::empty()) by {
            reveal(Seq::filter);
        }
    } else {
        let init = s.drop_last();
        lemma_fields_hold_no_separator(init, sep);
        let before = fields(init, sep);
        assert(s.filter(is_sep).len() == init.filter(is_sep).len() + if s.last() == sep {
            1int
        } else {
            0int
        }) by {
            reveal(Seq::filter);
        }
        if s.last() == sep {
            assert forall|k: int, j: int|
                0 <= k < fields(s, sep).len() && 0 <= j < fields(s, sep)[k].len() implies #[trigger] fields(
                s,
                sep,
            )[k][j] != sep by {
                if k < before.len() {
                    assert(fields(s, sep)[k] == before[k]);
                }
            }
        } else {
            assert forall|k: int, j: int|
                0 <= k < fields(s, sep).len() && 0 <= j < fields(s, sep)[k].len() implies #[trigger] fields(
                s,
                sep,
            )[k][j] != sep by {
                if k < before.len() - 1 {
                    assert(fields(s, sep)[k] == before[k]);
                } else if j < before.last().len() {
                    assert(fields(s, sep)[k][j] == before[before.len() - 1][j]);
                }
            }
        }
    }
}

/// A half-open range of character positions within a line.
#[derive(Clone, Copy, Debug, PartialEq, Eq, Structural)]
pub struct Span {
    pub start: usize,
    pub end: usize,
}

/// The texts that `spans` cut out of `s`.
pub open spec fn texts(s: Seq<char>, spans: Seq<Span>) -> Seq<Seq<char>> {
    Seq::new(spans.len(), |k: int| s.subrange(spans[k].start as int, spans[k].end as int))
}

/// Whether every span of `spans` is non-empty and ends at or before `limit`.
pub open spec fn spans_within(spans: Seq<Span>, limit: int) -> bool {
    forall|k: int| 0 <= k < spans.len() ==> (#[trigger] spans[k]).start < spans[k].end <= limit
}

/// Whether `c` separates tokens.
pub fn is_whitespace(c: char) -> (r: bool)
    ensures
        r == whitespace(c),
{
    let n: u32 = c as u32;
    (0x09 <= n && n <= 0x0D) || n == 0x20 || n == 0x85 || n == 0xA0 || n == 0x1680 || (0x2000 <= n
        && n <= 0x200A) || n == 0x2028 || n == 0x2029 || n == 0x202F || n == 0x205F || n
        == 0x3000
}

/// The characters of `s`, one by one.
pub fn characters(s: &str) -> (r: Vec<char>)
    ensures
        r@ == s@,
{
    let mut out: Vec<char> = Vec::new();
    for c in it: s.chars()
        invariant
            out@ == it.seq().take(it.index()),
            it.seq() == s@,
    {
        out.push(c);
    }
    out
}

/// Where the tokens of a line stand in it.
pub fn token_spans(chars: &Vec<char>) -> (r: Vec<Span>)
    ensures
        spans_within(r@, chars@.len() as int),
        texts(chars@, r@) == tokens(chars@),
{
    let n: usize = chars.len();
    let ghost s = chars@;
    let mut spans: Vec<Span> = Vec::new();
    let mut i: usize = 0;
    let mut start: usize = 0;
    let mut inside: bool = false;
    assert(s.take(0) =~= Seq::<char>::empty());
    assert(texts(s, spans@) =~= Seq::<Seq<char>>::empty());
    while i < n
        invariant
            n == chars.len(),
            s == chars@,
            i <= n,
            spans_within(spans@, if inside { start as int } else { i as int }),
            inside ==> start < i && forall|j: int| start <= j < i ==> !whitespace(s[j]),
            !inside && i > 0 ==> whitespace(s[i as int - 1]),
            tokens(s.take(i as int)) == if inside {
                texts(s, spans@).push(s.subrange(start as int, i as int))
            } else {
                texts(s, spans@)
            },
        decreases n - i,
    {
        let c: char = chars[i];
        let ghost prefix = s.take(i as int + 1);
        let ghost old_spans = spans@;
        assert(prefix.drop_last() =~= s.take(i as int));
        assert(prefix.last() == c);
        if is_whitespace(c) {
            if inside {
                spans.push(Span { start, end: i });
                inside = false;
                assert(texts(s, spans@) =~= texts(s, old_spans).push(
                    s.subrange(start as int, i as int),
                ));
            }
        } else {
            if inside {
                assert(prefix[prefix.len() - 2] == s[i as int - 1]);
                assert(s.subrange(start as int, i as int).push(c) =~= s.subrange(
                    start as int,
                    i as int + 1,
                ));
                assert(texts(s, old_spans).push(s.subrange(start as int, i as int)).drop_last()
                    =~= texts(s, old_spans));
            } else {
                if i > 0 {
                    assert(prefix[prefix.len() - 2] == s[i as int - 1]);
                }
                start = i;
                inside = true;
                assert(seq![c] =~= s.subrange(i as int, i as int + 1));
            }
        }
        i = i + 1;
    }
    assert(s.take(n as int) =~= s);
    if inside {
        let ghost old_spans = spans@;
        spans.push(Span { start, end: n });
        assert(texts(s, spans@) =~= texts(s, old_spans).push(s.subrange(start as int, n as int)));
    }
    spans
}

/// The digits read so far never write more than the whole run does.
pub proof fn lemma_digits_value_grows(s: Seq<char>, k: int)
    requires
        all_digits(s),
        0 <= k <= s.len(),
    ensures
        digits_value(s.take(k)) <= digits_value(s),
    decreases s.len() - k,
{
    if k < s.len() {
        lemma_digits_value_grows(s, k + 1);
        assert(s.take(k + 1).drop_last() =~= s.take(k));
        assert(digit(s[k]));
    } else {
        assert(s.take(k) =~= s);
    }
}

/// Reads the characters of `chars` from `from` up to `to` as a 32-bit signed
/// decimal integer.
#[verifier::loop_isolation(false)]
pub fn parse_index(chars: &Vec<char>, from: usize, to: usize) -> (r: Option<i32>)
    requires
        from <= to <= chars.len(),
    ensures
        r == index_value(chars@.subrange(from as int, to as int)),
{
    let ghost s = chars@.subrange(from as int, to as int);
    if from == to {
        return None;
    }
    let first: char = chars[from];
    assert(first == s[0]);
    let negative: bool = first == '-';
    let signed: bool = negative || first == '+';
    let begin: usize = if signed { from + 1 } else { from };
    let ghost digits = if signed { s.drop_first() } else { s };
    assert(digits =~= chars@.subrange(begin as int, to as int));
    if begin == to {
        return None;
    }
    let mut acc: i64 = 0;
    let mut i: usize = begin;
    assert(digits.take(0) =~= Seq::<char>::empty());
    while i < to
        invariant
            begin <= i <= to <= chars.len(),
            digits == chars@.subrange(begin as int, to as int),
            all_digits(digits.take(i - begin)),
            acc == digits_value(digits.take(i - begin)),
            0 <= acc <= 0x8000_0000,
        decreases to - i,
    {
        let c: char = chars[i];
        let n: u32 = c as u32;
        assert(c == digits[i - begin]);
        if n < 0x30 || n > 0x39 {
            return None;
        }
        let next: i64 = acc * 10 + (n - 0x30) as i64;
        proof {
            let longer = digits.take(i - begin + 1);
            assert(longer.drop_last() =~= digits.take(i - begin));
            assert(longer.last() == c);
            assert(forall|j: int| 0 <= j < longer.len() ==> digit(#[trigger] longer[j])) by {
                assert forall|j: int| 0 <= j < longer.len() implies digit(
                    #[trigger] longer[j],
                ) by {
                    if j < i - begin {
                        assert(longer[j] == digits.take(i - begin)[j]);
                    }
                }
            }
        }
        if next > 0x8000_0000 {
            proof {
                if all_digits(digits) {
                    lemma_digits_value_grows(digits, i - begin + 1);
                }
            }
            return None;
        }
        acc = next;
        i = i + 1;
    }
    assert(digits.take(to - begin) =~= digits);
    if negative {
        Some((-acc) as i32)
    } else if acc > 0x7FFF_FFFF {
        None
    } else {
        Some(acc as i32)
    }
}

} // verus!
