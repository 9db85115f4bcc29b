//! Reading a set as it is written: values between commas, each a number or
//! a text, and their encoding as field elements.

use crate::encoder::{blake3_digest, hash_string_to_field, hash_to_field, truncated_digest};
use crate::field::{le_bytes, FieldElement};
use vstd::prelude::*;
use vstd::string::StrSliceExecFns;
use vstd::utf8::encode_utf8;

verus! {

/// A value of a set before it is encoded.
#[derive(Debug, Clone, PartialEq, Eq)]
pub enum SetValue {
    /// A value written as a number that fits in 64 bits.
    Integer(u64),
    /// Any other value, by its characters.
    Text(String),
}

/// What a value holds.
pub enum SetValueView {
    Integer(u64),
    Text(Seq<char>),
}

impl View for SetValue {
    type V = SetValueView;

    open spec fn view(&self) -> SetValueView {
        match self {
            SetValue::Integer(n) => SetValueView::Integer(*n),
            SetValue::Text(t) => SetValueView::Text(t@),
        }
    }
}

/// The characters that are trimmed from both ends of a value: the code
/// points with the Unicode property `White_Space`.
pub open spec fn white_space(c: char) -> bool {
    let u = c as u32;
    ||| 0x09 <= u <= 0x0d
    ||| u == 0x20
    ||| u == 0x85
    ||| u == 0xa0
    ||| u == 0x1680
    ||| 0x2000 <= u <= 0x200a
    ||| u == 0x2028
    ||| u == 0x2029
    ||| u == 0x202f
    ||| u == 0x205f
    ||| u == 0x3000
}

/// A decimal digit.
pub open spec fn is_digit(c: char) -> bool {
    0x30 <= c as u32 <= 0x39
}

/// The worth of a decimal digit, and zero for any other character.
pub open spec fn digit_value(c: char) -> nat {
    if is_digit(c) {
        (c as u32 - 0x30) as nat
    } else {
        0
    }
}

/// Every character is a decimal digit.
pub open spec fn all_digits(s: Seq<char>) -> bool {
    forall|i: int| 0 <= i < s.len() ==> is_digit(#[trigger] s[i])
}

/// The number that a sequence of digits spells.
pub open spec fn decimal_value(s: Seq<char>) -> nat
    decreases s.len(),
{
    if s.len() == 0 {
        0
    } else {
        decimal_value(s.drop_last()) * 10 + digit_value(s.last())
    }
}

/// The 64-bit number that a text spells: decimal digits, at least one,
/// after at most one `+`. None for any other text, and for a number that
/// does not fit.
pub open spec fn parse_integer(s: Seq<char>) -> Option<u64> {
    let digits = if s.len() > 0 && s[0] == '+' {
        s.drop_first()
    } else {
        s
    };
    if digits.len() > 0 && all_digits(digits) && decimal_value(digits) <= u64::MAX {
        Some(decimal_value(digits) as u64)
    } else {
        None
    }
}

/// The text without the white space at its start.
pub open spec fn trim_start(s: Seq<char>) -> Seq<char>
    decreases s.len(),
{
    if s.len() > 0 && white_space(s[0]) {
        trim_start(s.drop_first())
    } else {
        s
    }
}

/// The text without the white space at its end.
pub open spec fn trim_end(s: Seq<char>) -> Seq<char>
    decreases s.len(),
{
    if s.len() > 0 && white_space(s.last()) {
        trim_end(s.drop_last())
    } else {
        s
    }
}

/// The text without the white space at its two ends.
pub open spec fn trim(s: Seq<char>) -> Seq<char> {
    trim_end(trim_start(s))
}

/// The pieces between the commas of a text. A text without a comma is one
/// piece, and so is the empty text.
pub open spec fn split_commas(s: Seq<char>) -> Seq<Seq<char>>
    decreases s.len(),
{
    if s.len() == 0 {
        seq![Seq::<char>::empty()]
    } else if s.last() == ',' {
        split_commas(s.drop_last()).push(Seq::<char>::empty())
    } else {
        let pieces = split_commas(s.drop_last());
        pieces.drop_last().push(pieces.last().push(s.last()))
    }
}

/// A trimmed piece as a value: a number where it spells one, a text
/// otherwise.
pub open spec fn classify(token: Seq<char>) -> SetValueView {
    match parse_integer(token) {
        Some(n) => SetValueView::Integer(n),
        None => SetValueView::Text(token),
    }
}

/// The value of a piece, or nothing where the piece is empty once trimmed.
pub open spec fn token_values(piece: Seq<char>) -> Seq<SetValueView> {
    let token = trim(piece);
    if token.len() == 0 {
        Seq::<SetValueView>::empty()
    } else {
        seq![classify(token)]
    }
}

/// The values of a list of pieces, in order.
pub open spec fn values_of(pieces: Seq<Seq<char>>) -> Seq<SetValueView>
    decreases pieces.len(),
{
    if pieces.len() == 0 {
        Seq::<SetValueView>::empty()
    } else {
        values_of(pieces.drop_last()) + token_values(pieces.last())
    }
}

/// The values that a text lists.
pub open spec fn listed_values(input: Seq<char>) -> Seq<SetValueView> {
    values_of(split_commas(input))
}

/// The views of a list of values.
pub open spec fn views(values: Seq<SetValue>) -> Seq<SetValueView> {
    values.map_values(|v: SetValue| v@)
}

/// The representation of the field element that a value is encoded as.
pub open spec fn encoded(value: SetValueView) -> Seq<u8> {
    match value {
        SetValueView::Integer(n) => truncated_digest(blake3_digest(le_bytes(n as nat, 8))),
        SetValueView::Text(t) => truncated_digest(blake3_digest(encode_utf8(t))),
    }
}

/// A longer sequence of digits spells no smaller a number.
proof fn lemma_decimal_value_grows(s: Seq<char>, n: int)
    requires
        0 <= n <= s.len(),
    ensures
        decimal_value(s.take(n)) <= decimal_value(s),
    decreases s.len(),
{
    if n < s.len() {
        lemma_decimal_value_grows(s.drop_last(), n);
        assert(s.drop_last().take(n) =~= s.take(n));
    } else {
        assert(s.take(n) =~= s);
    }
}

/// The characters of a text, in order.
fn chars_of(s: &str) -> (chars: Vec<char>)
    ensures
        chars@ == s@,
{
    let mut chars: Vec<char> = Vec::new();
    for c in it: s.chars()
        invariant
            it.seq() == s@,
            chars@ == it.seq().take(it.index() as int),
    {
        chars.push(c);
    }
    chars
}

/// Whether a character is white space.
pub fn is_whitespace(c: char) -> (r: bool)
    ensures
        r == white_space(c),
{
    let u = c as u32;
    (0x09 <= u && u <= 0x0d) || u == 0x20 || u == 0x85 || u == 0xa0 || u == 0x1680 || (0x2000 <= u
        && u <= 0x200a) || u == 0x2028 || u == 0x2029 || u == 0x202f || u == 0x205f || u == 0x3000
}

/// The bounds of a piece without the white space at its two ends.
fn trim_bounds(chars: &Vec<char>, start: usize, end: usize) -> (bounds: (usize, usize))
    requires
        start <= end <= chars@.len(),
    ensures
        start <= bounds.0 <= bounds.1 <= end,
        chars@.subrange(bounds.0 as int, bounds.1 as int) == trim(
            chars@.subrange(start as int, end as int),
        ),
{
    let mut lo = start;
    while lo < end && is_whitespace(chars[lo])
        invariant
            start <= lo <= end <= chars@.len(),
            trim_start(chars@.subrange(lo as int, end as int)) == trim_start(
                chars@.subrange(start as int, end as int),
            ),
        decreases end - lo,
    {
        assert(chars@.subrange(lo as int, end as int).drop_first() =~= chars@.subrange(
            lo + 1,
            end as int,
        ));
        lo += 1;
    }
    let mut hi = end;
    while lo < hi && is_whitespace(chars[hi - 1])
        invariant
            lo <= hi <= end <= chars@.len(),
            trim_end(chars@.subrange(lo as int, hi as int)) == trim_end(
                chars@.subrange(lo as int, end as int),
            ),
        decreases hi - lo,
    {
        assert(chars@.subrange(lo as int, hi as int).drop_last() =~= chars@.subrange(
            lo as int,
            hi - 1,
        ));
        hi -= 1;
    }
    (lo, hi)
}

/// The number that the characters from `lo` to `hi` spell, if they spell
/// one.
fn parse_integer_in(chars: &Vec<char>, lo: usize, hi: usize) -> (r: Option<u64>)
    requires
        lo <= hi <= chars@.len(),
    ensures
        r == parse_integer(chars@.subrange(lo as int, hi as int)),
{
    let ghost token = chars@.subrange(lo as int, hi as int);
    let first = if lo < hi && chars[lo] == '+' {
        lo + 1
    } else {
        lo
    };
    let ghost digits = chars@.subrange(first as int, hi as int);
    proof {
        if first > lo {
            assert(token.drop_first() =~= digits);
        }
    }
    if first == hi {
        return None;
    }
    let mut value: u64 = 0;
    let mut i = first;
    while i < hi
        invariant
            first <= i <= hi <= chars@.len(),
            first < hi,
            token == chars@.subrange(lo as int, hi as int),
            digits == chars@.subrange(first as int, hi as int),
            parse_integer(token) == (if all_digits(digits) && decimal_value(digits) <= u64::MAX {
                Some(decimal_value(digits) as u64)
            } else {
                None
            }),
            all_digits(digits.take(i - first)),
            value == decimal_value(digits.take(i - first)),
        decreases hi - i,
    {
        let c = chars[i];
        let u = c as u32;
        let ghost longer = digits.take(i - first + 1);
        proof {
            assert(longer.drop_last() =~= digits.take(i - first));
            assert(longer.last() == c);
        }
        if u < 0x30 || u > 0x39 {
            return None;
        }
        let digit = (u - 0x30) as u64;
        if value > u64::MAX / 10 || value * 10 > u64::MAX - digit {
            proof {
                lemma_decimal_value_grows(digits, i - first + 1);
            }
            return None;
        }
        value = value * 10 + digit;
        i += 1;
    }
    assert(digits.take(hi - first) =~= digits);
    Some(value)
}

/// Adds the value of the piece from `start` to `end` to the list, unless
/// the piece is empty once trimmed.
fn push_token(
    input: &str,
    chars: &Vec<char>,
    start: usize,
    end: usize,
    values: &mut Vec<SetValue>,
)
    requires
        chars@ == input@,
        start <= end <= chars@.len(),
    ensures
        views(final(values)@) == views(old(values)@) + token_values(
            chars@.subrange(start as int, end as int),
        ),
{
    let (lo, hi) = trim_bounds(chars, start, end);
    if lo == hi {
        return ;
    }
    let value = match parse_integer_in(chars, lo, hi) {
        Some(number) => SetValue::Integer(number),
        None => SetValue::Text(input.substring_char(lo, hi).to_owned()),
    };
    values.push(value);
}

/// Reads the values that a text lists between commas. White space around a
/// value is dropped, and so is a value that is empty without it. A value
/// that spells a 64-bit number is a number, any other value is a text.
pub fn parse_values(input: &str) -> (values: Vec<SetValue>)
    ensures
        views(values@) == listed_values(input@),
{
    let chars = chars_of(input);
    let mut values: Vec<SetValue> = Vec::new();
    let mut start: usize = 0;
    let mut i: usize = 0;
    let ghost mut done: Seq<Seq<char>> = Seq::empty();
    proof {
        assert(chars@.take(0) =~= Seq::<char>::empty());
    }
    while i < chars.len()
        invariant
            chars@ == input@,
            start <= i <= chars@.len(),
            split_commas(chars@.take(i as int)) == done.push(
                chars@.subrange(start as int, i as int),
            ),
            views(values@) == values_of(done),
        decreases chars@.len() - i,
    {
        let ghost prefix = chars@.take(i + 1);
        let ghost piece = chars@.subrange(start as int, i as int);
        proof {
            assert(prefix.drop_last() =~= chars@.take(i as int));
            assert(done.push(piece).drop_last() =~= done);
        }
        if chars[i] == ',' {
            push_token(input, &chars, start, i, &mut values);
            proof {
                done = done.push(piece);
                assert(chars@.subrange(i + 1, i + 1) =~= Seq::<char>::empty());
            }
            start = i + 1;
        } else {
            proof {
                assert(piece.push(chars@[i as int]) =~= chars@.subrange(start as int, i + 1));
            }
        }
        i += 1;
    }
    push_token(input, &chars, start, i, &mut values);
    proof {
        let last = chars@.subrange(start as int, i as int);
        assert(chars@.take(i as int) =~= chars@);
        assert(done.push(last).drop_last() =~= done);
    }
    values
}

/// Encodes a value: a number by its eight bytes, a text by its UTF-8 bytes.
pub fn encode_value(value: &SetValue) -> (element: FieldElement)
    ensures
        element@ == encoded(value@),
{
    match value {
        SetValue::Integer(number) => hash_to_field(*number),
        SetValue::Text(text) => hash_string_to_field(text.as_str()),
    }
}

/// Reads a set: the values that the text lists, each encoded as a field
/// element.
pub fn parse_set(input: &str) -> (set: Vec<FieldElement>)
    ensures
        set@.len() == listed_values(input@).len(),
        forall|k: int| 0 <= k < set@.len() ==> (#[trigger] set@[k])@ == encoded(
            listed_values(input@)[k],
        ),
{
    let values = parse_values(input);
    let mut set: Vec<FieldElement> = Vec::new();
    let mut k: usize = 0;
    while k < values.len()
        invariant
            k <= values@.len(),
            views(values@) == listed_values(input@),
            set@.len() == k,
            forall|n: int| 0 <= n < k ==> (#[trigger] set@[n])@ == encoded(
                listed_values(input@)[n],
            ),
        decreases values@.len() - k,
    {
        set.push(encode_value(&values[k]));
        k += 1;
    }
    set
}

} // verus!
