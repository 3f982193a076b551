//! Text building blocks: characters, decimal numbers and field rendering.

use vstd::prelude::*;
use vstd::string::*;
use vstd::utf8::encode_utf8;
use crate::order::bytes_equal;

verus! {

/// `String::push`: appends one character.
pub assume_specification[ String::push ](text: &mut String, character: char)
    ensures
        final(text)@ == old(text)@.push(character),
;

/// The text that bytes stand for when every invalid UTF-8 sequence is replaced.
pub uninterp spec fn lossy_text(bytes: Seq<u8>) -> Seq<char>;

/// `String::from_utf8_lossy`: the text of `bytes`, with invalid sequences replaced. What stands
/// for an invalid sequence is left unsaid.
#[verifier::external_body]
pub(crate) fn lossy(bytes: &[u8]) -> (text: String)
    ensures
        text@ == lossy_text(bytes@),
        vstd::utf8::valid_utf8(bytes@) ==> text@ == vstd::utf8::decode_utf8(bytes@),
{
    String::from_utf8_lossy(bytes).into_owned()
}

/// `std::str::from_utf8`: succeeds exactly on valid UTF-8.
#[verifier::external_body]
pub(crate) fn is_utf8(bytes: &[u8]) -> (valid: bool)
    ensures
        valid == vstd::utf8::valid_utf8(bytes@),
{
    std::str::from_utf8(bytes).is_ok()
}

/// The characters of `text`, in order.
pub fn chars_of(text: &str) -> (chars: Vec<char>)
    ensures
        chars@ == text@,
{
    let mut chars: Vec<char> = Vec::new();
    for character in it: text.chars()
        invariant
            chars@ == it.seq().take(it.index()),
            it.seq() == text@,
    {
        proof {
            assert(it.seq().take(it.index() + 1) =~= it.seq().take(it.index()).push(
                it.seq()[it.index()],
            ));
        }
        chars.push(character);
    }
    assert(text@.take(text@.len() as int) =~= text@);
    chars
}

/// The text made of `chars`, in order.
pub fn text_of(chars: &[char]) -> (text: String)
    ensures
        text@ == chars@,
{
    let mut text = String::new();
    let mut at: usize = 0;
    while at < chars.len()
        invariant
            at <= chars.len(),
            text@ == chars@.take(at as int),
        decreases chars.len() - at,
    {
        proof {
            assert(chars@.take(at + 1) =~= chars@.take(at as int).push(chars@[at as int]));
        }
        text.push(chars[at]);
        at = at + 1;
    }
    assert(chars@.take(at as int) =~= chars@);
    text
}

/// Whether two texts are equal.
pub fn text_equal(left: &str, right: &str) -> (equal: bool)
    ensures
        equal == (left@ == right@),
{
    broadcast use vstd::utf8::encode_utf8_decode_utf8;

    let equal = bytes_equal(left.as_bytes(), right.as_bytes());
    proof {
        assert(vstd::utf8::decode_utf8(left.spec_bytes()) == left@);
        assert(vstd::utf8::decode_utf8(right.spec_bytes()) == right@);
    }
    equal
}

/// Texts of a list of strings.
pub open spec fn texts(strings: Seq<String>) -> Seq<Seq<char>> {
    strings.map_values(|string: String| string@)
}

/// A copy of a list of strings.
pub fn copy_texts(strings: &Vec<String>) -> (copy: Vec<String>)
    ensures
        copy@ == strings@,
{
    let mut copy: Vec<String> = Vec::new();
    let mut at: usize = 0;
    while at < strings.len()
        invariant
            at <= strings@.len(),
            copy@ == strings@.take(at as int),
        decreases strings.len() - at,
    {
        copy.push(strings[at].clone());
        assert(strings@.take(at + 1) =~= strings@.take(at as int).push(strings@[at as int]));
        at = at + 1;
    }
    assert(strings@.take(at as int) =~= strings@);
    copy
}

/// Whether `bytes` are the UTF-8 encoding of `text`.
pub fn is_text(bytes: &[u8], text: &str) -> (same: bool)
    ensures
        same == (bytes@ == encode_utf8(text@)),
{
    bytes_equal(bytes, text.as_bytes())
}

/// Whether `bytes` start with the UTF-8 encoding of `prefix`.
pub fn starts_with_text(bytes: &[u8], prefix: &str) -> (starts: bool)
    ensures
        starts == encode_utf8(prefix@).is_prefix_of(bytes@),
{
    let expected = prefix.as_bytes();
    if bytes.len() < expected.len() {
        return false;
    }
    let found = vstd::slice::slice_subrange(bytes, 0, expected.len());
    assert(found@ =~= bytes@.take(expected@.len() as int));
    bytes_equal(expected, found)
}

/// Whether `text` starts with `prefix`.
pub fn has_prefix(text: &str, prefix: &str) -> (starts: bool)
    ensures
        starts == prefix@.is_prefix_of(text@),
{
    let expected = chars_of(prefix);
    let found = chars_of(text);
    if found.len() < expected.len() {
        return false;
    }
    let mut at: usize = 0;
    while at < expected.len()
        invariant
            at <= expected@.len() <= found@.len(),
            expected@ == prefix@,
            found@ == text@,
            forall|i: int| 0 <= i < at ==> expected@[i] == found@[i],
        decreases expected.len() - at,
    {
        if expected[at] != found[at] {
            assert(found@.take(expected@.len() as int)[at as int] == found@[at as int]);
            return false;
        }
        at = at + 1;
    }
    assert(expected@ =~= found@.take(expected@.len() as int));
    true
}

/// Whether `text` holds `character`.
pub fn has_char(text: &str, character: char) -> (found: bool)
    ensures
        found == text@.contains(character),
{
    let chars = chars_of(text);
    let mut at: usize = 0;
    while at < chars.len()
        invariant
            at <= chars@.len(),
            chars@ == text@,
            forall|i: int| 0 <= i < at ==> text@[i] != character,
        decreases chars.len() - at,
    {
        if chars[at] == character {
            assert(text@[at as int] == character);
            return true;
        }
        at = at + 1;
    }
    false
}

/// The bytes of a text.
pub fn bytes_of(text: &str) -> (bytes: Vec<u8>)
    ensures
        bytes@ == encode_utf8(text@),
{
    vstd::slice::slice_to_vec(text.as_bytes())
}

/// The decimal digit for a value below ten.
pub open spec fn digit_char(value: int) -> char {
    (('0' as int) + value) as char
}

/// Decimal digits of `value`, without leading zeros.
pub open spec fn decimal(value: nat) -> Seq<char>
    decreases value,
{
    if value < 10 {
        seq![digit_char(value as int)]
    } else {
        decimal(value / 10).push(digit_char((value % 10) as int))
    }
}

/// Whether `character` is an ASCII decimal digit.
pub open spec fn is_digit(character: char) -> bool {
    '0' <= character <= '9'
}

/// Value of a string of decimal digits.
pub open spec fn digits_value(digits: Seq<char>) -> nat
    decreases digits.len(),
{
    if digits.len() == 0 {
        0
    } else {
        digits_value(digits.drop_last()) * 10 + ((digits.last() as int) - ('0' as int)) as nat
    }
}

/// Whether `text` is made of decimal digits only.
pub open spec fn all_digits(text: Seq<char>) -> bool {
    forall|i: int| 0 <= i < text.len() ==> is_digit(#[trigger] text[i])
}

/// `text` without an optional leading plus sign.
pub open spec fn unsigned_part(text: Seq<char>) -> Seq<char> {
    if text.len() > 0 && text[0] == '+' {
        text.drop_first()
    } else {
        text
    }
}

/// The number that `text` denotes in decimal: digits with an optional leading plus sign.
pub open spec fn decimal_value(text: Seq<char>) -> Option<nat> {
    let digits = unsigned_part(text);
    if digits.len() > 0 && all_digits(digits) {
        Some(digits_value(digits))
    } else {
        None
    }
}

fn digit_of(value: u8) -> (character: char)
    requires
        value < 10,
    ensures
        character == digit_char(value as int),
{
    (48 + value) as char
}

/// Decimal digits of `value`, without leading zeros.
pub fn decimal_text(value: u128) -> (text: String)
    ensures
        text@ == decimal(value as nat),
    decreases value,
{
    let digit = digit_of((value % 10) as u8);
    let mut text = if value < 10 {
        String::new()
    } else {
        decimal_text(value / 10)
    };
    text.push(digit);
    assert(value < 10 ==> text@ =~= decimal(value as nat));
    text
}

/// Parse a decimal number of at most `limit`: digits with an optional leading plus sign.
pub fn parse_decimal(text: &[char], limit: u128) -> (value: Option<u128>)
    ensures
        value == if decimal_value(text@) is Some && decimal_value(text@)->0 <= limit {
            Some(decimal_value(text@)->0 as u128)
        } else {
            None
        },
{
    let start: usize = if text.len() > 0 && text[0] == '+' {
        1
    } else {
        0
    };
    let ghost digits = text@.skip(start as int);
    assert(start == 1 ==> digits =~= text@.drop_first());
    assert(start == 0 ==> digits =~= text@);
    if start == text.len() {
        return None;
    }
    let mut value: u128 = 0;
    let mut within = true;
    let mut at: usize = start;
    while at < text.len()
        invariant
            start <= at <= text.len(),
            digits == text@.skip(start as int),
            digits == unsigned_part(text@),
            start < text.len(),
            forall|i: int| 0 <= i < at - start ==> is_digit(#[trigger] digits[i]),
            within ==> value == digits_value(digits.take(at - start)),
            !within ==> digits_value(digits.take(at - start)) > limit,
            within ==> value <= limit,
        decreases text.len() - at,
    {
        let character = text[at];
        proof {
            assert(digits[at - start] == character);
            assert(digits.take(at - start + 1).drop_last() =~= digits.take(at - start));
            assert(digits.take(at - start + 1).last() == character);
        }
        if character < '0' || character > '9' {
            assert(!is_digit(digits[at - start]));
            return None;
        }
        let digit = (character as u32 - '0' as u32) as u128;
        if within {
            match value.checked_mul(10) {
                Some(tens) => match tens.checked_add(digit) {
                    Some(sum) => {
                        value = sum;
                        within = sum <= limit;
                    },
                    None => {
                        within = false;
                    },
                },
                None => {
                    within = false;
                },
            }
        }
        at = at + 1;
    }
    assert(digits.take(at - start) =~= digits);
    if within {
        Some(value)
    } else {
        None
    }
}

/// Rendering a number and reading it back gives the number.
pub proof fn lemma_decimal_round_trip(value: nat)
    ensures
        decimal_value(decimal(value)) == Some(value),
{
    lemma_decimal_digits(value);
    assert(decimal(value)[0] != '+');
}

/// The decimal text of a number consists of digits and denotes the number.
pub proof fn lemma_decimal_digits(value: nat)
    ensures
        decimal(value).len() > 0,
        all_digits(decimal(value)),
        digits_value(decimal(value)) == value,
    decreases value,
{
    if value < 10 {
        assert(decimal(value).drop_last() =~= Seq::<char>::empty());
        assert(digits_value(Seq::<char>::empty()) == 0);
    } else {
        lemma_decimal_digits(value / 10);
        assert(decimal(value).drop_last() =~= decimal(value / 10));
    }
}

/// Two numbers with the same decimal text are equal.
pub proof fn lemma_decimal_injective(left: nat, right: nat)
    requires
        decimal(left) == decimal(right),
    ensures
        left == right,
{
    lemma_decimal_digits(left);
    lemma_decimal_digits(right);
}

/// As many zeros as a number lacks to four digits.
pub open spec fn padding(value: nat) -> Seq<char> {
    let length = decimal(value).len();
    if length < 4 {
        Seq::new((4 - length) as nat, |i: int| '0')
    } else {
        seq![]
    }
}

/// A number with four digits or more.
pub open spec fn padded(value: nat) -> Seq<char> {
    padding(value) + decimal(value)
}

/// A number with four digits or more.
pub fn padded_text(value: u128) -> (text: String)
    ensures
        text@ == padded(value as nat),
{
    let digits = decimal_text(value);
    let mut text = String::new();
    if value < 1000 {
        text.push('0');
    }
    if value < 100 {
        text.push('0');
    }
    if value < 10 {
        text.push('0');
    }
    proof {
        lemma_decimal_length(value as nat);
        assert(text@ =~= padding(value as nat));
    }
    text.append(digits.as_str());
    text
}

/// How many digits a number has, up to four.
pub proof fn lemma_decimal_length(value: nat)
    ensures
        value < 10 ==> decimal(value).len() == 1,
        10 <= value < 100 ==> decimal(value).len() == 2,
        100 <= value < 1000 ==> decimal(value).len() == 3,
        1000 <= value ==> decimal(value).len() >= 4,
    decreases value,
{
    if value >= 10 {
        lemma_decimal_length(value / 10);
        if value >= 10000 {
        } else if value >= 1000 {
            assert(decimal(value / 10).len() == 3);
        }
    }
}

proof fn lemma_padded_value(zeros: nat, digits: Seq<char>)
    ensures
        digits_value(Seq::new(zeros, |i: int| '0') + digits) == digits_value(digits),
    decreases zeros + digits.len(),
{
    let all = Seq::new(zeros, |i: int| '0') + digits;
    if digits.len() > 0 {
        lemma_padded_value(zeros, digits.drop_last());
        assert(all.drop_last() =~= Seq::new(zeros, |i: int| '0') + digits.drop_last());
        assert(all.last() == digits.last());
    } else if zeros > 0 {
        lemma_padded_value((zeros - 1) as nat, digits);
        assert(all.drop_last() =~= Seq::new((zeros - 1) as nat, |i: int| '0') + digits);
        assert(all.last() == '0');
    } else {
        assert(all =~= digits);
    }
}

/// The padded text of a number consists of digits and denotes the number.
pub proof fn lemma_padded_digits(value: nat)
    ensures
        all_digits(padded(value)),
        digits_value(padded(value)) == value,
        padded(value).len() >= 4,
        value <= 9999 ==> padded(value).len() == 4,
{
    lemma_decimal_digits(value);
    lemma_decimal_length(value);
    let zeros = padding(value).len();
    assert(padding(value) =~= Seq::new(zeros, |i: int| '0'));
    lemma_padded_value(zeros, decimal(value));
    if 1000 <= value <= 9999 {
        lemma_decimal_length(value / 10);
        assert(decimal(value).len() == 4);
    }
}

/// Two numbers with the same padded text are equal.
pub proof fn lemma_padded_injective(left: nat, right: nat)
    requires
        padded(left) == padded(right),
    ensures
        left == right,
{
    lemma_padded_digits(left);
    lemma_padded_digits(right);
}

/// The UTF-8 encoding of two texts in a row is that of the first, then that of the second.
pub proof fn lemma_encode_concat(left: Seq<char>, right: Seq<char>)
    ensures
        encode_utf8(left + right) == encode_utf8(left) + encode_utf8(right),
    decreases left.len(),
{
    if left.len() == 0 {
        assert(left + right =~= right);
        assert(encode_utf8(left) + encode_utf8(right) =~= encode_utf8(right));
    } else {
        lemma_encode_concat(left.drop_first(), right);
        assert((left + right).drop_first() =~= left.drop_first() + right);
        assert((left + right)[0] == left[0]);
        assert(encode_utf8(left + right) =~= encode_utf8(left) + encode_utf8(right));
    }
}

} // verus!
