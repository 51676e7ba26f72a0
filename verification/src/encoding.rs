//! Text forms of binary values: lowercase hexadecimal for byte strings and
//! decimal for unsigned integers.

use vstd::prelude::*;
use vstd::string::StringExecFns;

verus! {

/// The lowercase hexadecimal digit for a value below 16.
pub open spec fn hex_digit(v: int) -> char {
    if v == 0 {
        '0'
    } else if v == 1 {
        '1'
    } else if v == 2 {
        '2'
    } else if v == 3 {
        '3'
    } else if v == 4 {
        '4'
    } else if v == 5 {
        '5'
    } else if v == 6 {
        '6'
    } else if v == 7 {
        '7'
    } else if v == 8 {
        '8'
    } else if v == 9 {
        '9'
    } else if v == 10 {
        'a'
    } else if v == 11 {
        'b'
    } else if v == 12 {
        'c'
    } else if v == 13 {
        'd'
    } else if v == 14 {
        'e'
    } else {
        'f'
    }
}

/// The value of a hexadecimal digit of either case, if `c` is one.
pub open spec fn hex_digit_value(c: char) -> Option<int> {
    if '0' <= c <= '9' {
        Some(c as int - '0' as int)
    } else if 'a' <= c <= 'f' {
        Some(c as int - 'a' as int + 10)
    } else if 'A' <= c <= 'F' {
        Some(c as int - 'A' as int + 10)
    } else {
        None
    }
}

/// The hexadecimal text of `bytes`: two lowercase digits per byte, the high
/// half first.
pub open spec fn hex_text(bytes: Seq<u8>) -> Seq<char> {
    Seq::new(
        2 * bytes.len(),
        |i: int|
            if i % 2 == 0 {
                hex_digit(bytes[i / 2] as int / 16)
            } else {
                hex_digit(bytes[i / 2] as int % 16)
            },
    )
}

/// Whether `text` is an even number of hexadecimal digits.
pub open spec fn is_hex_text(text: Seq<char>) -> bool {
    &&& text.len() % 2 == 0
    &&& forall|i: int| 0 <= i < text.len() ==> (#[trigger] hex_digit_value(text[i])) is Some
}

/// The bytes that the hexadecimal text `text` stands for.
pub open spec fn hex_bytes(text: Seq<char>) -> Seq<u8> {
    Seq::new(
        text.len() / 2,
        |i: int|
            (16 * hex_digit_value(text[2 * i]).unwrap() + hex_digit_value(
                text[2 * i + 1],
            ).unwrap()) as u8,
    )
}

/// Reading back the hexadecimal text of a byte string gives the byte string.
pub proof fn lemma_hex_round_trip(bytes: Seq<u8>)
    ensures
        is_hex_text(hex_text(bytes)),
        hex_bytes(hex_text(bytes)) == bytes,
{
    let text = hex_text(bytes);
    assert forall|i: int| 0 <= i < text.len() implies (#[trigger] hex_digit_value(text[i])) is Some by {
        lemma_hex_digit_value(bytes[i / 2] as int / 16);
        lemma_hex_digit_value(bytes[i / 2] as int % 16);
    }
    assert forall|i: int| 0 <= i < bytes.len() implies hex_bytes(text)[i] == bytes[i] by {
        lemma_hex_digit_value(bytes[i] as int / 16);
        lemma_hex_digit_value(bytes[i] as int % 16);
        assert(text[2 * i] == hex_digit(bytes[i] as int / 16));
        assert(text[2 * i + 1] == hex_digit(bytes[i] as int % 16));
    }
}

/// A lowercase digit reads back as its value.
pub proof fn lemma_hex_digit_value(v: int)
    requires
        0 <= v < 16,
    ensures
        hex_digit_value(hex_digit(v)) == Some(v),
{
}

/// `hex::FromHexError`, the error of `hex::decode`. Nothing is known of its
/// values.
#[verifier::external_type_specification]
#[verifier::external_body]
pub struct ExFromHexError(hex::FromHexError);

/// `hex::encode`: the result is the lowercase hexadecimal text of `bytes`,
/// two digits for each byte.
#[verifier::external_body]
pub(crate) fn hex_encode(bytes: &[u8]) -> (text: String)
    ensures
        text@ == hex_text(bytes@),
{
    hex::encode(bytes)
}

/// `hex::decode`: succeeds exactly on an even number of hexadecimal digits of
/// either case, and then gives the bytes they stand for.
#[verifier::external_body]
pub(crate) fn hex_decode(text: &str) -> (decoded: Result<Vec<u8>, hex::FromHexError>)
    ensures
        decoded is Ok <==> is_hex_text(text@),
        decoded matches Ok(bytes) ==> bytes@ == hex_bytes(text@),
{
    hex::decode(text)
}

/// The decimal digit for a value below 10.
pub open spec fn decimal_digit(v: int) -> char {
    if v == 0 {
        '0'
    } else if v == 1 {
        '1'
    } else if v == 2 {
        '2'
    } else if v == 3 {
        '3'
    } else if v == 4 {
        '4'
    } else if v == 5 {
        '5'
    } else if v == 6 {
        '6'
    } else if v == 7 {
        '7'
    } else if v == 8 {
        '8'
    } else {
        '9'
    }
}

/// The decimal text of `n`, without leading zeros.
pub open spec fn decimal_text(n: nat) -> Seq<char>
    decreases n,
{
    if n < 10 {
        seq![decimal_digit(n as int)]
    } else {
        decimal_text(n / 10).push(decimal_digit((n % 10) as int))
    }
}

fn digit_str(d: u128) -> (s: &'static str)
    requires
        d < 10,
    ensures
        s@ == seq![decimal_digit(d as int)],
{
    proof {
        reveal_strlit("0");
        reveal_strlit("1");
        reveal_strlit("2");
        reveal_strlit("3");
        reveal_strlit("4");
        reveal_strlit("5");
        reveal_strlit("6");
        reveal_strlit("7");
        reveal_strlit("8");
        reveal_strlit("9");
    }
    if d == 0 {
        "0"
    } else if d == 1 {
        "1"
    } else if d == 2 {
        "2"
    } else if d == 3 {
        "3"
    } else if d == 4 {
        "4"
    } else if d == 5 {
        "5"
    } else if d == 6 {
        "6"
    } else if d == 7 {
        "7"
    } else if d == 8 {
        "8"
    } else {
        "9"
    }
}

/// Writes `n` in decimal.
pub fn decimal_string(n: u128) -> (text: String)
    ensures
        text@ == decimal_text(n as nat),
    decreases n,
{
    if n < 10 {
        String::from_str(digit_str(n))
    } else {
        let mut text = decimal_string(n / 10);
        text.append(digit_str(n % 10));
        text
    }
}

/// The value of a decimal digit, if `c` is one.
pub open spec fn decimal_digit_value(c: char) -> Option<nat> {
    if '0' <= c <= '9' {
        Some((c as int - '0' as int) as nat)
    } else {
        None
    }
}

/// Whether `text` is at least one decimal digit and nothing else.
pub open spec fn is_decimal_digits(text: Seq<char>) -> bool {
    &&& text.len() > 0
    &&& forall|i: int| 0 <= i < text.len() ==> (#[trigger] decimal_digit_value(text[i])) is Some
}

/// The number that decimal digits write.
pub open spec fn decimal_value(text: Seq<char>) -> nat
    decreases text.len(),
{
    if text.len() == 0 {
        0
    } else {
        10 * decimal_value(text.drop_last()) + decimal_digit_value(text.last()).unwrap()
    }
}

/// `text` without a plus sign in front.
pub open spec fn unsigned_part(text: Seq<char>) -> Seq<char> {
    if text.len() > 0 && text[0] == '+' {
        text.drop_first()
    } else {
        text
    }
}

/// The number that `text` writes, if `text` is decimal digits, with or
/// without a plus sign in front, and the number is at most `max`.
pub open spec fn parsed_decimal(text: Seq<char>, max: nat) -> Option<nat> {
    let digits = unsigned_part(text);
    if is_decimal_digits(digits) && decimal_value(digits) <= max {
        Some(decimal_value(digits))
    } else {
        None
    }
}

/// The digits of a number never write less than those in front of them do.
pub proof fn lemma_decimal_value_grows(text: Seq<char>, len: int)
    requires
        0 <= len <= text.len(),
    ensures
        decimal_value(text.subrange(0, len)) <= decimal_value(text),
    decreases text.len(),
{
    if len < text.len() {
        lemma_decimal_value_grows(text.drop_last(), len);
        assert(text.drop_last().subrange(0, len) =~= text.subrange(0, len));
    } else {
        assert(text.subrange(0, len) =~= text);
    }
}

/// Reads a number in decimal: digits, with or without a plus sign in front.
/// Anything else, and a number above `max`, gives nothing.
pub fn parse_decimal(s: &str, max: u128) -> (parsed: Option<u128>)
    ensures
        match parsed {
            Some(n) => parsed_decimal(s@, max as nat) == Some(n as nat),
            None => parsed_decimal(s@, max as nat) is None,
        },
{
    broadcast use vstd::string::is_ascii_spec_bytes;

    let ghost digits = unsigned_part(s@);
    if !s.is_ascii() {
        proof {
            if is_decimal_digits(digits) {
                assert forall|i: int| 0 <= i < s@.len() implies '\0' <= #[trigger] s@[i]
                    <= '\u{7f}' by {
                    if s@[0] == '+' {
                        if i > 0 {
                            assert(decimal_digit_value(digits[i - 1]) is Some);
                        }
                    } else {
                        assert(decimal_digit_value(digits[i]) is Some);
                    }
                }
            }
        }
        return None;
    }
    let bytes = s.as_bytes();
    let mut i: usize = 0;
    if bytes.len() > 0 && bytes[0] == 43 {
        i = 1;
    }
    let start = i;
    assert(digits =~= s@.subrange(start as int, s@.len() as int));
    if i == bytes.len() {
        return None;
    }
    let mut value: u128 = 0;
    while i < bytes.len()
        invariant
            start <= i <= bytes@.len() == s@.len(),
            digits == unsigned_part(s@),
            digits == s@.subrange(start as int, s@.len() as int),
            forall|j: int| 0 <= j < s@.len() ==> bytes@[j] as int == #[trigger] s@[j] as int,
            forall|j: int| 0 <= j < i - start ==> (#[trigger] decimal_digit_value(digits[j])) is Some,
            value == decimal_value(digits.subrange(0, i - start)),
            value <= max,
        decreases bytes@.len() - i,
    {
        let byte = bytes[i];
        let ghost c = digits[i - start];
        assert(c == s@[i as int]);
        assert(byte as int == c as int);
        if byte < 48 || byte > 57 {
            assert(decimal_digit_value(c) is None);
            return None;
        }
        let digit = (byte - 48) as u128;
        assert(decimal_digit_value(c) == Some(digit as nat));
        proof {
            let longer = digits.subrange(0, i - start + 1);
            assert(longer.drop_last() =~= digits.subrange(0, i - start));
            assert(longer.last() == c);
            lemma_decimal_value_grows(digits, i - start + 1);
        }
        let next = match value.checked_mul(10) {
            Some(tens) => match tens.checked_add(digit) {
                Some(next) => next,
                None => {
                    return None;
                },
            },
            None => {
                return None;
            },
        };
        if next > max {
            return None;
        }
        value = next;
        i += 1;
    }
    assert(digits.subrange(0, i - start) =~= digits);
    Some(value)
}

} // verus!
