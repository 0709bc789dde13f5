//! Text building shared by the error messages.

use vstd::arithmetic::div_mod::*;
use vstd::arithmetic::power::*;
use vstd::prelude::*;
use vstd::string::*;

verus! {

/// The lower-case hexadecimal digit of `d`.
pub open spec fn hex_digit(d: int) -> Seq<char> {
    "0123456789abcdef"@.subrange(d, d + 1)
}

/// `0x` and the two lower-case hexadecimal digits of `byte`.
pub open spec fn hex_byte(byte: u8) -> Seq<char> {
    "0x"@ + hex_digit(byte as int / 16) + hex_digit(byte as int % 16)
}

/// Appends `0x` and the two lower-case hexadecimal digits of `byte`.
pub fn append_hex_byte(text: &mut String, byte: u8)
    ensures
        final(text)@ == old(text)@ + hex_byte(byte),
{
    let digits = "0123456789abcdef";
    proof {
        reveal_strlit("0123456789abcdef");
    }
    let high: usize = (byte / 16) as usize;
    let low: usize = (byte % 16) as usize;
    text.append("0x");
    text.append(digits.substring_char(high, high + 1));
    text.append(digits.substring_char(low, low + 1));
    assert(text@ =~= old(text)@ + hex_byte(byte));
}

/// `number` in decimal digits.
pub open spec fn decimal_text(number: nat) -> Seq<char>
    decreases number,
{
    if number < 10 {
        "0123456789"@.subrange(number as int, number as int + 1)
    } else {
        decimal_text(number / 10) + "0123456789"@.subrange(
            number as int % 10,
            number as int % 10 + 1,
        )
    }
}

/// Appends `number` in decimal digits.
pub fn append_decimal(text: &mut String, number: u16)
    ensures
        final(text)@ == old(text)@ + decimal_text(number as nat),
    decreases number,
{
    let digits = "0123456789";
    proof {
        reveal_strlit("0123456789");
    }
    if number >= 10 {
        append_decimal(text, number / 10);
    }
    let last: usize = (number % 10) as usize;
    text.append(digits.substring_char(last, last + 1));
    assert(text@ =~= old(text)@ + decimal_text(number as nat));
}

/// `before`, `middle` and `after`, one behind the other.
pub fn join(before: &str, middle: &str, after: &str) -> (text: String)
    ensures
        text@ == before@ + middle@ + after@,
{
    let mut text = before.to_owned();
    text.append(middle);
    text.append(after);
    text
}

/// `c` is the lower-case hexadecimal digit of `d`.
pub open spec fn is_hex_digit_of(c: char, d: int) -> bool {
    if d < 10 {
        c as int == 0x30 + d
    } else {
        c as int == 0x61 + d - 10
    }
}

/// A byte is written as `0x`, its high four bits and its low four bits.
pub proof fn law_hex_byte_is_two_digits(byte: u8)
    ensures
        hex_byte(byte).len() == 4,
        hex_byte(byte)[0] == '0',
        hex_byte(byte)[1] == 'x',
        is_hex_digit_of(hex_byte(byte)[2], byte as int / 16),
        is_hex_digit_of(hex_byte(byte)[3], byte as int % 16),
{
    reveal_strlit("0x");
    reveal_strlit("0123456789abcdef");
}

/// A number is written in base 10, most significant digit first: `place` digits
/// from the end stands `number / 10^place` modulo 10. There are as many digits as
/// the number needs.
pub proof fn law_decimal_text_is_base_10(number: nat, place: nat)
    ensures
        ({
            let written = decimal_text(number);
            &&& 0 < written.len()
            &&& number < pow(10, written.len())
            &&& written.len() > 1 ==> number >= pow(10, (written.len() - 1) as nat)
            &&& place < written.len() ==> written[written.len() - 1 - place] as int == 0x30 + number
                as int / pow(10, place) % 10
        }),
    decreases number,
{
    reveal_strlit("0123456789");
    reveal(pow);
    lemma_pow0(10);
    lemma_pow1(10);
    let written = decimal_text(number);
    if number >= 10 {
        let high = number / 10;
        let higher = decimal_text(high);
        law_decimal_text_is_base_10(high, 0);
        let width = higher.len();
        assert(written.len() == width + 1);
        assert(pow(10, width + 1) == 10 * pow(10, width));
        assert(width > 1 ==> pow(10, width) == 10 * pow(10, (width - 1) as nat));
        if 0 < place && place < written.len() {
            let below = (place - 1) as nat;
            law_decimal_text_is_base_10(high, below);
            assert(written[written.len() - 1 - place] == higher[width - 1 - below]);
            lemma_pow_positive(10, below);
            assert(pow(10, place) == 10 * pow(10, below));
            lemma_div_denominator(number as int, 10, pow(10, below));
        }
    }
}

} // verus!
