//! How numbers, truth values and bytes are spelt.
use vstd::prelude::*;
use vstd::utf8::*;

use crate::decimal;
use crate::hex;
use crate::text;

verus! {

/// A number below ten is written as its digit, and any other as the number of
/// its tens, followed by the digit of its ones.
pub proof fn numeral_is_tens_and_ones(n: nat)
    ensures
        n < 10 ==> decimal::decimal(n) == seq!["0123456789"@[n as int]],
        n >= 10 ==> decimal::decimal(n) == decimal::decimal(n / 10) + decimal::decimal(n % 10),
{
    reveal_strlit("0123456789");
    if n >= 10 {
        assert(decimal::decimal(n) =~= decimal::decimal(n / 10) + decimal::decimal(n % 10));
    }
}

/// That many zeros.
pub open spec fn zeros(count: nat) -> Seq<char> {
    Seq::new(count, |i: int| '0')
}

/// Zeros in front do not change what digits stand for.
proof fn lemma_zeros_in_front(count: nat, digits: Seq<char>)
    ensures
        decimal::value(zeros(count) + digits) == decimal::value(digits),
    decreases count + digits.len(),
{
    let all = zeros(count) + digits;
    if digits.len() > 0 {
        assert(all.drop_last() =~= zeros(count) + digits.drop_last());
        lemma_zeros_in_front(count, digits.drop_last());
    } else if count > 0 {
        let fewer = (count - 1) as nat;
        assert(all.drop_last() =~= zeros(fewer) + digits);
        lemma_zeros_in_front(fewer, digits);
    } else {
        assert(all =~= digits);
    }
}

/// Digits are zeros and then the numeral of the number that they stand for.
proof fn lemma_spelt_out(digits: Seq<char>) -> (count: nat)
    requires
        digits.len() > 0,
        forall|i: int| 0 <= i < digits.len() ==> decimal::is_digit(#[trigger] digits[i]),
    ensures
        digits == zeros(count) + decimal::decimal(decimal::value(digits)),
    decreases digits.len(),
{
    let rest = digits.drop_last();
    let last = (digits.last() as nat - '0' as nat) as nat;
    let n = decimal::value(digits);
    assert(decimal::is_digit(digits[digits.len() - 1]));
    assert(decimal::digit(last) == digits.last());
    if rest.len() == 0 {
        assert(rest =~= Seq::empty());
        assert(decimal::value(rest) == 0);
        assert(n == last);
        assert(digits =~= zeros(0) + decimal::decimal(n));
        0
    } else {
        assert forall|i: int| 0 <= i < rest.len() implies decimal::is_digit(#[trigger] rest[i]) by {
            assert(rest[i] == digits[i]);
        }
        let tens = decimal::value(rest);
        let count = lemma_spelt_out(rest);
        assert(n == tens * 10 + last);
        if tens == 0 {
            assert(decimal::digit(0) == '0');
            assert(rest =~= zeros(count + 1));
            assert(digits =~= zeros(count + 1) + decimal::decimal(n));
            count + 1
        } else {
            assert(n / 10 == tens && n % 10 == last);
            assert(decimal::decimal(n) == decimal::decimal(tens).push(digits.last()));
            assert(digits =~= rest.push(digits.last()));
            assert(digits =~= zeros(count) + decimal::decimal(n));
            count
        }
    }
}

/// A text is read as a number exactly if it is the numeral of the number,
/// after zeros and a plus sign that may stand in front, and the number is not
/// above the highest that is allowed.
pub proof fn numeral_is_read_as_its_number(text: Seq<char>, max: nat, n: nat)
    ensures
        (decimal::parsed(text, max) == Some(n)) == (n <= max && exists|count: nat|
            text == #[trigger] zeros(count) + decimal::decimal(n) || text == seq!['+'] + zeros(
                count,
            ) + decimal::decimal(n)),
{
    let digits = decimal::unsigned_part(text);
    if decimal::parsed(text, max) == Some(n) {
        let count = lemma_spelt_out(digits);
        if text.len() > 0 && text[0] == '+' {
            assert(text =~= seq!['+'] + digits);
            assert(seq!['+'] + zeros(count) + decimal::decimal(n) =~= seq!['+'] + (zeros(count)
                + decimal::decimal(n)));
        } else {
            assert(text =~= zeros(count) + decimal::decimal(n));
        }
    }
    if n <= max && exists|count: nat|
        text == #[trigger] zeros(count) + decimal::decimal(n) || text == seq!['+'] + zeros(count)
            + decimal::decimal(n) {
        let count = choose|count: nat|
            text == #[trigger] zeros(count) + decimal::decimal(n) || text == seq!['+'] + zeros(
                count,
            ) + decimal::decimal(n);
        let spelt = zeros(count) + decimal::decimal(n);
        decimal::lemma_decimal_digits(n);
        lemma_zeros_in_front(count, decimal::decimal(n));
        assert(decimal::is_digit(spelt[0])) by {
            if count == 0 {
                assert(spelt[0] == decimal::decimal(n)[0]);
            }
        }
        assert(digits =~= spelt);
        assert forall|i: int| 0 <= i < digits.len() implies decimal::is_digit(
            #[trigger] digits[i],
        ) by {
            if i >= count {
                assert(digits[i] == decimal::decimal(n)[i - count]);
            }
        }
    }
}

/// A text of ASCII characters stands for `false` exactly if it is a zero or
/// the word `false`, whose letters may be small or capital. Any other text does
/// exactly if its lowercase equivalent is that word.
pub proof fn false_is_a_zero_or_its_word(word: Seq<char>)
    ensures
        is_ascii_chars(word) ==> text::stands_for_false(word) == (word == seq!['0'] || (word.len()
            == 5 && (word[0] == 'f' || word[0] == 'F') && (word[1] == 'a' || word[1] == 'A') && (
        word[2] == 'l' || word[2] == 'L') && (word[3] == 's' || word[3] == 'S') && (word[4] == 'e'
            || word[4] == 'E'))),
        !is_ascii_chars(word) ==> text::stands_for_false(word) == (text::lowercase(word)
            == "false"@),
{
    reveal_strlit("false");
    reveal_strlit("0");
    assert("0"@ =~= seq!['0']);
    if is_ascii_chars(word) {
        let lower = text::lowered(word);
        assert(lower.len() == word.len());
        if word.len() == 5 {
            assert(lower[0] == text::ascii_lowercase(word[0]));
            assert(lower[1] == text::ascii_lowercase(word[1]));
            assert(lower[2] == text::ascii_lowercase(word[2]));
            assert(lower[3] == text::ascii_lowercase(word[3]));
            assert(lower[4] == text::ascii_lowercase(word[4]));
            if lower[0] == 'f' && lower[1] == 'a' && lower[2] == 'l' && lower[3] == 's' && lower[4]
                == 'e' {
                assert(lower =~= "false"@);
            } else if lower == "false"@ {
                assert("false"@[0] == 'f' && "false"@[1] == 'a' && "false"@[2] == 'l'
                    && "false"@[3] == 's' && "false"@[4] == 'e');
            }
        }
    } else {
        assert(is_ascii_chars(seq!['0']));
    }
}

/// The two digits of a byte.
pub open spec fn digits_of(byte: u8) -> Seq<char> {
    seq!["0123456789ABCDEF"@[byte as int / 16], "0123456789ABCDEF"@[byte as int % 16]]
}

/// Bytes are written as a list in square brackets, two digits each, and one
/// more byte adds a comma, a space and its digits before the closing bracket.
pub proof fn bytes_are_listed_in_digits(bytes: Seq<u8>, byte: u8)
    ensures
        hex::hex_list(Seq::empty()) == seq!['[', ']'],
        hex::hex_list(seq![byte]) == seq!['['] + digits_of(byte) + seq![']'],
        bytes.len() > 0 ==> hex::hex_list(bytes.push(byte)) == hex::hex_list(bytes).drop_last()
            + seq![',', ' '] + digits_of(byte) + seq![']'],
{
    reveal_strlit("[");
    reveal_strlit("]");
    reveal_strlit(", ");
    reveal_strlit("0123456789ABCDEF");
    assert("["@ =~= seq!['[']);
    assert("]"@ =~= seq![']']);
    assert(", "@ =~= seq![',', ' ']);
    assert(hex::hex_byte(byte) =~= digits_of(byte));
    assert(hex::hex_list(Seq::empty()) =~= seq!['[', ']']);
    if bytes.len() > 0 {
        assert(bytes.push(byte).drop_last() =~= bytes);
        assert(hex::hex_list(bytes).drop_last() =~= seq!['['] + hex::hex_items(bytes));
        assert(hex::hex_list(bytes.push(byte)) =~= hex::hex_list(bytes).drop_last() + seq![',', ' ']
            + digits_of(byte) + seq![']']);
    }
}

} // verus!
