//! Decimal numerals: how a number becomes the text of a cursor, and how that
//! text is read again.
use vstd::prelude::*;
use vstd::string::*;

verus! {

/// The digit of a number below ten.
pub open spec fn digit(n: nat) -> char {
    (('0' as u32) + n) as char
}

/// The decimal numeral of `n`, without leading zeros.
pub open spec fn decimal(n: nat) -> Seq<char>
    decreases n,
{
    if n < 10 {
        seq![digit(n)]
    } else {
        decimal(n / 10).push(digit(n % 10))
    }
}

/// Whether a character is a decimal digit.
pub open spec fn is_digit(c: char) -> bool {
    '0' <= c <= '9'
}

/// The number that a sequence of digits stands for.
pub open spec fn value(digits: Seq<char>) -> nat
    decreases digits.len(),
{
    if digits.len() == 0 {
        0
    } else {
        value(digits.drop_last()) * 10 + (digits.last() as nat - '0' as nat) as nat
    }
}

/// `text` without the plus sign that it may begin with.
pub open spec fn unsigned_part(text: Seq<char>) -> Seq<char> {
    if text.len() > 0 && text[0] == '+' {
        text.skip(1)
    } else {
        text
    }
}

/// The number that `text` stands for, if it is an optional plus sign and then
/// one or more digits, and the number is not above `max`.
pub open spec fn parsed(text: Seq<char>, max: nat) -> Option<nat> {
    let digits = unsigned_part(text);
    if digits.len() > 0 && (forall|i: int| 0 <= i < digits.len() ==> is_digit(#[trigger] digits[i]))
        && value(digits) <= max {
        Some(value(digits))
    } else {
        None
    }
}

/// Writes the digit of a number below ten.
fn digit_text(n: u8) -> (text: &'static str)
    requires
        n < 10,
    ensures
        text@ == seq![digit(n as nat)],
{
    proof {
        reveal_strlit("0");
        reveal_strlit("1");
        reveal_strlit("2");
        reveal_strlit("3");
        reveal_strlit("4");
        reveal_strlit("5");
        reveal_strlit("6");
        reveal_strlit("7");
        reveal_strlit("8");
        reveal_strlit("9");
    }
    match n {
        0 => "0",
        1 => "1",
        2 => "2",
        3 => "3",
        4 => "4",
        5 => "5",
        6 => "6",
        7 => "7",
        8 => "8",
        _ => "9",
    }
}

/// Writes `n` as a decimal numeral.
pub fn decimal_text(n: u128) -> (text: String)
    ensures
        text@ == decimal(n as nat),
    decreases n,
{
    if n < 10 {
        digit_text(n as u8).to_owned()
    } else {
        let mut text = decimal_text(n / 10);
        text.append(digit_text((n % 10) as u8));
        assert(text@ =~= decimal(n as nat));
        text
    }
}

/// No digit that follows makes a number smaller.
proof fn lemma_value_grows(digits: Seq<char>, count: int)
    requires
        0 <= count <= digits.len(),
        forall|i: int| 0 <= i < digits.len() ==> is_digit(#[trigger] digits[i]),
    ensures
        value(digits.take(count)) <= value(digits),
    decreases digits.len(),
{
    if count < digits.len() {
        lemma_value_grows(digits.drop_last(), count);
        assert(digits.drop_last().take(count) =~= digits.take(count));
    } else {
        assert(digits.take(count) =~= digits);
    }
}

/// Reads an unsigned number that is not above `max` from `text`.
pub fn parse_decimal(text: &str, max: u128) -> (number: Option<u128>)
    ensures
        match number {
            Some(number) => parsed(text@, max as nat) == Some(number as nat),
            None => parsed(text@, max as nat) is None,
        },
{
    let ghost digits = unsigned_part(text@);
    if !text.is_ascii() {
        proof {
            let i = choose|i: int|
                0 <= i < text@.len() && !('\0' <= #[trigger] text@[i] <= '\u{7F}');
            if text@[0] == '+' {
                assert(digits[i - 1] == text@[i]);
            }
        }
        return None;
    }
    let length: usize = text.unicode_len();
    let first: usize = if length > 0 && text.get_ascii(0) == 43 { 1 } else { 0 };
    assert(digits =~= text@.skip(first as int));
    if first == length {
        return None;
    }
    let mut number: u128 = 0;
    let mut next: usize = first;
    while next < length
        invariant
            text.is_ascii(),
            length == text@.len(),
            first <= next <= length,
            digits == text@.skip(first as int),
            digits == unsigned_part(text@),
            forall|i: int| 0 <= i < next - first ==> is_digit(#[trigger] digits[i]),
            number == value(digits.take(next - first)),
            number <= max,
        decreases length - next,
    {
        let byte: u8 = text.get_ascii(next);
        assert(text@[next as int] == digits[next - first]);
        if byte < 48 || byte > 57 {
            return None;
        }
        assert(digits.take(next + 1 - first).drop_last() =~= digits.take(next - first));
        let figure: u128 = (byte - 48) as u128;
        let ghost wider = value(digits.take(next + 1 - first));
        assert(wider == number * 10 + figure);
        if figure > max || number > (max - figure) / 10 {
            proof {
                assert(wider > max);
                if forall|i: int| 0 <= i < digits.len() ==> is_digit(#[trigger] digits[i]) {
                    lemma_value_grows(digits, next + 1 - first);
                }
            }
            return None;
        }
        number = number * 10 + figure;
        next += 1;
    }
    assert(digits.take(length - first) =~= digits);
    Some(number)
}

/// Reading back the numeral of a number gives the number.
pub proof fn numerals_read_back(n: nat, max: nat)
    requires
        n <= max,
    ensures
        parsed(decimal(n), max) == Some(n),
{
    lemma_decimal_digits(n);
}

/// A numeral is one or more digits, and stands for its number.
pub proof fn lemma_decimal_digits(n: nat)
    ensures
        decimal(n).len() > 0,
        forall|i: int| 0 <= i < decimal(n).len() ==> is_digit(#[trigger] decimal(n)[i]),
        value(decimal(n)) == n,
    decreases n,
{
    if n < 10 {
        assert(decimal(n).drop_last() =~= Seq::empty());
        assert(value(Seq::<char>::empty()) == 0);
    } else {
        lemma_decimal_digits(n / 10);
        assert(decimal(n).drop_last() =~= decimal(n / 10));
    }
}

} // verus!
