//! Bytes written in hexadecimal digits.
use vstd::prelude::*;
use vstd::string::*;

verus! {

/// The hexadecimal digit of a number below sixteen.
pub open spec fn hex_digit(n: nat) -> char {
    if n < 10 {
        (('0' as u32) + n) as char
    } else {
        (('A' as u32) + (n - 10)) as char
    }
}

/// The two digits of a byte.
pub open spec fn hex_byte(byte: u8) -> Seq<char> {
    seq![hex_digit((byte / 16) as nat), hex_digit((byte % 16) as nat)]
}

/// The digits of bytes, with a comma and a space between two bytes.
pub open spec fn hex_items(bytes: Seq<u8>) -> Seq<char>
    decreases bytes.len(),
{
    if bytes.len() == 0 {
        Seq::empty()
    } else if bytes.len() == 1 {
        hex_byte(bytes[0])
    } else {
        hex_items(bytes.drop_last()) + ", "@ + hex_byte(bytes.last())
    }
}

/// The digits of bytes as a list in square brackets.
pub open spec fn hex_list(bytes: Seq<u8>) -> Seq<char> {
    "["@ + hex_items(bytes) + "]"@
}

/// Writes the hexadecimal digit of a number below sixteen.
fn digit_text(n: u8) -> (text: &'static str)
    requires
        n < 16,
    ensures
        text@ == seq![hex_digit(n as nat)],
{
    proof {
        reveal_strlit("0");
        reveal_strlit("1");
        reveal_strlit("2");
        reveal_strlit("3");
        reveal_strlit("4");
        reveal_strlit("5");
        reveal_strlit("6");
        reveal_strlit("7");
        reveal_strlit("8");
        reveal_strlit("9");
        reveal_strlit("A");
        reveal_strlit("B");
        reveal_strlit("C");
        reveal_strlit("D");
        reveal_strlit("E");
        reveal_strlit("F");
    }
    match n {
        0 => "0",
        1 => "1",
        2 => "2",
        3 => "3",
        4 => "4",
        5 => "5",
        6 => "6",
        7 => "7",
        8 => "8",
        9 => "9",
        10 => "A",
        11 => "B",
        12 => "C",
        13 => "D",
        14 => "E",
        _ => "F",
    }
}

/// Writes bytes as a list in square brackets.
pub fn hex_text(bytes: &Vec<u8>) -> (text: String)
    ensures
        text@ == hex_list(bytes@),
{
    let mut text = "[".to_owned();
    let mut next: usize = 0;
    assert(bytes@.take(0) =~= Seq::empty());
    assert("["@ + Seq::<char>::empty() =~= "["@);
    while next < bytes.len()
        invariant
            next <= bytes@.len(),
            text@ == "["@ + hex_items(bytes@.take(next as int)),
        decreases bytes.len() - next,
    {
        let ghost before = bytes@.take(next as int);
        if next > 0 {
            text.append(", ");
        }
        let byte: u8 = bytes[next];
        text.append(digit_text(byte / 16));
        text.append(digit_text(byte % 16));
        next += 1;
        proof {
            let after = bytes@.take(next as int);
            assert(after.drop_last() =~= before);
            assert(after.last() == byte);
            if before.len() == 0 {
                assert(text@ =~= "["@ + hex_byte(byte));
            } else {
                assert(text@ =~= "["@ + (hex_items(before) + ", "@ + hex_byte(byte)));
            }
        }
    }
    assert(bytes@.take(next as int) =~= bytes@);
    text.append("]");
    text
}

} // verus!
