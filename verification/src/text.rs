//! How a pattern is written out for a reader.

use vstd::prelude::*;
use vstd::string::StringExecFns;

verus! {

/// The character of a digit below sixteen, in upper case.
pub open spec fn digit_char(value: int) -> char {
    if value < 10 {
        (0x30 + value) as char
    } else {
        (0x41 + value - 10) as char
    }
}

/// How a slot is written: its byte as two hexadecimal digits, or `?`, and
/// a space.
pub open spec fn slot_text(byte: u8, fixed: bool) -> Seq<char> {
    if fixed {
        seq![digit_char(byte as int / 16), digit_char(byte as int % 16), ' ']
    } else {
        seq!['?', ' ']
    }
}

/// How the first `count` slots of a signature are written.
pub open spec fn slots_text(signature: Seq<u8>, mask: Seq<bool>, count: nat) -> Seq<char>
    decreases count,
{
    if count == 0 {
        Seq::empty()
    } else {
        slots_text(signature, mask, (count - 1) as nat) + slot_text(
            signature[count - 1],
            mask[count - 1],
        )
    }
}

/// A number in decimal digits.
pub open spec fn decimal_text(number: nat) -> Seq<char>
    decreases number,
{
    if number < 10 {
        seq![digit_char(number as int)]
    } else {
        decimal_text(number / 10).push(digit_char((number % 10) as int))
    }
}

/// How a signature and a thread count are written: the slots between
/// square brackets, then the thread count.
pub open spec fn pattern_text(signature: Seq<u8>, mask: Seq<bool>, threads: nat) -> Seq<char> {
    seq!['[', ' '] + slots_text(signature, mask, signature.len()) + seq![']', ' ', '[', 't', '=']
        + decimal_text(threads) + seq![']']
}

/// The text of a digit below sixteen.
pub fn digit_str(value: u8) -> (text: &'static str)
    requires
        value < 16,
    ensures
        text@ == seq![digit_char(value as int)],
{
    proof {
        reveal_strlit("0");
        reveal_strlit("1");
        reveal_strlit("2");
        reveal_strlit("3");
        reveal_strlit("4");
        reveal_strlit("5");
        reveal_strlit("6");
        reveal_strlit("7");
        reveal_strlit("8");
        reveal_strlit("9");
        reveal_strlit("A");
        reveal_strlit("B");
        reveal_strlit("C");
        reveal_strlit("D");
        reveal_strlit("E");
        reveal_strlit("F");
    }
    match value {
        0 => "0",
        1 => "1",
        2 => "2",
        3 => "3",
        4 => "4",
        5 => "5",
        6 => "6",
        7 => "7",
        8 => "8",
        9 => "9",
        10 => "A",
        11 => "B",
        12 => "C",
        13 => "D",
        14 => "E",
        _ => "F",
    }
}

/// Appends a number in decimal digits to a text.
pub fn push_decimal(text: &mut String, number: usize)
    ensures
        final(text)@ == old(text)@ + decimal_text(number as nat),
    decreases number,
{
    if number >= 10 {
        push_decimal(text, number / 10);
    }
    text.append(digit_str((number % 10) as u8));
}

/// Appends a slot to a text.
pub fn push_slot_text(text: &mut String, byte: u8, fixed: bool)
    ensures
        final(text)@ == old(text)@ + slot_text(byte, fixed),
{
    if fixed {
        text.append(digit_str(byte / 16));
        text.append(digit_str(byte % 16));
        text.append(" ");
        proof {
            reveal_strlit(" ");
        }
    } else {
        text.append("? ");
        proof {
            reveal_strlit("? ");
        }
    }
}

} // verus!
