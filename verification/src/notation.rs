//! The three notations a signature can be written in, as functions from
//! text to slots.

use vstd::prelude::*;

verus! {

/// One position of a signature.
#[derive(Debug, Clone, Copy, PartialEq, Eq, Structural)]
pub enum Slot {
    /// Any byte is accepted here.
    Wildcard,
    /// Exactly this byte is accepted here.
    Fixed(u8),
}

impl Slot {
    /// The byte that stands for the slot in a signature: its own, or zero
    /// for a wildcard.
    pub open spec fn byte(self) -> u8 {
        match self {
            Slot::Wildcard => 0,
            Slot::Fixed(byte) => byte,
        }
    }

    /// The mask bit of the slot: `true` where it is fixed.
    pub open spec fn fixed(self) -> bool {
        self is Fixed
    }
}

/// The signature bytes of a sequence of slots.
pub open spec fn slot_bytes(slots: Seq<Slot>) -> Seq<u8> {
    Seq::new(slots.len(), |i: int| slots[i].byte())
}

/// The mask of a sequence of slots.
pub open spec fn slot_mask(slots: Seq<Slot>) -> Seq<bool> {
    Seq::new(slots.len(), |i: int| slots[i].fixed())
}

/// The mask that a code-style mask string stands for: every character but
/// `?` marks a fixed byte.
pub open spec fn code_mask(mask: Seq<char>) -> Seq<bool> {
    Seq::new(mask.len(), |i: int| mask[i] != '?')
}

/// The value of a hexadecimal digit, given by its code point.
pub open spec fn hex_value(code: int) -> Option<u8> {
    if 0x30 <= code <= 0x39 {
        Some((code - 0x30) as u8)
    } else if 0x41 <= code <= 0x46 {
        Some((code - 0x41 + 10) as u8)
    } else if 0x61 <= code <= 0x66 {
        Some((code - 0x61 + 10) as u8)
    } else {
        None
    }
}

/// The byte that one or two hexadecimal digits denote.
pub open spec fn hex_byte(codes: Seq<int>) -> Option<u8> {
    if codes.len() == 1 && hex_value(codes[0]) is Some {
        hex_value(codes[0])
    } else if codes.len() == 2 && hex_value(codes[0]) is Some && hex_value(codes[1]) is Some {
        Some((16 * hex_value(codes[0])->0 + hex_value(codes[1])->0) as u8)
    } else {
        None
    }
}

/// Whether `char::is_whitespace` holds of a character.
pub uninterp spec fn is_white_space(c: char) -> bool;

/// Whether a character is white space. Among the ASCII characters these
/// are the space and the five from U+0009 to U+000D; of the others
/// `char::is_whitespace` decides.
pub open spec fn white_space(c: char) -> bool {
    if (c as int) < 0x80 {
        c == ' ' || 0x09 <= (c as int) <= 0x0D
    } else {
        is_white_space(c)
    }
}

/// `char::is_whitespace`, of the standard library, tells whether a
/// character has the Unicode property `White_Space`. Its answer depends on
/// the character alone, and is given the name [`is_white_space`]. In the
/// ASCII range the property holds of the space, the tabs, the line feed,
/// the form feed and the carriage return, and of nothing else; nothing is
/// claimed of the characters beyond.
pub assume_specification[ char::is_whitespace ](c: char) -> (b: bool)
    ensures
        b == white_space(c),
        (c as int) >= 0x80 ==> b == is_white_space(c),
;

/// The tokens of `text` when `word` holds the characters of the token that
/// is being read: a token ends at a white-space character or at the end.
pub open spec fn words_from(text: Seq<char>, word: Seq<char>) -> Seq<Seq<char>>
    decreases text.len(),
{
    let ended = if word.len() == 0 {
        Seq::<Seq<char>>::empty()
    } else {
        seq![word]
    };
    if text.len() == 0 {
        ended
    } else if white_space(text[0]) {
        ended + words_from(text.drop_first(), Seq::empty())
    } else {
        words_from(text.drop_first(), word.push(text[0]))
    }
}

/// The tokens of `text`: its maximal runs of characters that are not white
/// space, in order.
pub open spec fn words(text: Seq<char>) -> Seq<Seq<char>> {
    words_from(text, Seq::empty())
}

/// The slot that a token of the IDA notation denotes: `?` and `??` are a
/// wildcard, one or two hexadecimal digits a fixed byte, anything else
/// nothing.
pub open spec fn ida_slot(token: Seq<char>) -> Option<Slot> {
    if token =~= seq!['?'] || token =~= seq!['?', '?'] {
        Some(Slot::Wildcard)
    } else {
        match hex_byte(Seq::new(token.len(), |i: int| token[i] as int)) {
            Some(byte) => Some(Slot::Fixed(byte)),
            None => None,
        }
    }
}

/// The slots of an IDA-style text in which every token denotes one.
pub open spec fn ida_slots(text: Seq<char>) -> Seq<Slot> {
    Seq::new(words(text).len(), |i: int| ida_slot(words(text)[i])->0)
}

/// The byte `?`.
pub const WILDCARD_BYTE: u8 = 0x3F;

/// The slot that a pair of bytes of the hex-string notation denotes: `??`
/// is a wildcard, two hexadecimal digits a fixed byte, anything else
/// nothing.
pub open spec fn pair_slot(high: u8, low: u8) -> Option<Slot> {
    if high == WILDCARD_BYTE && low == WILDCARD_BYTE {
        Some(Slot::Wildcard)
    } else {
        match hex_byte(seq![high as int, low as int]) {
            Some(byte) => Some(Slot::Fixed(byte)),
            None => None,
        }
    }
}

/// The pair at position `index` of a hex string.
pub open spec fn pair_at(bytes: Seq<u8>, index: int) -> Option<Slot> {
    pair_slot(bytes[2 * index], bytes[2 * index + 1])
}

/// The two bytes are text by themselves: two ASCII characters, or one
/// character of two bytes.
pub open spec fn pair_is_text(high: u8, low: u8) -> bool {
    ||| high < 0x80 && low < 0x80
    ||| 0xC2 <= high <= 0xDF && 0x80 <= low <= 0xBF
}

/// A pair that denotes no slot is no signature at all, rather than a
/// byte that fails to parse: half of it is a wildcard, or it is not text.
pub open spec fn pair_is_malformed(high: u8, low: u8) -> bool {
    ||| high == WILDCARD_BYTE
    ||| low == WILDCARD_BYTE
    ||| !pair_is_text(high, low)
}

/// The pair at `index` is the first of a hex string that denotes no slot.
pub open spec fn first_bad_pair(bytes: Seq<u8>, index: int) -> bool {
    &&& 0 <= index
    &&& 2 * index + 1 < bytes.len()
    &&& pair_at(bytes, index) is None
    &&& forall|j: int| 0 <= j < index ==> (#[trigger] pair_at(bytes, j)) is Some
}

/// The slots of a hex string in which every pair denotes one.
pub open spec fn hex_slots(bytes: Seq<u8>) -> Seq<Slot> {
    Seq::new(bytes.len() / 2, |i: int| pair_at(bytes, i)->0)
}

/// Computes the value of a hexadecimal digit from its code point.
pub fn hex_value_of(code: u32) -> (value: Option<u8>)
    ensures
        value == hex_value(code as int),
{
    if 0x30 <= code && code <= 0x39 {
        Some((code - 0x30) as u8)
    } else if 0x41 <= code && code <= 0x46 {
        Some((code - 0x41 + 10) as u8)
    } else if 0x61 <= code && code <= 0x66 {
        Some((code - 0x61 + 10) as u8)
    } else {
        None
    }
}

/// Computes the byte that two hexadecimal digits denote.
pub fn hex_pair_of(high: u32, low: u32) -> (value: Option<u8>)
    ensures
        value == hex_byte(seq![high as int, low as int]),
{
    match hex_value_of(high) {
        Some(sixteens) => match hex_value_of(low) {
            Some(ones) => Some(16 * sixteens + ones),
            None => None,
        },
        None => None,
    }
}

/// The code point of a character.
pub fn code_of(c: char) -> (code: u32)
    ensures
        code as int == c as int,
{
    c as u32
}

/// Computes the slot that a token of the IDA notation denotes.
pub fn ida_slot_of(token: &[char]) -> (slot: Option<Slot>)
    ensures
        slot == ida_slot(token@),
{
    if token.len() == 1 {
        if token[0] == '?' {
            Some(Slot::Wildcard)
        } else {
            match hex_value_of(code_of(token[0])) {
                Some(byte) => Some(Slot::Fixed(byte)),
                None => None,
            }
        }
    } else if token.len() == 2 {
        if token[0] == '?' && token[1] == '?' {
            Some(Slot::Wildcard)
        } else {
            match hex_pair_of(code_of(token[0]), code_of(token[1])) {
                Some(byte) => Some(Slot::Fixed(byte)),
                None => None,
            }
        }
    } else {
        None
    }
}

/// Computes the slot that a pair of bytes of the hex-string notation
/// denotes.
pub fn pair_slot_of(high: u8, low: u8) -> (slot: Option<Slot>)
    ensures
        slot == pair_slot(high, low),
{
    if high == WILDCARD_BYTE && low == WILDCARD_BYTE {
        Some(Slot::Wildcard)
    } else {
        match hex_pair_of(high as u32, low as u32) {
            Some(byte) => Some(Slot::Fixed(byte)),
            None => None,
        }
    }
}

/// The characters are a token: there is one at least, and none is white
/// space.
pub open spec fn is_word(token: Seq<char>) -> bool {
    &&& token.len() > 0
    &&& forall|i: int| 0 <= i < token.len() ==> !white_space(#[trigger] token[i])
}

/// Characters that are not white space are read into the token at hand.
pub proof fn lemma_words_read(token: Seq<char>, rest: Seq<char>, word: Seq<char>)
    requires
        forall|i: int| 0 <= i < token.len() ==> !white_space(#[trigger] token[i]),
    ensures
        words_from(token + rest, word) == words_from(rest, word + token),
    decreases token.len(),
{
    if token.len() == 0 {
        assert(token + rest =~= rest);
        assert(word + token =~= word);
    } else {
        let text = token + rest;
        assert(text[0] == token[0]);
        assert(text.drop_first() =~= token.drop_first() + rest);
        assert forall|i: int| 0 <= i < token.drop_first().len() implies !white_space(
            #[trigger] token.drop_first()[i],
        ) by {
            assert(token.drop_first()[i] == token[i + 1]);
        }
        lemma_words_read(token.drop_first(), rest, word.push(token[0]));
        assert(word.push(token[0]) + token.drop_first() =~= word + token);
    }
}

/// A text that begins with a token and a white-space character has that
/// token as its first, and then the tokens of what follows.
pub proof fn lemma_first_word(token: Seq<char>, separator: char, rest: Seq<char>)
    requires
        is_word(token),
        white_space(separator),
    ensures
        words(token + seq![separator] + rest) == seq![token] + words(rest),
{
    let tail = seq![separator] + rest;
    assert(token + seq![separator] + rest =~= token + tail);
    lemma_words_read(token, tail, Seq::empty());
    assert(Seq::<char>::empty() + token =~= token);
    assert(tail[0] == separator);
    assert(tail.drop_first() =~= rest);
}

/// White space at the start of a text adds no token.
pub proof fn lemma_leading_space(separator: char, rest: Seq<char>)
    requires
        white_space(separator),
    ensures
        words(seq![separator] + rest) == words(rest),
{
    let text = seq![separator] + rest;
    assert(text[0] == separator);
    assert(text.drop_first() =~= rest);
    assert(Seq::<Seq<char>>::empty() + words_from(rest, Seq::empty()) =~= words_from(
        rest,
        Seq::empty(),
    ));
}

/// A text that is one token has that token alone.
pub proof fn lemma_last_word(token: Seq<char>)
    requires
        is_word(token),
    ensures
        words(token) == seq![token],
{
    assert(token + Seq::<char>::empty() =~= token);
    lemma_words_read(token, Seq::empty(), Seq::empty());
    assert(Seq::<char>::empty() + token =~= token);
}

/// Reading one more character that is not white space extends the token
/// that is being read.
pub proof fn lemma_words_grow(text: Seq<char>, word: Seq<char>)
    requires
        text.len() > 0,
        !white_space(text[0]),
    ensures
        words_from(text, word) == words_from(text.drop_first(), word.push(text[0])),
{
}

/// Reading a white-space character ends the token that is being read, if
/// there is one.
pub proof fn lemma_words_break(text: Seq<char>, word: Seq<char>)
    requires
        text.len() > 0,
        white_space(text[0]),
    ensures
        word.len() == 0 ==> words_from(text, word) == words_from(text.drop_first(), Seq::empty()),
        word.len() > 0 ==> words_from(text, word) == seq![word] + words_from(
            text.drop_first(),
            Seq::empty(),
        ),
{
}

} // verus!

