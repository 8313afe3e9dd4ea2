//! Building a pattern: a signature in one of three notations, and the
//! number of threads to scan with.

use vstd::prelude::*;
use vstd::slice::slice_to_vec;
use vstd::string::StringSliceAdditionalSpecFns;
use crate::notation::{
    code_mask, first_bad_pair, hex_slots, ida_slot, ida_slot_of, ida_slots, lemma_words_break,
    lemma_words_grow, pair_at, pair_is_malformed, pair_slot_of, slot_bytes, slot_mask, words,
    words_from, Slot, WILDCARD_BYTE,
};
use crate::pattern::{Pattern, PatternView};

verus! {

/// Why a pattern could not be built.
#[derive(Debug, Clone, PartialEq, Eq)]
pub enum BuilderError {
    /// A byte of the signature is not written in hexadecimal digits.
    ParseError,
    /// The signature and its mask differ in length.
    SizeMismatch,
    /// The signature is empty or malformed; the text says how.
    InvalidSignature(String),
    /// The thread count is zero or exceeds the number of logical cores.
    InvalidThreadCount,
}

impl BuilderError {
    /// A description of the error for a reader.
    pub fn message(&self) -> (text: String)
        ensures
            self matches BuilderError::InvalidSignature(reason) ==> text@ == reason@,
            self is ParseError ==> text@ == "the signature holds a byte that is not hexadecimal"@,
            self is SizeMismatch ==> text@ == "the size of signature and mask do not match"@,
            self is InvalidThreadCount ==> text@
                == "the thread count must be greater than zero and less than or equal to the number of logical cores"@,
    {
        match self {
            BuilderError::ParseError => {
                "the signature holds a byte that is not hexadecimal".to_string()
            },
            BuilderError::SizeMismatch => "the size of signature and mask do not match".to_string(),
            BuilderError::InvalidSignature(reason) => reason.clone(),
            BuilderError::InvalidThreadCount => {
                "the thread count must be greater than zero and less than or equal to the number of logical cores".to_string()
            },
        }
    }
}

/// What a [`PatternBuilder`] is, mathematically.
pub struct BuilderView {
    /// The bytes of the signature, with any byte in a wildcard slot.
    pub signature: Seq<u8>,
    /// Which slots are fixed (`true`) or wildcards.
    pub mask: Seq<bool>,
    /// The number of threads chosen.
    pub threads: nat,
}

impl BuilderView {
    /// The builder that a sequence of slots gives: one thread.
    pub open spec fn of_slots(slots: Seq<Slot>) -> BuilderView {
        BuilderView { signature: slot_bytes(slots), mask: slot_mask(slots), threads: 1 }
    }

    /// The same signature with another thread count.
    pub open spec fn with_threads(self, threads: nat) -> BuilderView {
        BuilderView { signature: self.signature, mask: self.mask, threads }
    }
}

/// A signature of at least one slot, together with a thread count of at
/// least one.
#[derive(Debug, PartialEq, Eq)]
pub struct PatternBuilder {
    signature: Vec<u8>,
    mask: Vec<bool>,
    threads: usize,
}

impl View for PatternBuilder {
    type V = BuilderView;

    closed spec fn view(&self) -> BuilderView {
        BuilderView { signature: self.signature@, mask: self.mask@, threads: self.threads as nat }
    }
}

impl Clone for PatternBuilder {
    fn clone(&self) -> (copy: PatternBuilder)
        ensures
            copy@ == self@,
    {
        proof {
            use_type_invariant(self);
        }
        let signature = self.signature.clone();
        let mask = self.mask.clone();
        assert(signature@ =~= self.signature@);
        assert(mask@ =~= self.mask@);
        PatternBuilder { signature, mask, threads: self.threads }
    }
}

/// `num_cpus::get` returns the number of logical cores that the current
/// process may use. Its documentation promises that the number is at least
/// one; nothing else is known of it, and two calls may differ.
#[verifier::external_body]
fn logical_cores() -> (cores: usize)
    ensures
        cores >= 1,
{
    num_cpus::get()
}

/// The characters of a string, in order.
fn chars_of(text: &str) -> (chars: Vec<char>)
    ensures
        chars@ == text@,
{
    let mut chars: Vec<char> = Vec::new();
    for c in it: text.chars()
        invariant
            chars@ == it.seq().take(it.index()),
    {
        chars.push(c);
    }
    chars
}

/// Appends one slot to a signature and its mask.
fn push_slot(signature: &mut Vec<u8>, mask: &mut Vec<bool>, slot: Slot)
    ensures
        final(signature)@ == old(signature)@.push(slot.byte()),
        final(mask)@ == old(mask)@.push(slot.fixed()),
{
    match slot {
        Slot::Wildcard => {
            signature.push(0);
            mask.push(false);
        },
        Slot::Fixed(byte) => {
            signature.push(byte);
            mask.push(true);
        },
    }
}

impl PatternBuilder {
    #[verifier::type_invariant]
    spec fn well_formed(&self) -> bool {
        &&& self.signature@.len() == self.mask@.len()
        &&& self.signature@.len() >= 1
        &&& self.threads >= 1
    }

    /// What holds of every builder.
    pub open spec fn valid(view: BuilderView) -> bool {
        &&& view.signature.len() == view.mask.len()
        &&& view.signature.len() >= 1
        &&& view.threads >= 1
    }

    /// Creates a builder from a code-style signature: the bytes, and a mask
    /// string of the same length in which `?` marks a wildcard and any
    /// other character a fixed byte.
    pub fn from_code_style(signature: &[u8], mask: &str) -> (result: Result<
        PatternBuilder,
        BuilderError,
    >)
        ensures
            match result {
                Ok(builder) => {
                    &&& signature@.len() == mask@.len()
                    &&& signature@.len() >= 1
                    &&& builder@ == (BuilderView {
                        signature: signature@,
                        mask: code_mask(mask@),
                        threads: 1,
                    })
                    &&& Self::valid(builder@)
                },
                Err(BuilderError::SizeMismatch) => signature@.len() != mask@.len(),
                Err(BuilderError::InvalidSignature(_)) => signature@.len() == 0 && mask@.len() == 0,
                Err(_) => false,
            },
    {
        let chars = chars_of(mask);
        if signature.len() != chars.len() {
            return Err(BuilderError::SizeMismatch);
        }
        if signature.len() == 0 {
            return Err(BuilderError::InvalidSignature("the pattern cannot be empty".to_string()));
        }
        let mut bits: Vec<bool> = Vec::new();
        let mut i: usize = 0;
        while i < chars.len()
            invariant
                i <= chars@.len(),
                bits@ == code_mask(chars@.take(i as int)),
            decreases chars@.len() - i,
        {
            bits.push(chars[i] != '?');
            i += 1;
            assert(bits@ =~= code_mask(chars@.take(i as int)));
        }
        assert(chars@.take(i as int) =~= chars@);
        Ok(PatternBuilder { signature: slice_to_vec(signature), mask: bits, threads: 1 })
    }

    /// Creates a builder from an IDA-style signature: tokens separated by
    /// white space, each `?` or `??` for a wildcard, or one or two
    /// hexadecimal digits for a fixed byte.
    pub fn from_ida_style(pattern: &str) -> (result: Result<PatternBuilder, BuilderError>)
        ensures
            match result {
                Ok(builder) => {
                    &&& words(pattern@).len() >= 1
                    &&& forall|i: int|
                        0 <= i < words(pattern@).len() ==> (#[trigger] ida_slot(
                            words(pattern@)[i],
                        )) is Some
                    &&& builder@ == BuilderView::of_slots(ida_slots(pattern@))
                    &&& Self::valid(builder@)
                },
                Err(BuilderError::InvalidSignature(_)) => words(pattern@).len() == 0,
                Err(BuilderError::ParseError) => exists|i: int|
                    0 <= i < words(pattern@).len() && (#[trigger] ida_slot(
                        words(pattern@)[i],
                    )) is None,
                Err(_) => false,
            },
    {
        let chars = chars_of(pattern);
        let mut signature: Vec<u8> = Vec::new();
        let mut mask: Vec<bool> = Vec::new();
        let mut word: Vec<char> = Vec::new();
        let ghost mut done: Seq<Seq<char>> = Seq::empty();
        let mut i: usize = 0;
        assert(chars@.skip(0) =~= chars@);
        assert(done + words_from(chars@.skip(0), word@) =~= words(chars@));
        while i < chars.len()
            invariant
                chars@ == pattern@,
                i <= chars@.len(),
                done + words_from(chars@.skip(i as int), word@) == words(chars@),
                signature@.len() == done.len(),
                mask@.len() == done.len(),
                forall|k: int| 0 <= k < done.len() ==> (#[trigger] ida_slot(done[k])) is Some,
                forall|k: int|
                    0 <= k < done.len() ==> signature@[k] == (#[trigger] ida_slot(
                        done[k],
                    ))->0.byte(),
                forall|k: int|
                    0 <= k < done.len() ==> mask@[k] == (#[trigger] ida_slot(done[k]))->0.fixed(),
            decreases chars@.len() - i,
        {
            let c = chars[i];
            let ghost rest = chars@.skip(i as int);
            assert(rest.len() > 0 && rest[0] == c);
            assert(rest.drop_first() =~= chars@.skip(i + 1));
            if c.is_whitespace() {
                proof {
                    lemma_words_break(rest, word@);
                }
                if word.len() > 0 {
                    let ghost ended = word@;
                    assert(done + (seq![ended] + words_from(rest.drop_first(), Seq::empty()))
                        =~= done.push(ended) + words_from(rest.drop_first(), Seq::empty()));
                    assert(words(chars@)[done.len() as int] == ended);
                    match ida_slot_of(word.as_slice()) {
                        Some(slot) => {
                            push_slot(&mut signature, &mut mask, slot);
                        },
                        None => {
                            assert(ida_slot(words(pattern@)[done.len() as int]) is None);
                            return Err(BuilderError::ParseError);
                        },
                    }
                    proof {
                        done = done.push(ended);
                    }
                    word = Vec::new();
                } else {
                    assert(word@ =~= Seq::<char>::empty());
                }
            } else {
                proof {
                    lemma_words_grow(rest, word@);
                }
                word.push(c);
            }
            i += 1;
        }
        assert(chars@.skip(i as int).len() == 0);
        if word.len() > 0 {
            let ghost ended = word@;
            assert(done + seq![ended] =~= done.push(ended));
            assert(words(chars@)[done.len() as int] == ended);
            match ida_slot_of(word.as_slice()) {
                Some(slot) => {
                    push_slot(&mut signature, &mut mask, slot);
                },
                None => {
                    assert(ida_slot(words(pattern@)[done.len() as int]) is None);
                    return Err(BuilderError::ParseError);
                },
            }
            proof {
                done = done.push(ended);
            }
        } else {
            assert(done + Seq::<Seq<char>>::empty() =~= done);
        }
        assert(done == words(chars@));
        if signature.len() == 0 {
            return Err(BuilderError::InvalidSignature("the pattern cannot be empty".to_string()));
        }
        assert(signature@ =~= slot_bytes(ida_slots(pattern@)));
        assert(mask@ =~= slot_mask(ida_slots(pattern@)));
        Ok(PatternBuilder { signature, mask, threads: 1 })
    }

    /// Creates a builder from a hex string: pairs of hexadecimal digits
    /// without separators, or `??` for a wildcard byte. The pairs are taken
    /// from the bytes of the string.
    pub fn from_hex_string(pattern: &str) -> (result: Result<PatternBuilder, BuilderError>)
        ensures
            match result {
                Ok(builder) => {
                    &&& pattern.spec_bytes().len() >= 2
                    &&& pattern.spec_bytes().len() % 2 == 0
                    &&& forall|k: int|
                        0 <= k < pattern.spec_bytes().len() / 2 ==> (#[trigger] pair_at(
                            pattern.spec_bytes(),
                            k,
                        )) is Some
                    &&& builder@ == BuilderView::of_slots(hex_slots(pattern.spec_bytes()))
                    &&& Self::valid(builder@)
                },
                Err(BuilderError::InvalidSignature(_)) => {
                    ||| pattern.spec_bytes().len() == 0
                    ||| pattern.spec_bytes().len() % 2 == 1
                    ||| exists|k: int| #[trigger]
                        first_bad_pair(pattern.spec_bytes(), k) && pair_is_malformed(
                            pattern.spec_bytes()[2 * k],
                            pattern.spec_bytes()[2 * k + 1],
                        )
                },
                Err(BuilderError::ParseError) => {
                    &&& pattern.spec_bytes().len() % 2 == 0
                    &&& exists|k: int| #[trigger]
                        first_bad_pair(pattern.spec_bytes(), k) && !pair_is_malformed(
                            pattern.spec_bytes()[2 * k],
                            pattern.spec_bytes()[2 * k + 1],
                        )
                },
                Err(_) => false,
            },
    {
        let bytes = pattern.as_bytes();
        let len = bytes.len();
        if len == 0 {
            return Err(BuilderError::InvalidSignature("the pattern cannot be empty".to_string()));
        }
        if len % 2 != 0 {
            return Err(
                BuilderError::InvalidSignature(
                    "the pattern must have an even number of characters".to_string(),
                ),
            );
        }
        let mut signature: Vec<u8> = Vec::new();
        let mut mask: Vec<bool> = Vec::new();
        let mut i: usize = 0;
        while i < len
            invariant
                bytes@ == pattern.spec_bytes(),
                len == bytes@.len(),
                len % 2 == 0,
                i % 2 == 0,
                i <= len,
                signature@.len() == i / 2,
                mask@.len() == i / 2,
                forall|k: int| 0 <= k < i / 2 ==> (#[trigger] pair_at(bytes@, k)) is Some,
                forall|k: int|
                    0 <= k < i / 2 ==> signature@[k] == (#[trigger] pair_at(bytes@, k))->0.byte(),
                forall|k: int|
                    0 <= k < i / 2 ==> mask@[k] == (#[trigger] pair_at(bytes@, k))->0.fixed(),
            decreases len - i,
        {
            let high = bytes[i];
            let low = bytes[i + 1];
            let ghost index = (i / 2) as int;
            assert(2 * index == i);
            match pair_slot_of(high, low) {
                Some(slot) => {
                    push_slot(&mut signature, &mut mask, slot);
                },
                None => {
                    assert(first_bad_pair(bytes@, index));
                    if high == WILDCARD_BYTE || low == WILDCARD_BYTE {
                        return Err(
                            BuilderError::InvalidSignature(
                                "the pattern does not accept single '?' wildcards".to_string(),
                            ),
                        );
                    }
                    let text = (high < 0x80 && low < 0x80) || (0xC2 <= high && high <= 0xDF
                        && 0x80 <= low && low <= 0xBF);
                    if !text {
                        return Err(
                            BuilderError::InvalidSignature(
                                "the pattern contains an invalid character".to_string(),
                            ),
                        );
                    }
                    return Err(BuilderError::ParseError);
                },
            }
            i += 2;
        }
        assert(signature@ =~= slot_bytes(hex_slots(bytes@)));
        assert(mask@ =~= slot_mask(hex_slots(bytes@)));
        Ok(PatternBuilder { signature, mask, threads: 1 })
    }

    /// Sets the number of threads, which must be at least one and at most
    /// `cores`.
    pub fn with_threads_within(self, threads: usize, cores: usize) -> (result: Result<
        PatternBuilder,
        BuilderError,
    >)
        ensures
            match result {
                Ok(builder) => 1 <= threads <= cores && builder@ == self@.with_threads(threads as nat),
                Err(BuilderError::InvalidThreadCount) => threads == 0 || threads > cores,
                Err(_) => false,
            },
    {
        proof {
            use_type_invariant(&self);
        }
        if threads == 0 || threads > cores {
            Err(BuilderError::InvalidThreadCount)
        } else {
            Ok(PatternBuilder { signature: self.signature, mask: self.mask, threads })
        }
    }

    /// Sets the number of threads, which must be at least one and at most
    /// the number of logical cores of the machine. One thread is always
    /// accepted, and none never.
    pub fn with_threads(self, threads: usize) -> (result: Result<PatternBuilder, BuilderError>)
        ensures
            match result {
                Ok(builder) => 1 <= threads && builder@ == self@.with_threads(threads as nat),
                Err(BuilderError::InvalidThreadCount) => threads != 1,
                Err(_) => false,
            },
            threads == 0 ==> result is Err,
    {
        let cores = logical_cores();
        self.with_threads_within(threads, cores)
    }

    /// Sets the number of threads to `cores`, the number of logical cores
    /// of a machine.
    pub fn with_thread_count(self, cores: usize) -> (builder: PatternBuilder)
        requires
            cores >= 1,
        ensures
            builder@ == self@.with_threads(cores as nat),
            Self::valid(builder@),
    {
        proof {
            use_type_invariant(&self);
        }
        PatternBuilder { signature: self.signature, mask: self.mask, threads: cores }
    }

    /// Sets the number of threads to the number of logical cores of the
    /// machine: the builder is what [`PatternBuilder::with_thread_count`]
    /// gives for that number, which is at least one.
    pub fn with_all_threads(self) -> (builder: PatternBuilder)
        ensures
            exists|cores: usize|
                cores >= 1 && builder@ == #[trigger] self@.with_threads(cores as nat),
            Self::valid(builder@),
    {
        let cores = logical_cores();
        self.with_thread_count(cores)
    }

    /// Finishes the builder: trims the signature and gives the pattern.
    pub fn build(self) -> (pattern: Pattern)
        ensures
            pattern@ == PatternView::build(self@.signature, self@.mask, self@.threads),
            Pattern::valid(pattern@),
    {
        proof {
            use_type_invariant(&self);
        }
        Pattern::new(self.signature, self.mask, self.threads)
    }
}

} // verus!
