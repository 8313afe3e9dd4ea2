//! The mathematical model of a signature: which slots are wildcards, what
//! trimming keeps, and when a window of a buffer matches.

use vstd::prelude::*;

verus! {

/// The number of wildcard slots (`false` in the mask) before the first fixed one.
pub open spec fn leading_wildcards(mask: Seq<bool>) -> nat
    decreases mask.len(),
{
    if mask.len() == 0 || mask[0] {
        0
    } else {
        1 + leading_wildcards(mask.drop_first())
    }
}

/// The number of wildcard slots after the last fixed one.
pub open spec fn trailing_wildcards(mask: Seq<bool>) -> nat
    decreases mask.len(),
{
    if mask.len() == 0 || mask.last() {
        0
    } else {
        1 + trailing_wildcards(mask.drop_last())
    }
}

/// How many leading slots trimming removes: the leading wildcards, or none
/// at all when there is no fixed slot to anchor on.
pub open spec fn trim_front(mask: Seq<bool>) -> nat {
    if leading_wildcards(mask) == mask.len() {
        0
    } else {
        leading_wildcards(mask)
    }
}

/// How many trailing slots trimming removes.
pub open spec fn trim_back(mask: Seq<bool>) -> nat {
    if leading_wildcards(mask) == mask.len() {
        0
    } else {
        trailing_wildcards(mask)
    }
}

/// What trimming keeps of a sequence that runs parallel to `mask`.
pub open spec fn trimmed<T>(items: Seq<T>, mask: Seq<bool>) -> Seq<T> {
    items.subrange(trim_front(mask) as int, items.len() - trim_back(mask))
}

/// The window of `data` that starts at `at` lies inside the buffer and agrees
/// with the signature on every fixed slot.
pub open spec fn window_matches(
    signature: Seq<u8>,
    mask: Seq<bool>,
    data: Seq<u8>,
    at: int,
) -> bool {
    &&& 0 <= at
    &&& at + signature.len() <= data.len()
    &&& forall|j: int|
        0 <= j < signature.len() && #[trigger] mask[j] ==> data[at + j] == signature[j]
}

/// `n` is the number of leading wildcards exactly when the first `n` slots
/// are wildcards and slot `n`, if there is one, is fixed.
pub proof fn lemma_leading_wildcards(mask: Seq<bool>, n: int)
    requires
        0 <= n <= mask.len(),
        forall|j: int| 0 <= j < n ==> !#[trigger] mask[j],
        n == mask.len() || mask[n],
    ensures
        leading_wildcards(mask) == n,
    decreases mask.len(),
{
    if n > 0 {
        let rest = mask.drop_first();
        assert forall|j: int| 0 <= j < n - 1 implies !#[trigger] rest[j] by {
            assert(rest[j] == mask[j + 1]);
        }
        lemma_leading_wildcards(rest, n - 1);
    }
}

/// `n` is the number of trailing wildcards exactly when the last `n` slots
/// are wildcards and the slot before them, if there is one, is fixed.
pub proof fn lemma_trailing_wildcards(mask: Seq<bool>, n: int)
    requires
        0 <= n <= mask.len(),
        forall|j: int| mask.len() - n <= j < mask.len() ==> !#[trigger] mask[j],
        n == mask.len() || mask[mask.len() - n - 1],
    ensures
        trailing_wildcards(mask) == n,
    decreases mask.len(),
{
    if n > 0 {
        let rest = mask.drop_last();
        assert forall|j: int| rest.len() - (n - 1) <= j < rest.len() implies !#[trigger] rest[j]
        by {
            assert(rest[j] == mask[j]);
        }
        lemma_trailing_wildcards(rest, n - 1);
    }
}

/// The leading wildcards are wildcards, there are no more of them than
/// slots, and the slot after them, if any, is fixed.
pub proof fn lemma_leading_wildcards_bound(mask: Seq<bool>)
    ensures
        leading_wildcards(mask) <= mask.len(),
        forall|j: int| 0 <= j < leading_wildcards(mask) ==> !#[trigger] mask[j],
        leading_wildcards(mask) < mask.len() ==> mask[leading_wildcards(mask) as int],
    decreases mask.len(),
{
    if mask.len() > 0 && !mask[0] {
        let rest = mask.drop_first();
        lemma_leading_wildcards_bound(rest);
        assert forall|j: int| 0 <= j < leading_wildcards(mask) implies !#[trigger] mask[j] by {
            if j > 0 {
                assert(mask[j] == rest[j - 1]);
            }
        }
        if leading_wildcards(mask) < mask.len() {
            assert(mask[leading_wildcards(mask) as int] == rest[leading_wildcards(rest) as int]);
        }
    }
}

/// The trailing wildcards are wildcards, there are no more of them than
/// slots, and the slot before them, if any, is fixed.
pub proof fn lemma_trailing_wildcards_bound(mask: Seq<bool>)
    ensures
        trailing_wildcards(mask) <= mask.len(),
        forall|j: int|
            mask.len() - trailing_wildcards(mask) <= j < mask.len() ==> !#[trigger] mask[j],
        trailing_wildcards(mask) < mask.len() ==> mask[mask.len() - trailing_wildcards(mask) - 1],
    decreases mask.len(),
{
    if mask.len() > 0 && !mask.last() {
        let rest = mask.drop_last();
        lemma_trailing_wildcards_bound(rest);
        assert forall|j: int|
            mask.len() - trailing_wildcards(mask) <= j < mask.len() implies !#[trigger] mask[j] by {
            if j < mask.len() - 1 {
                assert(mask[j] == rest[j]);
            }
        }
        if trailing_wildcards(mask) < mask.len() {
            assert(mask[mask.len() - trailing_wildcards(mask) - 1] == rest[rest.len()
                - trailing_wildcards(rest) - 1]);
        }
    }
}

/// With at least one fixed slot, what trimming removes at the two ends does
/// not overlap, and what it keeps begins and ends with a fixed slot.
pub proof fn lemma_trimmed_core(mask: Seq<bool>)
    requires
        leading_wildcards(mask) != mask.len(),
    ensures
        trim_front(mask) + trim_back(mask) < mask.len(),
        trimmed(mask, mask).len() == mask.len() - trim_front(mask) - trim_back(mask),
        trimmed(mask, mask).len() >= 1,
        trimmed(mask, mask)[0],
        trimmed(mask, mask).last(),
{
    lemma_leading_wildcards_bound(mask);
    lemma_trailing_wildcards_bound(mask);
    let n = leading_wildcards(mask) as int;
    let m = trailing_wildcards(mask) as int;
    assert(mask[n]);
    if n + m >= mask.len() {
        assert(!mask[n]);
    }
}

} // verus!
