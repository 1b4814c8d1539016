//! The set of boards that a search has already met, kept as a hash set of
//! their bytes.

use ahash::{AHashSet, RandomState};
use vstd::prelude::*;

verus! {

/// `ahash::AHashSet`: a hash set of the standard library with another
/// hasher. Its inside is not known here; what it holds has a name below.
#[verifier::external_type_specification]
#[verifier::external_body]
#[verifier::reject_recursive_types(T)]
#[verifier::reject_recursive_types(S)]
pub struct ExAHashSet<T, S>(AHashSet<T, S>);

/// `ahash::RandomState`: the hasher that an `AHashSet` uses where none is
/// named. It only occurs as part of the set's type.
#[verifier::external_type_specification]
#[verifier::external_body]
pub struct ExRandomState(RandomState);

/// The keys that a set of byte strings holds.
pub uninterp spec fn seen_keys(set: AHashSet<Vec<u8>>) -> Set<Seq<u8>>;

/// `AHashSet::new`: a set that holds nothing.
#[verifier::external_body]
pub(crate) fn seen_new() -> (set: AHashSet<Vec<u8>>)
    ensures
        seen_keys(set) == Set::<Seq<u8>>::empty(),
{
    AHashSet::new()
}

/// `insert` of the hash set that an `AHashSet` wraps: the set then holds
/// the key beside what it held, and the result says whether the key was
/// new to it. Byte strings are equal when they hold the same bytes.
#[verifier::external_body]
pub(crate) fn seen_insert(set: &mut AHashSet<Vec<u8>>, key: Vec<u8>) -> (fresh: bool)
    ensures
        seen_keys(*final(set)) == seen_keys(*old(set)).insert(key@),
        fresh == !seen_keys(*old(set)).contains(key@),
{
    set.insert(key)
}

/// The byte strings of length `n`.
pub open spec fn words(n: nat) -> Set<Seq<u8>> {
    Set::new(|s: Seq<u8>| s.len() == n)
}

/// The byte strings of length `n + 1` whose last byte is below `b`.
pub open spec fn words_ending_below(n: nat, b: int) -> Set<Seq<u8>> {
    Set::new(|s: Seq<u8>| s.len() == n + 1 && s.last() < b)
}

/// The byte strings of length at most `n`.
pub open spec fn keys_upto(n: nat) -> Set<Seq<u8>> {
    Set::new(|s: Seq<u8>| s.len() <= n)
}

/// There are finitely many byte strings of a given length.
pub proof fn lemma_words_finite(n: nat)
    ensures
        words(n).finite(),
    decreases n, 0int,
{
    if n == 0 {
        assert(words(0) =~= Set::<Seq<u8>>::empty().insert(Seq::<u8>::empty())) by {
            assert forall|s: Seq<u8>| words(0).contains(s) implies s == Seq::<u8>::empty() by {
            }
        }
    } else {
        lemma_words_ending_below_finite((n - 1) as nat, 256);
        assert(words(n) =~= words_ending_below((n - 1) as nat, 256));
    }
}

/// There are finitely many byte strings of a given length whose last byte
/// is below a given bound.
pub proof fn lemma_words_ending_below_finite(n: nat, b: int)
    requires
        0 <= b <= 256,
    ensures
        words_ending_below(n, b).finite(),
    decreases n, b + 1,
{
    if b == 0 {
        assert(words_ending_below(n, 0) =~= Set::<Seq<u8>>::empty());
    } else {
        let last = (b - 1) as u8;
        let grow = |s: Seq<u8>| s.push(last);
        lemma_words_ending_below_finite(n, b - 1);
        lemma_words_finite(n);
        words(n).lemma_map_finite(grow);
        let joined = words_ending_below(n, b - 1).union(words(n).map(grow));
        assert forall|s: Seq<u8>| words_ending_below(n, b).contains(s) implies joined.contains(
            s,
        ) by {
            if s.last() == last {
                let front = s.drop_last();
                assert(words(n).contains(front));
                assert(grow(front) =~= s);
            }
        }
        assert(words_ending_below(n, b) =~= joined);
    }
}

/// There are finitely many byte strings up to a given length.
pub proof fn lemma_keys_upto_finite(n: nat)
    ensures
        keys_upto(n).finite(),
    decreases n,
{
    lemma_words_finite(n);
    if n == 0 {
        assert(keys_upto(0) =~= words(0));
    } else {
        lemma_keys_upto_finite((n - 1) as nat);
        assert(keys_upto(n) =~= keys_upto((n - 1) as nat).union(words(n)));
    }
}

} // verus!
