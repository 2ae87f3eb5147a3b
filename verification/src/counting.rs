//! Membership counts: how many characters of a password belong to an
//! alphabet. Counts are stated over the multiset of characters, so they are
//! unchanged by any reordering of the password.

use vstd::prelude::*;
use vstd::multiset::Multiset;
use vstd::string::StrSliceExecFns;

verus! {

/// The number of characters of `pwd` that belong to `alphabet`.
///
/// Membership is inclusive: a character counts toward every alphabet that
/// contains it, so overlapping alphabets each see the full count.
pub open spec fn pool_count(pwd: Seq<char>, alphabet: Seq<char>) -> nat {
    pwd.to_multiset().filter(|c: char| alphabet.contains(c)).len()
}

/// An empty password has a zero count for every alphabet.
pub proof fn lemma_pool_count_empty(alphabet: Seq<char>)
    ensures
        pool_count(Seq::<char>::empty(), alphabet) == 0,
{
    broadcast use vstd::seq_lib::group_to_multiset_ensures;
    broadcast use vstd::multiset::group_multiset_axioms;

    let f = |c: char| alphabet.contains(c);
    let m = Seq::<char>::empty().to_multiset();
    assert(m =~= Multiset::<char>::empty());
    assert(m.filter(f) =~= Multiset::<char>::empty());
}

/// Appending a character raises the count of exactly the alphabets that
/// contain it, by one, and leaves every other count unchanged.
pub proof fn lemma_pool_count_push(pwd: Seq<char>, c: char, alphabet: Seq<char>)
    ensures
        alphabet.contains(c) ==> pool_count(pwd.push(c), alphabet) == pool_count(pwd, alphabet) + 1,
        !alphabet.contains(c) ==> pool_count(pwd.push(c), alphabet) == pool_count(pwd, alphabet),
{
    broadcast use vstd::seq_lib::group_to_multiset_ensures;
    broadcast use vstd::multiset::group_multiset_axioms;

    let f = |c2: char| alphabet.contains(c2);
    let m = pwd.to_multiset();
    assert(pwd.push(c).to_multiset() =~= m.insert(c));
    if alphabet.contains(c) {
        assert(m.insert(c).filter(f) =~= m.filter(f).insert(c)) by {
            assert forall|v: char| m.insert(c).filter(f).count(v) == m.filter(f).insert(c).count(
                v,
            ) by {
                vstd::multiset::lemma_insert_increases_count_by_1(m, c);
                vstd::multiset::lemma_insert_increases_count_by_1(m.filter(f), c);
                vstd::multiset::lemma_insert_other_elements_unchanged(m, c, v);
                vstd::multiset::lemma_insert_other_elements_unchanged(m.filter(f), c, v);
            }
        }
        vstd::multiset::lemma_insert_len(m.filter(f), c);
    } else {
        assert(m.insert(c).filter(f) =~= m.filter(f)) by {
            assert forall|v: char| m.insert(c).filter(f).count(v) == m.filter(f).count(v) by {
                vstd::multiset::lemma_insert_increases_count_by_1(m, c);
                vstd::multiset::lemma_insert_other_elements_unchanged(m, c, v);
            }
        }
    }
}

/// Whether the string `s` contains the character `c`.
pub fn contains_char(s: &str, c: char) -> (b: bool)
    ensures
        b == s@.contains(c),
{
    let len: usize = s.unicode_len();
    for i in 0..len
        invariant
            len == s@.len(),
            forall|k: int| 0 <= k < i ==> s@[k] != c,
    {
        if s.get_char(i) == c {
            assert(s@[i as int] == c);
            return true;
        }
    }
    assert(!s@.contains(c));
    false
}

/// The number of characters of `pwd` that belong to `char_set`, as an
/// executable query for distribution reporting.
pub fn count_matching(pwd: &str, char_set: &str) -> (n: usize)
    ensures
        n == pool_count(pwd@, char_set@),
{
    let len: usize = pwd.unicode_len();
    let mut n: usize = 0;
    proof {
        lemma_pool_count_empty(char_set@);
        assert(pwd@.take(0) =~= Seq::<char>::empty());
    }
    for i in 0..len
        invariant
            len == pwd@.len(),
            n <= i,
            n == pool_count(pwd@.take(i as int), char_set@),
    {
        let c = pwd.get_char(i);
        proof {
            lemma_pool_count_push(pwd@.take(i as int), pwd@[i as int], char_set@);
            assert(pwd@.take(i as int).push(pwd@[i as int]) =~= pwd@.take(i + 1));
        }
        if contains_char(char_set, c) {
            n = n + 1;
        }
    }
    proof {
        assert(pwd@.take(len as int) =~= pwd@);
    }
    n
}

} // verus!
