//! The password composer: draws each pool's minimum from its own alphabet,
//! fills the rest from the merged alphabet, and shuffles the result.

use vstd::prelude::*;
use vstd::string::StrSliceExecFns;

use crate::counting::lemma_pool_count_push;
use crate::counting::pool_count;
use crate::randomness::choose_char;
use crate::randomness::shuffle_chars;

verus! {

/// A named alphabet plus a minimum required draw count.
pub struct Pool {
    pub name: Option<&'static str>,
    pub minimum: usize,
    pub char_set: &'static str,
}

/// A caller-input error: the pool configuration cannot produce a password.
#[derive(Clone, Copy, Debug, PartialEq, Eq, Structural)]
pub enum ConfigurationError {
    /// The pool set is empty, so there is no alphabet to draw from.
    NoPools,
    /// A supplied pool has an empty alphabet.
    EmptyCharSet,
}

impl ConfigurationError {
    /// A human-readable reason for the error.
    pub fn message(&self) -> (m: &'static str)
        ensures
            *self == ConfigurationError::NoPools ==> m@ == "no character pools specified"@,
            *self == ConfigurationError::EmptyCharSet ==> m@ == "empty character set in pool"@,
    {
        match self {
            ConfigurationError::NoPools => "no character pools specified",
            ConfigurationError::EmptyCharSet => "empty character set in pool",
        }
    }
}

/// The sum of the pools' minimums.
pub open spec fn sum_min(pools: Seq<Pool>) -> nat
    decreases pools.len(),
{
    if pools.len() == 0 {
        0
    } else {
        (sum_min(pools.drop_last()) + pools.last().minimum) as nat
    }
}

/// The merged alphabet: every pool's characters, concatenated in pool order
/// and not deduplicated.
pub open spec fn merged_chars(pools: Seq<Pool>) -> Seq<char>
    decreases pools.len(),
{
    if pools.len() == 0 {
        Seq::<char>::empty()
    } else {
        merged_chars(pools.drop_last()) + pools.last().char_set@
    }
}

/// Whether every pool's alphabet is non-empty.
pub open spec fn all_alphabets_nonempty(pools: Seq<Pool>) -> bool {
    forall|i: int| 0 <= i < pools.len() ==> (#[trigger] pools[i]).char_set@.len() > 0
}

/// The length of the composed password: the requested length, or the sum of
/// the minimums where that is larger ("minimums win").
pub open spec fn final_len(min_length: nat, pools: Seq<Pool>) -> nat {
    if min_length > sum_min(pools) {
        min_length
    } else {
        sum_min(pools)
    }
}

/// Everything the composer guarantees of a successfully composed password:
/// its length, each pool's minimum met by inclusive membership count, and
/// every character drawn from the merged alphabet.
pub open spec fn composed_ok(pools: Seq<Pool>, min_length: nat, pwd: Seq<char>) -> bool {
    &&& pwd.len() == final_len(min_length, pools)
    &&& forall|i: int|
        0 <= i < pools.len() ==> pool_count(pwd, (#[trigger] pools[i]).char_set@)
            >= pools[i].minimum
    &&& forall|k: int| 0 <= k < pwd.len() ==> merged_chars(pools).contains(#[trigger] pwd[k])
}

proof fn lemma_sum_min_take_step(pools: Seq<Pool>, i: int)
    requires
        0 <= i < pools.len(),
    ensures
        sum_min(pools.take(i + 1)) == sum_min(pools.take(i)) + pools[i].minimum,
{
    assert(pools.take(i + 1).drop_last() =~= pools.take(i));
    assert(pools.take(i + 1).last() == pools[i]);
}

proof fn lemma_sum_min_take_le(pools: Seq<Pool>, i: int)
    requires
        0 <= i <= pools.len(),
    ensures
        sum_min(pools.take(i)) <= sum_min(pools),
    decreases pools.len() - i,
{
    if i == pools.len() {
        assert(pools.take(i) =~= pools);
    } else {
        lemma_sum_min_take_step(pools, i);
        lemma_sum_min_take_le(pools, i + 1);
    }
}

proof fn lemma_merged_take_step(pools: Seq<Pool>, i: int)
    requires
        0 <= i < pools.len(),
    ensures
        merged_chars(pools.take(i + 1)) == merged_chars(pools.take(i)) + pools[i].char_set@,
{
    assert(pools.take(i + 1).drop_last() =~= pools.take(i));
    assert(pools.take(i + 1).last() == pools[i]);
}

/// A character of any pool's alphabet occurs in the merged alphabet.
proof fn lemma_merged_contains_pool(pools: Seq<Pool>, i: int, c: char)
    requires
        0 <= i < pools.len(),
        pools[i].char_set@.contains(c),
    ensures
        merged_chars(pools).contains(c),
    decreases pools.len(),
{
    let prefix = merged_chars(pools.drop_last());
    if i == pools.len() - 1 {
        let j = choose|j: int| 0 <= j < pools[i].char_set@.len() && pools[i].char_set@[j] == c;
        assert(merged_chars(pools)[prefix.len() + j] == c);
    } else {
        lemma_merged_contains_pool(pools.drop_last(), i, c);
        let j = choose|j: int| 0 <= j < prefix.len() && prefix[j] == c;
        assert(merged_chars(pools)[j] == c);
    }
}

/// The characters of `s`, in order, as a vector.
fn chars_of(s: &str) -> (v: Vec<char>)
    ensures
        v@ == s@,
{
    let len: usize = s.unicode_len();
    let mut v: Vec<char> = Vec::new();
    for i in 0..len
        invariant
            len == s@.len(),
            v@ == s@.take(i as int),
    {
        v.push(s.get_char(i));
        proof {
            assert(s@.take(i as int).push(s@[i as int]) =~= s@.take(i + 1));
        }
    }
    proof {
        assert(s@.take(len as int) =~= s@);
    }
    v
}

/// Relies on `String`'s `FromIterator<char>` implementation: collecting
/// pushes each character in order, so the string's characters are exactly
/// the vector's.
#[verifier::external_body]
fn chars_to_string(v: &Vec<char>) -> (s: String)
    ensures
        s@ == v@,
{
    v.iter().collect()
}

/// Compose a password from `pools`.
///
/// The result has length `max(min_length, sum of the minimums)`, contains at
/// least `minimum` characters belonging to each pool's alphabet, and every
/// one of its characters comes from the merged alphabet. It fails exactly
/// when `pools` is empty or some pool's alphabet is empty.
#[verifier::loop_isolation(false)]
pub fn from_pools(rng: &mut rand::rngs::ThreadRng, min_length: usize, pools: &[Pool]) -> (result:
    Result<String, ConfigurationError>)
    requires
        sum_min(pools@) <= usize::MAX,
    ensures
        result is Ok <==> pools@.len() > 0 && all_alphabets_nonempty(pools@),
        pools@.len() == 0 ==> result == Err::<String, ConfigurationError>(
            ConfigurationError::NoPools,
        ),
        pools@.len() > 0 && !all_alphabets_nonempty(pools@) ==> result == Err::<
            String,
            ConfigurationError,
        >(ConfigurationError::EmptyCharSet),
        result is Ok ==> composed_ok(pools@, min_length as nat, result->Ok_0@),
{
    if pools.len() == 0 {
        return Err(ConfigurationError::NoPools);
    }
    // Reject any pool whose alphabet is empty.
    for i in 0..pools.len()
        invariant
            forall|k: int| 0 <= k < i ==> (#[trigger] pools@[k]).char_set@.len() > 0,
    {
        if pools[i].char_set.unicode_len() == 0 {
            assert(!all_alphabets_nonempty(pools@));
            return Err(ConfigurationError::EmptyCharSet);
        }
    }
    assert(all_alphabets_nonempty(pools@));

    // The sum of the pools' minimums.
    let mut sum_of_min: usize = 0;
    for i in 0..pools.len()
        invariant
            sum_of_min == sum_min(pools@.take(i as int)),
    {
        proof {
            lemma_sum_min_take_step(pools@, i as int);
            lemma_sum_min_take_le(pools@, i + 1);
        }
        sum_of_min = sum_of_min + pools[i].minimum;
    }
    proof {
        assert(pools@.take(pools@.len() as int) =~= pools@);
    }

    // Minimums win: never truncate below the sum of the minimums.
    let length: usize = if min_length > sum_of_min {
        min_length
    } else {
        sum_of_min
    };

    let mut pwd: Vec<char> = Vec::with_capacity(length);

    // Draw each pool's minimum from its own alphabet.
    for i in 0..pools.len()
        invariant
            pwd@.len() == sum_min(pools@.take(i as int)),
            forall|k: int|
                0 <= k < i ==> pool_count(pwd@, (#[trigger] pools@[k]).char_set@)
                    >= pools@[k].minimum,
            forall|k: int| 0 <= k < pwd@.len() ==> merged_chars(pools@).contains(#[trigger] pwd@[k]),
    {
        let pool_chars = chars_of(pools[i].char_set);
        let m: usize = pools[i].minimum;
        for j in 0..m
            invariant
                pwd@.len() == sum_min(pools@.take(i as int)) + j,
                pool_count(pwd@, pools@[i as int].char_set@) >= j,
                forall|k: int|
                    0 <= k < i ==> pool_count(pwd@, (#[trigger] pools@[k]).char_set@)
                        >= pools@[k].minimum,
                forall|k: int|
                    0 <= k < pwd@.len() ==> merged_chars(pools@).contains(#[trigger] pwd@[k]),
        {
            let c = choose_char(rng, pool_chars.as_slice());
            let ghost prev = pwd@;
            pwd.push(c);
            proof {
                lemma_pool_count_push(prev, c, pools@[i as int].char_set@);
                assert forall|k: int|
                    0 <= k < i implies pool_count(pwd@, (#[trigger] pools@[k]).char_set@)
                    >= pools@[k].minimum by {
                    lemma_pool_count_push(prev, c, pools@[k].char_set@);
                }
                lemma_merged_contains_pool(pools@, i as int, c);
                assert forall|k: int|
                    0 <= k < pwd@.len() implies merged_chars(pools@).contains(
                    #[trigger] pwd@[k],
                ) by {
                    if k < prev.len() {
                        assert(pwd@[k] == prev[k]);
                    } else {
                        assert(pwd@[k] == c);
                    }
                }
            }
        }
        proof {
            lemma_sum_min_take_step(pools@, i as int);
        }
    }

    // The merged alphabet, in pool order.
    let mut merged: Vec<char> = Vec::new();
    for i in 0..pools.len()
        invariant
            merged@ == merged_chars(pools@.take(i as int)),
    {
        let mut pool_chars = chars_of(pools[i].char_set);
        merged.append(&mut pool_chars);
        proof {
            lemma_merged_take_step(pools@, i as int);
        }
    }
    proof {
        assert(pools@.take(pools@.len() as int) =~= pools@);
        // The last pool's alphabet is non-empty, so the merged alphabet is too.
        assert((pools@[pools@.len() - 1]).char_set@.len() > 0);
        assert(merged_chars(pools@).len() > 0);
    }

    // Fill the remaining positions from the merged alphabet.
    let fill: usize = length - sum_of_min;
    for j in 0..fill
        invariant
            pwd@.len() == sum_min(pools@) + j,
            forall|k: int|
                0 <= k < pools@.len() ==> pool_count(pwd@, (#[trigger] pools@[k]).char_set@)
                    >= pools@[k].minimum,
            forall|k: int| 0 <= k < pwd@.len() ==> merged_chars(pools@).contains(#[trigger] pwd@[k]),
    {
        let c = choose_char(rng, merged.as_slice());
        let ghost prev = pwd@;
        pwd.push(c);
        proof {
            assert forall|k: int|
                0 <= k < pools@.len() implies pool_count(pwd@, (#[trigger] pools@[k]).char_set@)
                >= pools@[k].minimum by {
                lemma_pool_count_push(prev, c, pools@[k].char_set@);
            }
            assert forall|k: int|
                0 <= k < pwd@.len() implies merged_chars(pools@).contains(#[trigger] pwd@[k]) by {
                if k < prev.len() {
                    assert(pwd@[k] == prev[k]);
                } else {
                    assert(pwd@[k] == c);
                }
            }
        }
    }

    // The minimums were drawn first, so shuffle to remove the positional
    // predictability; a permutation changes no length and no membership count.
    let ghost before = pwd@;
    shuffle_chars(rng, &mut pwd);
    proof {
        broadcast use vstd::seq_lib::group_to_multiset_ensures;

        assert(pwd@.to_multiset().len() == pwd@.len());
        assert(before.to_multiset().len() == before.len());
        assert(pwd@.len() == before.len());
        assert forall|k: int|
            0 <= k < pwd@.len() implies merged_chars(pools@).contains(#[trigger] pwd@[k]) by {
            assert(pwd@.contains(pwd@[k]));
            assert(before.to_multiset().count(pwd@[k]) > 0);
            assert(before.contains(pwd@[k]));
            let w = choose|w: int| 0 <= w < before.len() && before[w] == pwd@[k];
            assert(merged_chars(pools@).contains(before[w]));
        }
    }

    Ok(chars_to_string(&pwd))
}

/// The shape of a composed password is a function of the configuration
/// alone: two passwords composed from the same pool set and requested
/// length have the same length, and each satisfies every pool's minimum,
/// whatever the random draws were.
pub proof fn lemma_composed_shape(
    pools: Seq<Pool>,
    min_length: nat,
    pwd1: Seq<char>,
    pwd2: Seq<char>,
)
    requires
        composed_ok(pools, min_length, pwd1),
        composed_ok(pools, min_length, pwd2),
    ensures
        pwd1.len() == pwd2.len(),
        forall|i: int|
            0 <= i < pools.len() ==> pool_count(pwd1, (#[trigger] pools[i]).char_set@)
                >= pools[i].minimum && pool_count(pwd2, pools[i].char_set@) >= pools[i].minimum,
{
}

/// Append a pool to the pool vector when its flag was given at all; a flag
/// given without a count means a minimum of zero.
pub fn add_to_pool(
    pool: &mut Vec<Pool>,
    name: &'static str,
    min: Option<Option<usize>>,
    char_set: &'static str,
)
    ensures
        match min {
            Some(Some(m)) => final(pool)@ == old(pool)@.push(
                (Pool { name: Some(name), minimum: m, char_set }),
            ),
            Some(None) => final(pool)@ == old(pool)@.push(
                (Pool { name: Some(name), minimum: 0, char_set }),
            ),
            None => final(pool)@ == old(pool)@,
        },
{
    match min {
        Some(inner) => {
            let minimum: usize = match inner {
                Some(m) => m,
                None => 0,
            };
            pool.push(Pool { name: Some(name), minimum, char_set });
        },
        None => {},
    }
}

} // verus!
