//! Three small exercises on vectors of integers.

use std::collections::HashSet;
use vstd::prelude::*;
use vstd::std_specs::hash::*;

verus! {

broadcast use vstd::std_specs::hash::group_hash_axioms;

/// The elements of `s` without repetitions: each value is kept where it
/// occurs first.
pub open spec fn first_occurrences(s: Seq<i32>) -> Seq<i32>
    decreases s.len(),
{
    if s.len() == 0 {
        Seq::empty()
    } else {
        let before = first_occurrences(s.drop_last());
        if before.contains(s.last()) {
            before
        } else {
            before.push(s.last())
        }
    }
}

/// Returns the vector with `n` added to every element.
pub fn add_n(v: Vec<i32>, n: i32) -> (r: Vec<i32>)
    requires
        forall|i: int| 0 <= i < v@.len() ==> i32::MIN <= #[trigger] v@[i] + n <= i32::MAX,
    ensures
        r@.len() == v@.len(),
        forall|i: int| 0 <= i < v@.len() ==> #[trigger] r@[i] == v@[i] + n,
{
    let mut res: Vec<i32> = Vec::new();
    let mut i: usize = 0;
    while i < v.len()
        invariant
            i <= v@.len(),
            res@.len() == i,
            forall|k: int| 0 <= k < v@.len() ==> i32::MIN <= #[trigger] v@[k] + n <= i32::MAX,
            forall|k: int| 0 <= k < i ==> #[trigger] res@[k] == v@[k] + n,
        decreases v@.len() - i,
    {
        assert(i32::MIN <= v@[i as int] + n <= i32::MAX);
        res.push(v[i] + n);
        i += 1;
    }
    res
}

/// Adds `n` to every element of the vector, in place.
pub fn add_n_inplace(v: &mut Vec<i32>, n: i32)
    requires
        forall|i: int| 0 <= i < old(v)@.len() ==> i32::MIN <= #[trigger] old(v)@[i] + n <= i32::MAX,
    ensures
        final(v)@.len() == old(v)@.len(),
        forall|i: int| 0 <= i < old(v)@.len() ==> #[trigger] final(v)@[i] == old(v)@[i] + n,
{
    let mut i: usize = 0;
    while i < v.len()
        invariant
            i <= v@.len(),
            v@.len() == old(v)@.len(),
            forall|k: int|
                0 <= k < old(v)@.len() ==> i32::MIN <= #[trigger] old(v)@[k] + n <= i32::MAX,
            forall|k: int| 0 <= k < i ==> #[trigger] v@[k] == old(v)@[k] + n,
            forall|k: int| i <= k < v@.len() ==> #[trigger] v@[k] == old(v)@[k],
        decreases v@.len() - i,
    {
        assert(i32::MIN <= old(v)@[i as int] + n <= i32::MAX);
        let sum = v[i] + n;
        v.set(i, sum);
        i += 1;
    }
}

/// Removes every element that has occurred earlier in the vector. What stays
/// keeps its order.
pub fn dedup(v: &mut Vec<i32>)
    ensures
        final(v)@ == first_occurrences(old(v)@),
{
    let mut seen: HashSet<i32> = HashSet::new();
    let mut kept: Vec<i32> = Vec::new();
    let mut i: usize = 0;
    while i < v.len()
        invariant
            i <= v@.len(),
            v@ == old(v)@,
            kept@ == first_occurrences(v@.take(i as int)),
            forall|x: i32| seen@.contains(x) <==> kept@.contains(x),
        decreases v@.len() - i,
    {
        let x = v[i];
        proof {
            assert(v@.take(i + 1).drop_last() =~= v@.take(i as int));
            assert(v@.take(i + 1).last() == x);
        }
        if !seen.contains(&x) {
            seen.insert(x);
            kept.push(x);
            proof {
                let before = first_occurrences(v@.take(i as int));
                assert forall|y: i32| seen@.contains(y) <==> kept@.contains(y) by {
                    if kept@.contains(y) {
                        let k = choose|k: int| 0 <= k < kept@.len() && kept@[k] == y;
                        if k < before.len() {
                            assert(before[k] == y);
                            assert(before.contains(y));
                        }
                    }
                    if before.contains(y) {
                        let k = choose|k: int| 0 <= k < before.len() && before[k] == y;
                        assert(kept@[k] == y);
                    }
                    if y == x {
                        assert(kept@[kept@.len() - 1] == x);
                    }
                }
            }
        }
        i += 1;
    }
    proof {
        assert(v@.take(i as int) =~= v@);
    }
    *v = kept;
}

/// The result of removing repetitions holds no value twice.
pub proof fn lemma_first_occurrences_distinct(s: Seq<i32>)
    ensures
        first_occurrences(s).no_duplicates(),
    decreases s.len(),
{
    if s.len() > 0 {
        lemma_first_occurrences_distinct(s.drop_last());
    }
}

/// Removing repetitions neither loses a value nor invents one.
pub proof fn lemma_first_occurrences_same_values(s: Seq<i32>, x: i32)
    ensures
        first_occurrences(s).contains(x) <==> s.contains(x),
    decreases s.len(),
{
    if s.len() > 0 {
        let before = first_occurrences(s.drop_last());
        lemma_first_occurrences_same_values(s.drop_last(), x);
        if s.contains(x) {
            let k = choose|k: int| 0 <= k < s.len() && s[k] == x;
            if k < s.len() - 1 {
                assert(s.drop_last()[k] == x);
                assert(s.drop_last().contains(x));
            }
        }
        if s.drop_last().contains(x) {
            let k = choose|k: int| 0 <= k < s.drop_last().len() && s.drop_last()[k] == x;
            assert(s[k] == x);
        }
        if before.contains(x) {
            let k = choose|k: int| 0 <= k < before.len() && before[k] == x;
            if !before.contains(s.last()) {
                assert(before.push(s.last())[k] == x);
            }
        }
        if !before.contains(s.last()) {
            let after = before.push(s.last());
            assert(after[after.len() - 1] == s.last());
            if after.contains(x) {
                let k = choose|k: int| 0 <= k < after.len() && after[k] == x;
                if k < before.len() {
                    assert(before[k] == x);
                }
            }
        }
        assert(s[s.len() - 1] == s.last());
    }
}

/// A vector without repetitions is left as it is.
pub proof fn lemma_first_occurrences_fixed(s: Seq<i32>)
    requires
        s.no_duplicates(),
    ensures
        first_occurrences(s) == s,
    decreases s.len(),
{
    if s.len() > 0 {
        let front = s.drop_last();
        lemma_first_occurrences_fixed(front);
        if front.contains(s.last()) {
            let k = choose|k: int| 0 <= k < front.len() && front[k] == s.last();
            assert(s[k] == s[s.len() - 1]);
        }
        assert(front.push(s.last()) =~= s);
    }
}

} // verus!
