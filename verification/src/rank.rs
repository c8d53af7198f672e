//! Selecting the entries with the largest keys, as every "top N" query of
//! the profiler does.
use vstd::prelude::*;

verus! {

/// `idx` picks the `min(limit, keys.len())` largest keys of `keys`: the
/// indices are distinct and in range, their keys never increase along
/// `idx`, and no key left out is larger than a key picked.
pub open spec fn is_top_selection(keys: Seq<u64>, limit: nat, idx: Seq<usize>) -> bool {
    &&& idx.len() == if limit < keys.len() { limit } else { keys.len() }
    &&& forall|a: int| 0 <= a < idx.len() ==> (idx[a] as int) < keys.len()
    &&& forall|a: int, b: int| 0 <= a < b < idx.len() ==> idx[a] != idx[b]
    &&& forall|a: int, b: int| 0 <= a < b < idx.len() ==> keys[idx[a] as int] >= keys[idx[b] as int]
    &&& forall|j: int, a: int| #![trigger keys[j], idx[a]] 0 <= j < keys.len() && 0 <= a < idx.len() && !idx.contains(j as usize)
            ==> keys[j] <= keys[idx[a] as int]
}

/// Indices of the `limit` largest keys, largest first.
pub fn top_indices(keys: &Vec<u64>, limit: usize) -> (idx: Vec<usize>)
    ensures
        is_top_selection(keys@, limit as nat, idx@),
{
    let n = keys.len();
    let mut chosen: Vec<bool> = Vec::new();
    let mut i: usize = 0;
    while i < n
        invariant
            i <= n,
            n == keys.len(),
            chosen@.len() == i,
            forall|k: int| 0 <= k < i ==> !chosen@[k],
        decreases n - i,
    {
        chosen.push(false);
        i = i + 1;
    }
    let mut idx: Vec<usize> = Vec::new();
    while idx.len() < limit && idx.len() < n
        invariant
            n == keys.len(),
            chosen@.len() == n,
            idx@.len() <= n,
            idx@.len() <= limit,
            forall|a: int| 0 <= a < idx@.len() ==> (idx@[a] as int) < n,
            forall|a: int, b: int| 0 <= a < b < idx@.len() ==> idx@[a] != idx@[b],
            forall|k: int| 0 <= k < n ==> (chosen@[k] <==> idx@.contains(k as usize)),
            forall|a: int, b: int| 0 <= a < b < idx@.len() ==> keys@[idx@[a] as int] >= keys@[idx@[b] as int],
            forall|j: int, a: int| #![trigger keys@[j], idx@[a]] 0 <= j < n && 0 <= a < idx@.len() && !chosen@[j]
                ==> keys@[j] <= keys@[idx@[a] as int],
        decreases n - idx@.len(),
    {
        // Some index is still free, since fewer than n were picked.
        proof {
            if forall|k: int| 0 <= k < n ==> chosen@[k] {
                // Every index in 0..n occurs in idx, yet idx has fewer than n distinct entries.
                let s = Set::new(|k: usize| (k as int) < n);
                assert(s =~= idx@.to_set().filter(|k: usize| (k as int) < n)) by {
                    assert forall|k: usize| s.contains(k) implies idx@.to_set().contains(k) by {
                        assert(chosen@[k as int]);
                    }
                }
                vstd::set_lib::lemma_int_range(0, n as int);
                let r = Set::new(|k: usize| 0 <= (k as int) < n);
                assert(r =~= s);
                idx@.unique_seq_to_set();
                vstd::seq_lib::seq_to_set_is_finite(idx@);
                vstd::set_lib::lemma_len_subset(s, idx@.to_set());
                lemma_usize_range_len(n);
                assert(false);
            }
        }
        let mut best: usize = 0;
        let mut found = false;
        let mut k: usize = 0;
        while k < n
            invariant
                n == keys.len(),
                chosen@.len() == n,
                k <= n,
                found ==> best < n && !chosen@[best as int],
                found ==> forall|j: int| 0 <= j < k && !chosen@[j] ==> keys@[j] <= keys@[best as int],
                !found ==> forall|j: int| 0 <= j < k ==> chosen@[j],
            decreases n - k,
        {
            if !chosen[k] {
                if !found || keys[k] > keys[best] {
                    best = k;
                    found = true;
                }
            }
            k = k + 1;
        }
        assert(found);
        let ghost old_idx = idx@;
        idx.push(best);
        chosen.set(best, true);
        proof {
            assert forall|kk: int| 0 <= kk < n implies (chosen@[kk] <==> idx@.contains(kk as usize)) by {
                if kk == best as int {
                    assert(idx@[idx@.len() - 1] == best);
                } else {
                    if idx@.contains(kk as usize) {
                        let w = choose|w: int| 0 <= w < idx@.len() && idx@[w] == kk as usize;
                        assert(old_idx[w] == kk as usize);
                    }
                    if old_idx.contains(kk as usize) {
                        let w = choose|w: int| 0 <= w < old_idx.len() && old_idx[w] == kk as usize;
                        assert(idx@[w] == kk as usize);
                    }
                }
            }
            assert forall|a: int, b: int| 0 <= a < b < idx@.len() implies idx@[a] != idx@[b] by {
                if b == idx@.len() - 1 {
                    assert(old_idx.contains(idx@[a]));
                }
            }
        }
    }
    proof {
        assert forall|j: int, a: int| #![trigger keys@[j], idx@[a]] 0 <= j < keys@.len() && 0 <= a < idx@.len() && !idx@.contains(j as usize)
            implies keys@[j] <= keys@[idx@[a] as int] by {
            assert(!chosen@[j]);
        }
    }
    idx
}

proof fn lemma_usize_range_len(n: usize)
    ensures
        Set::new(|k: usize| 0 <= (k as int) < n).len() == n,
        Set::new(|k: usize| 0 <= (k as int) < n).finite(),
    decreases n,
{
    let s = Set::new(|k: usize| 0 <= (k as int) < n);
    if n == 0 {
        assert(s =~= Set::empty());
    } else {
        let m = (n - 1) as usize;
        lemma_usize_range_len(m);
        let t = Set::new(|k: usize| 0 <= (k as int) < m);
        assert(s =~= t.insert(m));
    }
}

} // verus!
