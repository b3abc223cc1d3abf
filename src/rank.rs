//! Ordering and selection of duplicate groups.

use vstd::prelude::*;
use crate::group::{DuplicateGroup, GroupModel, redundant_of};

verus! {

/// The quantity groups are ranked by.
#[derive(Clone, Copy, PartialEq, Eq, Debug)]
pub enum SortKey {
    /// Bytes wasted by the whole group.
    RedundantBytes,
    /// Size of one file of the group.
    PerFileBytes,
}

pub open spec fn key_of(g: GroupModel, key: SortKey) -> nat {
    match key {
        SortKey::RedundantBytes => redundant_of(g),
        SortKey::PerFileBytes => g.per_file_bytes,
    }
}

/// Keys never decrease along `s`.
pub open spec fn sorted_by(s: Seq<DuplicateGroup>, key: SortKey) -> bool {
    forall|i: int, j: int|
        0 <= i < j < s.len() ==> key_of(#[trigger] s[i]@, key) <= key_of(#[trigger] s[j]@, key)
}

/// `out` holds the items of `input` rearranged by `perm` (position `i` of
/// `out` holds item `perm[i]` of `input`, each item exactly once), and items
/// with equal keys keep their relative order.
pub open spec fn stable_arrangement(
    input: Seq<DuplicateGroup>,
    out: Seq<DuplicateGroup>,
    perm: Seq<int>,
    key: SortKey,
) -> bool {
    &&& out.len() == input.len()
    &&& perm.len() == out.len()
    &&& forall|i: int|
        0 <= i < out.len() ==> 0 <= #[trigger] perm[i] < input.len() && out[i] == input[perm[i]]
    &&& forall|i: int, j: int| 0 <= i < j < out.len() ==> #[trigger] perm[i] != #[trigger] perm[j]
    &&& forall|i: int, j: int|
        0 <= i < j < out.len() && key_of(#[trigger] out[i]@, key) == key_of(#[trigger] out[j]@, key)
            ==> perm[i] < perm[j]
}

/// A group is shown when one of its files is at least `threshold` bytes.
pub open spec fn at_least(threshold: usize) -> spec_fn(DuplicateGroup) -> bool {
    |g: DuplicateGroup| g.per_file_bytes >= threshold
}

impl DuplicateGroup {
    /// The value of `key` for this group.
    pub fn sort_key(&self, key: SortKey) -> (r: u128)
        ensures
            r == key_of(self@, key),
    {
        match key {
            SortKey::RedundantBytes => self.redundant_bytes(),
            SortKey::PerFileBytes => self.per_file_bytes as u128,
        }
    }
}

/// Sorts groups by ascending `key`; groups with equal keys keep their order.
pub fn sort_groups(groups: Vec<DuplicateGroup>, key: SortKey) -> (r: Vec<DuplicateGroup>)
    ensures
        sorted_by(r@, key),
        exists|perm: Seq<int>| stable_arrangement(groups@, r@, perm, key),
{
    let ghost input = groups@;
    let ghost n = input.len() as int;
    let mut rest = groups;
    let mut out: Vec<DuplicateGroup> = Vec::new();
    let ghost mut perm: Seq<int> = Seq::empty();
    while rest.len() > 0
        invariant
            rest@ == input.subrange(0, rest@.len() as int),
            out@.len() == n - rest@.len(),
            perm.len() == out@.len(),
            n == input.len(),
            forall|i: int|
                0 <= i < out@.len() ==> rest@.len() <= #[trigger] perm[i] < n && out@[i]
                    == input[perm[i]],
            forall|i: int, j: int|
                0 <= i < j < out@.len() ==> #[trigger] perm[i] != #[trigger] perm[j],
            forall|i: int, j: int|
                0 <= i < j < out@.len() && key_of(#[trigger] out@[i]@, key) == key_of(
                    #[trigger] out@[j]@,
                    key,
                ) ==> perm[i] < perm[j],
            sorted_by(out@, key),
        decreases rest@.len(),
    {
        let ghost m = rest@.len() as int;
        let x = rest.pop().unwrap();
        let kx = x.sort_key(key);
        let mut p: usize = 0;
        loop
            invariant
                p <= out@.len(),
                forall|i: int| 0 <= i < p ==> key_of(#[trigger] out@[i]@, key) < kx,
            ensures
                p <= out@.len(),
                forall|i: int| 0 <= i < p ==> key_of(#[trigger] out@[i]@, key) < kx,
                p < out@.len() ==> kx <= key_of(out@[p as int]@, key),
            decreases out@.len() - p,
        {
            if p >= out.len() {
                break;
            }
            if out[p].sort_key(key) >= kx {
                break;
            }
            p = p + 1;
        }
        let ghost old_out = out@;
        let ghost old_perm = perm;
        out.insert(p, x);
        proof {
            perm = perm.insert(p as int, m - 1);
            assert forall|i: int| 0 <= i < out@.len() implies out@[i] == if i < p {
                old_out[i]
            } else if i == p {
                x
            } else {
                old_out[i - 1]
            } by {}
            assert forall|i: int| 0 <= i < perm.len() implies perm[i] == if i < p {
                old_perm[i]
            } else if i == p {
                m - 1
            } else {
                old_perm[i - 1]
            } by {}
            assert(sorted_by(out@, key)) by {
                assert forall|i: int, j: int| 0 <= i < j < out@.len() implies key_of(
                    #[trigger] out@[i]@,
                    key,
                ) <= key_of(#[trigger] out@[j]@, key) by {
                    if j < p {
                    } else if j == p {
                    } else if i < p {
                        assert(key_of(old_out[i]@, key) < kx);
                        assert(key_of(old_out[p as int]@, key) <= key_of(old_out[j - 1]@, key));
                    } else if i == p {
                        assert(key_of(old_out[p as int]@, key) <= key_of(old_out[j - 1]@, key));
                    } else {
                    }
                }
            }
            assert forall|i: int, j: int|
                0 <= i < j < out@.len() && key_of(#[trigger] out@[i]@, key) == key_of(
                    #[trigger] out@[j]@,
                    key,
                ) implies perm[i] < perm[j] by {
                if j < p {
                } else if j == p {
                    assert(key_of(old_out[i]@, key) < kx);
                } else if i < p {
                } else if i == p {
                } else {
                }
            }
            assert(rest@ =~= input.subrange(0, rest@.len() as int));
        }
    }
    proof {
        assert(stable_arrangement(input, out@, perm, key));
    }
    out
}

/// Keeps the groups whose files are at least `threshold` bytes, in order.
pub fn filter_by_size(groups: Vec<DuplicateGroup>, threshold: usize) -> (r: Vec<DuplicateGroup>)
    ensures
        r@ == groups@.filter(at_least(threshold)),
{
    let ghost input = groups@;
    let ghost n = input.len() as int;
    let mut rest = groups;
    let mut reversed: Vec<DuplicateGroup> = Vec::new();
    while rest.len() > 0
        invariant
            rest@ == input.subrange(0, rest@.len() as int),
            reversed@.len() == n - rest@.len(),
            n == input.len(),
            forall|j: int| 0 <= j < reversed@.len() ==> #[trigger] reversed@[j] == input[n - 1 - j],
        decreases rest@.len(),
    {
        let g = rest.pop().unwrap();
        reversed.push(g);
        assert(rest@ =~= input.subrange(0, rest@.len() as int));
    }
    let mut out: Vec<DuplicateGroup> = Vec::new();
    let ghost mut i: int = 0;
    while reversed.len() > 0
        invariant
            reversed@.len() == n - i,
            0 <= i <= n,
            n == input.len(),
            forall|j: int| 0 <= j < reversed@.len() ==> #[trigger] reversed@[j] == input[n - 1 - j],
            out@ == input.take(i).filter(at_least(threshold)),
        decreases reversed@.len(),
    {
        let g = reversed.pop().unwrap();
        proof {
            assert(input.take(i + 1) =~= input.take(i).push(g));
            input.take(i).lemma_filter_push(g, at_least(threshold));
            i = i + 1;
        }
        if g.per_file_bytes >= threshold {
            out.push(g);
        }
    }
    assert(input.take(n) =~= input);
    out
}

} // verus!
