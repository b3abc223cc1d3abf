//! Aggregate statistics over sequences of duplicate groups.
//!
//! Every statistic here is computed over the sequence it is given. The
//! summary of a report combines two sequences: all groups, sorted, and the
//! groups shown after filtering (see [`summarize`]).

use vstd::prelude::*;
use crate::group::{DuplicateGroup, duplicates_of, redundant_of};

verus! {

/// Sum of the duplicate counts of `s`.
pub open spec fn sum_duplicates(s: Seq<DuplicateGroup>) -> nat
    decreases s.len(),
{
    if s.len() == 0 {
        0
    } else {
        sum_duplicates(s.drop_last()) + duplicates_of(s.last()@)
    }
}

/// Sum of the redundant bytes of `s`.
pub open spec fn sum_redundant(s: Seq<DuplicateGroup>) -> nat
    decreases s.len(),
{
    if s.len() == 0 {
        0
    } else {
        sum_redundant(s.drop_last()) + redundant_of(s.last()@)
    }
}

/// Largest per-file size in `s`, or 0 when `s` is empty.
pub open spec fn max_file_size(s: Seq<DuplicateGroup>) -> nat
    decreases s.len(),
{
    if s.len() == 0 {
        0
    } else {
        let m = max_file_size(s.drop_last());
        let b = s.last().per_file_bytes as nat;
        if b > m {
            b
        } else {
            m
        }
    }
}

/// Largest redundant size in `s`, or 0 when `s` is empty.
pub open spec fn max_redundant(s: Seq<DuplicateGroup>) -> nat
    decreases s.len(),
{
    if s.len() == 0 {
        0
    } else {
        let m = max_redundant(s.drop_last());
        let r = redundant_of(s.last()@);
        if r > m {
            r
        } else {
            m
        }
    }
}

proof fn lemma_sum_redundant_prefix(s: Seq<DuplicateGroup>, i: int)
    requires
        0 <= i <= s.len(),
    ensures
        sum_redundant(s.take(i)) <= sum_redundant(s),
    decreases s.len(),
{
    if i == s.len() {
        assert(s.take(i) =~= s);
    } else {
        assert(s.drop_last().take(i) =~= s.take(i));
        lemma_sum_redundant_prefix(s.drop_last(), i);
    }
}

/// Total number of duplicate files: every path of a group but the first.
pub fn total_duplicates(groups: &Vec<DuplicateGroup>) -> (r: u128)
    ensures
        r == sum_duplicates(groups@),
{
    let mut acc: u128 = 0;
    let mut i: usize = 0;
    while i < groups.len()
        invariant
            i <= groups@.len(),
            acc == sum_duplicates(groups@.take(i as int)),
            acc <= i * 0xffff_ffff_ffff_ffff,
        decreases groups@.len() - i,
    {
        let d = groups[i].duplicate_count();
        assert(groups@.take(i as int + 1).drop_last() =~= groups@.take(i as int));
        assert(acc + d <= (i + 1) * 0xffff_ffff_ffff_ffff) by (nonlinear_arith)
            requires
                acc <= i * 0xffff_ffff_ffff_ffff,
                d as int <= 0xffff_ffff_ffff_ffff,
        ;
        assert((i + 1) * 0xffff_ffff_ffff_ffff <= 0xffff_ffff_ffff_ffff * 0xffff_ffff_ffff_ffff)
            by (nonlinear_arith)
            requires
                i as int + 1 <= 0xffff_ffff_ffff_ffff,
        ;
        acc = acc + d as u128;
        i = i + 1;
    }
    assert(groups@.take(i as int) =~= groups@);
    acc
}

/// Total redundant bytes, or `None` when the total does not fit in `u128`.
pub fn total_wasted(groups: &Vec<DuplicateGroup>) -> (r: Option<u128>)
    ensures
        match r {
            Some(t) => t == sum_redundant(groups@),
            None => sum_redundant(groups@) > u128::MAX,
        },
{
    let mut acc: u128 = 0;
    let mut i: usize = 0;
    while i < groups.len()
        invariant
            i <= groups@.len(),
            acc == sum_redundant(groups@.take(i as int)),
        decreases groups@.len() - i,
    {
        let w = groups[i].redundant_bytes();
        assert(groups@.take(i as int + 1).drop_last() =~= groups@.take(i as int));
        match acc.checked_add(w) {
            Some(next) => { acc = next; },
            None => {
                proof {
                    lemma_sum_redundant_prefix(groups@, i as int + 1);
                }
                return None;
            },
        }
        i = i + 1;
    }
    assert(groups@.take(i as int) =~= groups@);
    Some(acc)
}

/// Largest per-file size, or 0 when there are no groups.
pub fn largest_file(groups: &Vec<DuplicateGroup>) -> (r: usize)
    ensures
        r == max_file_size(groups@),
{
    let mut best: usize = 0;
    let mut i: usize = 0;
    while i < groups.len()
        invariant
            i <= groups@.len(),
            best == max_file_size(groups@.take(i as int)),
        decreases groups@.len() - i,
    {
        assert(groups@.take(i as int + 1).drop_last() =~= groups@.take(i as int));
        if groups[i].per_file_bytes > best {
            best = groups[i].per_file_bytes;
        }
        i = i + 1;
    }
    assert(groups@.take(i as int) =~= groups@);
    best
}

/// Largest redundant size, or `None` when there are no groups.
pub fn largest_redundant(groups: &Vec<DuplicateGroup>) -> (r: Option<u128>)
    ensures
        groups@.len() == 0 <==> r is None,
        r matches Some(m) ==> m == max_redundant(groups@),
{
    if groups.len() == 0 {
        return None;
    }
    let mut best: u128 = 0;
    let mut i: usize = 0;
    while i < groups.len()
        invariant
            i <= groups@.len(),
            best == max_redundant(groups@.take(i as int)),
        decreases groups@.len() - i,
    {
        assert(groups@.take(i as int + 1).drop_last() =~= groups@.take(i as int));
        let w = groups[i].redundant_bytes();
        if w > best {
            best = w;
        }
        i = i + 1;
    }
    assert(groups@.take(i as int) =~= groups@);
    Some(best)
}

/// Redundant size of the last group, which is the biggest in a sequence
/// sorted by redundant size; `None` when there are no groups.
pub fn biggest_group(groups: &Vec<DuplicateGroup>) -> (r: Option<u128>)
    ensures
        groups@.len() == 0 <==> r is None,
        r matches Some(m) ==> m == redundant_of(groups@.last()@),
{
    if groups.len() == 0 {
        None
    } else {
        Some(groups[groups.len() - 1].redundant_bytes())
    }
}

/// Per-file sizes of the first and the last group, the smallest and the
/// largest in a sequence sorted by per-file size; `None` when there are no
/// groups.
pub fn file_size_range(groups: &Vec<DuplicateGroup>) -> (r: Option<(usize, usize)>)
    ensures
        groups@.len() == 0 <==> r is None,
        r matches Some(p) ==> p.0 == groups@[0].per_file_bytes && p.1
            == groups@.last().per_file_bytes,
{
    if groups.len() == 0 {
        None
    } else {
        Some((groups[0].per_file_bytes, groups[groups.len() - 1].per_file_bytes))
    }
}

/// The closing statistics of a report.
pub struct Summary {
    /// Duplicate files over all groups, shown or not.
    pub total_duplicates: u128,
    /// Redundant bytes over the shown groups; `None` when beyond `u128`.
    pub total_wasted: Option<u128>,
    /// Largest per-file size among the shown groups, 0 when none is shown.
    pub biggest_file: usize,
    /// Redundant size of the last of all groups; `None` when there are none.
    pub biggest_group: Option<u128>,
}

/// Summarises a report from all its groups, sorted by redundant size, and
/// the groups shown. Duplicate counts and the biggest group come from all
/// groups; wasted bytes and the biggest file from the shown ones only, so
/// the biggest group may be one that the filter hid.
pub fn summarize(all: &Vec<DuplicateGroup>, shown: &Vec<DuplicateGroup>) -> (r: Summary)
    ensures
        r.total_duplicates == sum_duplicates(all@),
        match r.total_wasted {
            Some(t) => t == sum_redundant(shown@),
            None => sum_redundant(shown@) > u128::MAX,
        },
        r.biggest_file == max_file_size(shown@),
        all@.len() == 0 <==> r.biggest_group is None,
        r.biggest_group matches Some(m) ==> m == redundant_of(all@.last()@),
{
    Summary {
        total_duplicates: total_duplicates(all),
        total_wasted: total_wasted(shown),
        biggest_file: largest_file(shown),
        biggest_group: biggest_group(all),
    }
}

} // verus!
