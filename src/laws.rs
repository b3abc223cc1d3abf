//! Properties that relate the parser, the ranking and the filter.

use vstd::prelude::*;
use crate::group::{DuplicateGroup, GroupModel, duplicates_of, redundant_of};
use crate::parser::{LineKind, ParseModel, classify, run, parse_model, flushed, initial_model};
use crate::text::trimmed;
use crate::rank::{SortKey, stable_arrangement, at_least};

verus! {

/// Number of lines of `lines` that are well-formed headers.
pub open spec fn header_count(lines: Seq<Seq<char>>) -> nat
    decreases lines.len(),
{
    if lines.len() == 0 {
        0
    } else {
        header_count(lines.drop_last()) + if classify(lines.last()) is Header {
            1nat
        } else {
            0nat
        }
    }
}

/// Parsing yields exactly one group per well-formed header line; malformed
/// headers yield none.
pub proof fn lemma_one_group_per_header(lines: Seq<Seq<char>>)
    ensures
        parse_model(lines).len() == header_count(lines),
    decreases lines.len(),
{
    if lines.len() > 0 {
        lemma_one_group_per_header(lines.drop_last());
        let st = run(lines.drop_last());
        match classify(lines.last()) {
            LineKind::Blank => {},
            LineKind::Header(_) => {},
            LineKind::Ignored => {},
            LineKind::Entry(_) => {},
        }
        assert(flushed(run(lines)).len() == flushed(st).len() + if classify(
            lines.last(),
        ) is Header {
            1nat
        } else {
            0nat
        });
    }
}

proof fn lemma_block_run(lines: Seq<Seq<char>>, n: nat)
    requires
        lines.len() >= 1,
        classify(lines[0]) == LineKind::Header(n),
        forall|i: int| 1 <= i < lines.len() ==> #[trigger] classify(lines[i]) is Entry,
    ensures
        run(lines) == (ParseModel {
            done: Seq::empty(),
            open: Some(
                GroupModel {
                    per_file_bytes: n,
                    paths: lines.drop_first().map_values(|l: Seq<char>| trimmed(l)),
                },
            ),
        }),
    decreases lines.len(),
{
    if lines.len() == 1 {
        assert(lines.drop_last() =~= Seq::<Seq<char>>::empty());
        assert(run(lines.drop_last()) == initial_model());
        assert(lines.drop_first().map_values(|l: Seq<char>| trimmed(l)) =~= Seq::<
            Seq<char>,
        >::empty());
    } else {
        let init = lines.drop_last();
        assert forall|i: int| 1 <= i < init.len() implies #[trigger] classify(init[i]) is Entry by {
            assert(init[i] == lines[i]);
        }
        lemma_block_run(init, n);
        assert(classify(lines[lines.len() - 1]) is Entry);
        assert(init.drop_first().map_values(|l: Seq<char>| trimmed(l)).push(trimmed(lines.last()))
            =~= lines.drop_first().map_values(|l: Seq<char>| trimmed(l)));
    }
}

/// A block made of a well-formed header and the lines that follow it,
/// up to the end of the input, parses to one group whose paths are those
/// lines, trimmed, in the same order.
pub proof fn lemma_block_paths(lines: Seq<Seq<char>>, n: nat)
    requires
        lines.len() >= 1,
        classify(lines[0]) == LineKind::Header(n),
        forall|i: int| 1 <= i < lines.len() ==> #[trigger] classify(lines[i]) is Entry,
    ensures
        parse_model(lines) == seq![
            GroupModel {
                per_file_bytes: n,
                paths: lines.drop_first().map_values(|l: Seq<char>| trimmed(l)),
            },
        ],
{
    lemma_block_run(lines, n);
    assert(parse_model(lines) =~= seq![
        GroupModel {
            per_file_bytes: n,
            paths: lines.drop_first().map_values(|l: Seq<char>| trimmed(l)),
        },
    ]);
}

/// An empty report has no groups.
pub proof fn lemma_empty_report()
    ensures
        parse_model(Seq::empty()).len() == 0,
{
}

/// The redundant size of a group is its per-file size times the number of
/// its paths beyond the first, and a group without paths wastes nothing.
pub proof fn lemma_redundant_formula(g: GroupModel)
    ensures
        g.paths.len() >= 1 ==> redundant_of(g) == g.per_file_bytes * (g.paths.len() - 1),
        g.paths.len() == 0 ==> redundant_of(g) == 0,
        redundant_of(g) >= 0,
        duplicates_of(g) <= g.paths.len(),
{
    assert(g.per_file_bytes * 0 == 0) by (nonlinear_arith);
}

/// Filtering keeps exactly the groups at or above the threshold: each kept
/// group meets it, and each group that meets it is kept.
pub proof fn lemma_filter_exact(s: Seq<DuplicateGroup>, threshold: usize)
    ensures
        forall|i: int|
            0 <= i < s.filter(at_least(threshold)).len() ==> (#[trigger] s.filter(
                at_least(threshold),
            )[i]).per_file_bytes >= threshold,
        forall|i: int|
            0 <= i < s.len() && (#[trigger] s[i]).per_file_bytes >= threshold ==> s.filter(
                at_least(threshold),
            ).contains(s[i]),
{
    assert forall|i: int| 0 <= i < s.filter(at_least(threshold)).len() implies (#[trigger] s.filter(
        at_least(threshold),
    )[i]).per_file_bytes >= threshold by {
        s.lemma_filter_pred(at_least(threshold), i);
    }
    assert forall|i: int| 0 <= i < s.len() && (#[trigger] s[i]).per_file_bytes >= threshold implies s.filter(
        at_least(threshold),
    ).contains(s[i]) by {
        s.lemma_filter_contains(at_least(threshold), i);
    }
}

/// Ranking and then filtering parsed groups shows each group as parsed:
/// the very group, with the same size and the same paths in the same order.
pub proof fn lemma_shown_groups_as_parsed(
    parsed: Seq<DuplicateGroup>,
    sorted: Seq<DuplicateGroup>,
    perm: Seq<int>,
    key: SortKey,
    threshold: usize,
)
    requires
        stable_arrangement(parsed, sorted, perm, key),
    ensures
        forall|i: int|
            0 <= i < sorted.filter(at_least(threshold)).len() ==> parsed.contains(
                #[trigger] sorted.filter(at_least(threshold))[i],
            ),
{
    assert forall|i: int| 0 <= i < sorted.filter(at_least(threshold)).len() implies parsed.contains(
        #[trigger] sorted.filter(at_least(threshold))[i],
    ) by {
        let shown = sorted.filter(at_least(threshold));
        assert(shown.contains(shown[i]));
        sorted.lemma_filter_contains_rev(at_least(threshold), shown[i]);
        let k = choose|k: int| 0 <= k < sorted.len() && sorted[k] == shown[i];
        assert(sorted[k] == parsed[perm[k]]);
    }
}

} // verus!
