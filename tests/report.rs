use dupe_summary::group::DuplicateGroup;
use dupe_summary::parser::{parse_lines, ReportParser};
use dupe_summary::rank::{filter_by_size, sort_groups, SortKey};
use dupe_summary::summary::{
    biggest_group, file_size_range, largest_file, largest_redundant, summarize, total_duplicates,
    total_wasted,
};
use dupe_summary::tree::TreeNode;

const MIB: usize = 1024 * 1024;

fn lines(text: &[&str]) -> Vec<String> {
    text.iter().map(|s| s.to_string()).collect()
}

fn group(bytes: usize, paths: &[&str]) -> DuplicateGroup {
    DuplicateGroup { per_file_bytes: bytes, paths: lines(paths) }
}

fn scenario_one() -> Vec<String> {
    lines(&[
        "104857600 bytes each:",
        "/a/x.bin",
        "/a/y.bin",
        "",
        "2097152 bytes each:",
        "/b/p.txt",
        "/b/q.txt",
        "/b/r.txt",
    ])
}

#[test]
fn two_blocks_with_threshold() {
    let groups = parse_lines(&scenario_one());
    assert_eq!(groups.len(), 2);
    assert_eq!(groups[0].per_file_bytes, 104857600);
    assert_eq!(groups[0].paths, vec!["/a/x.bin", "/a/y.bin"]);
    assert_eq!(groups[1].per_file_bytes, 2097152);
    assert_eq!(groups[1].paths, vec!["/b/p.txt", "/b/q.txt", "/b/r.txt"]);

    assert_eq!(groups[0].redundant_bytes(), 104857600);
    assert_eq!(total_duplicates(&groups), 3);

    let sorted = sort_groups(groups, SortKey::RedundantBytes);
    let shown = filter_by_size(sorted.clone(), 10 * MIB);
    assert_eq!(shown.len(), 1);
    assert_eq!(shown[0].per_file_bytes, 104857600);
    assert_eq!(total_wasted(&shown), Some(100 * MIB as u128));

    let s = summarize(&sorted, &shown);
    assert_eq!(s.total_duplicates, 3);
    assert_eq!(s.total_wasted, Some(104857600));
    assert_eq!(s.biggest_file, 104857600);
    assert_eq!(s.biggest_group, Some(104857600));
}

#[test]
fn malformed_header_yields_no_group() {
    let groups = parse_lines(&lines(&["not-a-number bytes each:", "/x/a", "/x/b", ""]));
    assert!(groups.is_empty());
}

#[test]
fn block_without_trailing_blank_is_flushed() {
    let groups = parse_lines(&lines(&["10 bytes each:", "/a", "/b"]));
    assert_eq!(groups.len(), 1);
    assert_eq!(groups[0].per_file_bytes, 10);
    assert_eq!(groups[0].paths, vec!["/a", "/b"]);
}

#[test]
fn empty_input_has_no_biggest() {
    let groups = parse_lines(&Vec::new());
    assert!(groups.is_empty());
    assert_eq!(biggest_group(&groups), None);
    assert_eq!(file_size_range(&groups), None);
    assert_eq!(largest_redundant(&groups), None);
    assert_eq!(largest_file(&groups), 0);
    assert_eq!(total_duplicates(&groups), 0);
    assert_eq!(total_wasted(&groups), Some(0));
    let s = summarize(&groups, &groups);
    assert_eq!(s.biggest_group, None);
}

#[test]
fn lines_are_trimmed() {
    let groups = parse_lines(&lines(&["  7 bytes each:  ", "\t/a b/c  ", "   ", "/ignored"]));
    assert_eq!(groups.len(), 1);
    assert_eq!(groups[0].per_file_bytes, 7);
    assert_eq!(groups[0].paths, vec!["/a b/c"]);
}

#[test]
fn header_token_syntax() {
    let groups = parse_lines(&lines(&[
        "+5 bytes each:",
        "/p",
        "",
        "-5 bytes each:",
        "/q",
        "",
        "18446744073709551616 bytes each:",
        "/r",
        "",
        "12\tbytes each:",
        "/s",
    ]));
    assert_eq!(groups.len(), 2);
    assert_eq!(groups[0].per_file_bytes, 5);
    assert_eq!(groups[0].paths, vec!["/p"]);
    assert_eq!(groups[1].per_file_bytes, 12);
    assert_eq!(groups[1].paths, vec!["/s"]);
}

#[test]
fn line_without_header_suffix_is_a_path() {
    let groups = parse_lines(&lines(&["3 bytes each:", "4 bytes each", "/z"]));
    assert_eq!(groups.len(), 1);
    assert_eq!(groups[0].paths, vec!["4 bytes each", "/z"]);
}

#[test]
fn header_inside_block_starts_new_group() {
    let groups = parse_lines(&lines(&["1 bytes each:", "/a", "2 bytes each:", "/b", "/c"]));
    assert_eq!(groups.len(), 2);
    assert_eq!(groups[0].per_file_bytes, 1);
    assert_eq!(groups[0].paths, vec!["/a"]);
    assert_eq!(groups[1].per_file_bytes, 2);
    assert_eq!(groups[1].paths, vec!["/b", "/c"]);
}

#[test]
fn malformed_header_inside_block_is_dropped() {
    let groups = parse_lines(&lines(&["1 bytes each:", "/a", "x bytes each:", "/b"]));
    assert_eq!(groups.len(), 1);
    assert_eq!(groups[0].paths, vec!["/a", "/b"]);
}

#[test]
fn one_group_per_header() {
    let input = lines(&[
        "1 bytes each:",
        "",
        "2 bytes each:",
        "/a",
        "bad bytes each:",
        "3 bytes each:",
        "",
        "",
        "4 bytes each:",
    ]);
    let groups = parse_lines(&input);
    assert_eq!(groups.len(), 4);
    let sizes: Vec<usize> = groups.iter().map(|g| g.per_file_bytes).collect();
    assert_eq!(sizes, vec![1, 2, 3, 4]);
}

#[test]
fn streaming_parser_matches_whole_parse() {
    let input = scenario_one();
    let mut p = ReportParser::new();
    for l in &input {
        p.feed_line(l);
    }
    let streamed = p.finish();
    let whole = parse_lines(&input);
    assert_eq!(streamed.len(), whole.len());
    for (a, b) in streamed.iter().zip(whole.iter()) {
        assert_eq!(a.per_file_bytes, b.per_file_bytes);
        assert_eq!(a.paths, b.paths);
    }
}

#[test]
fn duplicate_counts_never_underflow() {
    let empty = group(100, &[]);
    assert_eq!(empty.duplicate_count(), 0);
    assert_eq!(empty.redundant_bytes(), 0);
    let single = group(100, &["/a"]);
    assert_eq!(single.duplicate_count(), 0);
    assert_eq!(single.redundant_bytes(), 0);
    let three = group(100, &["/a", "/b", "/c"]);
    assert_eq!(three.duplicate_count(), 2);
    assert_eq!(three.redundant_bytes(), 200);
}

#[test]
fn redundant_bytes_of_largest_sizes() {
    let g = group(usize::MAX, &["/a", "/b", "/c"]);
    assert_eq!(g.redundant_bytes(), usize::MAX as u128 * 2);
}

#[test]
fn sort_by_redundant_is_stable() {
    let groups = vec![
        group(10, &["/a", "/b", "/c"]),
        group(20, &["/d", "/e"]),
        group(5, &["/f", "/g"]),
        group(1, &["/h"]),
    ];
    let sorted = sort_groups(groups, SortKey::RedundantBytes);
    let firsts: Vec<String> = sorted.iter().map(|g| g.paths[0].clone()).collect();
    assert_eq!(firsts, vec!["/h", "/f", "/a", "/d"]);
}

#[test]
fn sort_by_file_size_is_stable() {
    let groups = vec![
        group(7, &["/a"]),
        group(3, &["/b"]),
        group(7, &["/c"]),
        group(3, &["/d"]),
    ];
    let sorted = sort_groups(groups, SortKey::PerFileBytes);
    let firsts: Vec<String> = sorted.iter().map(|g| g.paths[0].clone()).collect();
    assert_eq!(firsts, vec!["/b", "/d", "/a", "/c"]);
    assert_eq!(file_size_range(&sorted), Some((3, 7)));
}

#[test]
fn sorted_keys_never_decrease() {
    let groups = vec![
        group(9, &["/a", "/b"]),
        group(2, &["/c", "/d", "/e", "/f"]),
        group(4, &["/g", "/h", "/i"]),
        group(0, &["/j", "/k"]),
    ];
    let sorted = sort_groups(groups, SortKey::RedundantBytes);
    let keys: Vec<u128> = sorted.iter().map(|g| g.redundant_bytes()).collect();
    assert_eq!(keys, vec![0, 6, 8, 9]);
}

#[test]
fn filter_keeps_order_and_threshold_is_inclusive() {
    let groups = vec![
        group(5, &["/a", "/b"]),
        group(1, &["/c", "/d"]),
        group(9, &["/e", "/f"]),
        group(4, &["/g", "/h"]),
    ];
    let shown = filter_by_size(groups, 5);
    let sizes: Vec<usize> = shown.iter().map(|g| g.per_file_bytes).collect();
    assert_eq!(sizes, vec![5, 9]);
    assert_eq!(shown[0].paths, vec!["/a", "/b"]);
    assert_eq!(shown[1].paths, vec!["/e", "/f"]);
}

#[test]
fn shown_paths_round_trip() {
    let groups = parse_lines(&scenario_one());
    let sorted = sort_groups(groups, SortKey::PerFileBytes);
    let shown = filter_by_size(sorted, MIB);
    assert_eq!(shown.len(), 2);
    assert_eq!(shown[0].paths, vec!["/b/p.txt", "/b/q.txt", "/b/r.txt"]);
    assert_eq!(shown[1].paths, vec!["/a/x.bin", "/a/y.bin"]);
}

#[test]
fn biggest_group_may_be_filtered_out() {
    let groups = vec![group(20, &["/big1", "/big2"]), group(1, &["/s1", "/s2", "/s3", "/s4", "/s5"])];
    let sorted = sort_groups(groups, SortKey::RedundantBytes);
    let shown = filter_by_size(sorted.clone(), 10);
    let s = summarize(&sorted, &shown);
    assert_eq!(s.total_duplicates, 5);
    assert_eq!(s.total_wasted, Some(20));
    assert_eq!(s.biggest_file, 20);
    assert_eq!(s.biggest_group, Some(20));

    let small_first = sort_groups(
        vec![group(1, &["/s1", "/s2", "/s3", "/s4", "/s5", "/s6", "/s7", "/s8", "/s9", "/s10", "/s11", "/s12", "/s13", "/s14", "/s15", "/s16", "/s17", "/s18", "/s19", "/s20", "/s21", "/s22"]),
             group(20, &["/big1", "/big2"])],
        SortKey::RedundantBytes,
    );
    let shown2 = filter_by_size(small_first.clone(), 10);
    let s2 = summarize(&small_first, &shown2);
    assert_eq!(s2.biggest_group, Some(21));
    assert_eq!(s2.biggest_file, 20);
    assert_eq!(s2.total_wasted, Some(20));
    assert_eq!(largest_redundant(&shown2), Some(20));
}

#[test]
fn largest_values_over_groups() {
    let groups = vec![group(3, &["/a", "/b", "/c"]), group(8, &["/d"]), group(5, &["/e", "/f"])];
    assert_eq!(largest_file(&groups), 8);
    assert_eq!(largest_redundant(&groups), Some(6));
    assert_eq!(biggest_group(&groups), Some(5));
    assert_eq!(total_duplicates(&groups), 3);
    assert_eq!(total_wasted(&groups), Some(11));
}

#[test]
fn tree_shares_prefixes() {
    let mut t = TreeNode::new();
    assert_eq!(t.node_count(), 0);
    t.add_path(&lines(&["", "a", "x.bin"]));
    t.add_path(&lines(&["", "a", "y.bin"]));
    t.add_path(&lines(&["", "b"]));
    assert_eq!(t.node_count(), 5);
    assert_eq!(t.segment(0), "");
    assert_eq!(t.parent(0), None);
    assert_eq!(t.segment(1), "a");
    assert_eq!(t.parent(1), Some(0));
    assert_eq!(t.segment(3), "y.bin");
    assert_eq!(t.parent(3), Some(1));
    assert_eq!(t.segment(4), "b");
    assert_eq!(t.parent(4), Some(0));
    t.add_path(&lines(&["", "a"]));
    assert_eq!(t.node_count(), 5);
}
