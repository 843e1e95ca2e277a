//! What a scan's outcome depends on, and what it does not.
//!
//! The outcome of a scan is a matter of which entries the walk reported, not
//! of the order in which it reported them. An entry that cannot be read
//! changes the outcome by that entry alone.

use vstd::multiset::Multiset;
use vstd::prelude::*;
use crate::aggregate::{
    contribution, cumulative_size, directory_nodes, file_total, has_dir, lemma_directory_nodes,
};
use crate::node::Node;
use crate::scanner::{file_node, file_nodes, scan_nodes};
use crate::paths::is_within;
use crate::sums::{lemma_sum_over_add, lemma_sum_over_permutation, sum_over};
use crate::traversal::{
    dir_count, entries_of, entry_of, error_count, file_count, recorded_size, total_size, wrap64,
    WalkEvent,
};

verus! {

/// What an event adds to the number of files.
pub open spec fn file_weight() -> spec_fn(WalkEvent) -> nat {
    |event: WalkEvent|
        if event is File {
            1nat
        } else {
            0nat
        }
}

/// What an event adds to the number of directories.
pub open spec fn dir_weight() -> spec_fn(WalkEvent) -> nat {
    |event: WalkEvent|
        match event {
            WalkEvent::Directory { depth, .. } => if depth > 0 {
                1nat
            } else {
                0nat
            },
            _ => 0nat,
        }
}

/// What an event adds to the number of errors.
pub open spec fn error_weight() -> spec_fn(WalkEvent) -> nat {
    |event: WalkEvent|
        if event is Unreadable {
            1nat
        } else {
            0nat
        }
}

/// What an event adds to the total size.
pub open spec fn size_weight() -> spec_fn(WalkEvent) -> nat {
    |event: WalkEvent|
        match event {
            WalkEvent::File { size, .. } => recorded_size(size) as nat,
            _ => 0nat,
        }
}

/// What an event adds to the cumulative size of `dir`.
pub open spec fn dir_size_weight(root: Seq<char>, dir: Seq<char>) -> spec_fn(WalkEvent) -> nat {
    |event: WalkEvent|
        match entry_of(event) {
            Some(entry) => contribution(entry, root, dir),
            None => 0nat,
        }
}

/// Whether an event reports a directory below the root with this path.
pub open spec fn reports_dir(event: WalkEvent, path: Seq<char>) -> bool {
    event matches WalkEvent::Directory { path: p, depth } && depth > 0 && p@ == path
}

/// The counters and sizes of a scan are sums over its events.
pub proof fn lemma_scan_sums(events: Seq<WalkEvent>, root: Seq<char>, dir: Seq<char>)
    ensures
        file_count(events) == sum_over(events, file_weight()),
        dir_count(events) == sum_over(events, dir_weight()),
        error_count(events) == sum_over(events, error_weight()),
        total_size(events) == sum_over(events, size_weight()),
        file_total(entries_of(events)) == total_size(events),
        cumulative_size(entries_of(events), root, dir) == sum_over(events, dir_size_weight(root, dir)),
    decreases events.len(),
{
    if events.len() > 0 {
        lemma_scan_sums(events.drop_last(), root, dir);
        let rest = entries_of(events.drop_last());
        match entry_of(events.last()) {
            Some(entry) => {
                assert(rest.push(entry).drop_last() =~= rest);
                assert(rest.push(entry).last() == entry);
            },
            None => {},
        }
    }
}

/// A directory is among the collected entries exactly if an event reported
/// it.
pub proof fn lemma_has_dir_events(events: Seq<WalkEvent>, path: Seq<char>)
    ensures
        has_dir(entries_of(events), path) <==> exists|i: int|
            0 <= i < events.len() && reports_dir(#[trigger] events[i], path),
    decreases events.len(),
{
    if events.len() > 0 {
        let rest = events.drop_last();
        let last = events.last();
        lemma_has_dir_events(rest, path);
        let entries = entries_of(events);
        let before = entries_of(rest);
        if has_dir(entries, path) {
            let k = choose|k: int| 0 <= k < entries.len() && (#[trigger] entries[k]).is_dir
                && entries[k].path@ == path;
            if k < before.len() {
                assert(before[k].is_dir && before[k].path@ == path);
                let i = choose|i: int| 0 <= i < rest.len() && reports_dir(#[trigger] rest[i], path);
                assert(reports_dir(events[i], path));
            } else {
                assert(reports_dir(events[events.len() - 1], path));
            }
        }
        if exists|i: int| 0 <= i < events.len() && reports_dir(#[trigger] events[i], path) {
            let i = choose|i: int| 0 <= i < events.len() && reports_dir(#[trigger] events[i], path);
            if i < rest.len() {
                assert(reports_dir(rest[i], path));
                let k = choose|k: int| 0 <= k < before.len() && (#[trigger] before[k]).is_dir
                    && before[k].path@ == path;
                assert(entries[k].is_dir && entries[k].path@ == path);
            } else {
                assert(entries[entries.len() - 1].is_dir && entries[entries.len() - 1].path@ == path);
            }
        }
    }
}

/// Where all files together fit into 64 bits, the total size of a scan is
/// exact, and no directory holds more than the total.
pub proof fn lemma_sizes_exact(events: Seq<WalkEvent>, root: Seq<char>, dir: Seq<char>)
    requires
        total_size(events) <= u64::MAX,
    ensures
        wrap64(total_size(events)) == total_size(events),
        cumulative_size(entries_of(events), root, dir) <= total_size(events),
        wrap64(cumulative_size(entries_of(events), root, dir)) == cumulative_size(
            entries_of(events),
            root,
            dir,
        ),
{
    lemma_scan_sums(events, root, dir);
    crate::aggregate::lemma_cumulative_size_bounded(entries_of(events), root, dir);
}

/// The outcome of a scan does not depend on the order in which the walk
/// reports its entries: two walks that report the same events equally often
/// count the same files, directories and errors, add up to the same total
/// size, discover the same directories, and give every directory the same
/// cumulative size.
pub proof fn lemma_order_independent(
    first: Seq<WalkEvent>,
    second: Seq<WalkEvent>,
    root: Seq<char>,
    dir: Seq<char>,
)
    requires
        first.to_multiset() == second.to_multiset(),
    ensures
        file_count(first) == file_count(second),
        dir_count(first) == dir_count(second),
        error_count(first) == error_count(second),
        total_size(first) == total_size(second),
        has_dir(entries_of(first), dir) <==> has_dir(entries_of(second), dir),
        cumulative_size(entries_of(first), root, dir) == cumulative_size(entries_of(second), root, dir),
{
    lemma_scan_sums(first, root, dir);
    lemma_scan_sums(second, root, dir);
    lemma_sum_over_permutation(first, second, file_weight());
    lemma_sum_over_permutation(first, second, dir_weight());
    lemma_sum_over_permutation(first, second, error_weight());
    lemma_sum_over_permutation(first, second, size_weight());
    lemma_sum_over_permutation(first, second, dir_size_weight(root, dir));
    lemma_has_dir_events(first, dir);
    lemma_has_dir_events(second, dir);
    lemma_reports_dir_permutation(first, second, dir);
    lemma_reports_dir_permutation(second, first, dir);
}

/// A directory that one walk reports is reported by every walk with the same
/// events.
proof fn lemma_reports_dir_permutation(first: Seq<WalkEvent>, second: Seq<WalkEvent>, path: Seq<char>)
    requires
        first.to_multiset() == second.to_multiset(),
    ensures
        (exists|i: int| 0 <= i < first.len() && reports_dir(#[trigger] first[i], path)) ==> (exists|i: int|
            0 <= i < second.len() && reports_dir(#[trigger] second[i], path)),
{
    if exists|i: int| 0 <= i < first.len() && reports_dir(#[trigger] first[i], path) {
        let i = choose|i: int| 0 <= i < first.len() && reports_dir(#[trigger] first[i], path);
        vstd::seq_lib::to_multiset_contains(first, first[i]);
        vstd::seq_lib::to_multiset_contains(second, first[i]);
        assert(first.contains(first[i]));
        let j = choose|j: int| 0 <= j < second.len() && second[j] == first[i];
        assert(reports_dir(second[j], path));
    }
}

/// The walk `before`, then `event`, then `after`.
pub open spec fn walk_with(before: Seq<WalkEvent>, event: WalkEvent, after: Seq<WalkEvent>)
    -> Seq<WalkEvent> {
    before + seq![event] + after
}

/// A file that cannot be read changes the outcome by that file alone.
///
/// Compared with the walk in which the file was read, the walk in which it
/// was not counts one error more and one file less, and the same
/// directories. Its total size is less by the size of the file, and so is
/// the cumulative size of every directory above the file; the cumulative
/// size of every other directory is the same.
pub proof fn lemma_unreadable_file(
    before: Seq<WalkEvent>,
    after: Seq<WalkEvent>,
    path: String,
    size: Option<u64>,
    depth: usize,
    root: Seq<char>,
    dir: Seq<char>,
)
    ensures
        ({
            let read = walk_with(before, WalkEvent::File { path, size, depth }, after);
            let failed = walk_with(before, WalkEvent::Unreadable, after);
            &&& error_count(failed) == error_count(read) + 1
            &&& file_count(failed) + 1 == file_count(read)
            &&& dir_count(failed) == dir_count(read)
            &&& total_size(failed) + recorded_size(size) == total_size(read)
            &&& has_dir(entries_of(failed), dir) <==> has_dir(entries_of(read), dir)
            &&& cumulative_size(entries_of(failed), root, dir) + (if is_within(path@, dir, root) {
                recorded_size(size) as nat
            } else {
                0
            }) == cumulative_size(entries_of(read), root, dir)
        }),
{
    let file = WalkEvent::File { path, size, depth };
    let read = walk_with(before, file, after);
    let failed = walk_with(before, WalkEvent::Unreadable, after);
    lemma_scan_sums(read, root, dir);
    lemma_scan_sums(failed, root, dir);
    lemma_walk_with_sum(before, file, after, file_weight());
    lemma_walk_with_sum(before, WalkEvent::Unreadable, after, file_weight());
    lemma_walk_with_sum(before, file, after, dir_weight());
    lemma_walk_with_sum(before, WalkEvent::Unreadable, after, dir_weight());
    lemma_walk_with_sum(before, file, after, error_weight());
    lemma_walk_with_sum(before, WalkEvent::Unreadable, after, error_weight());
    lemma_walk_with_sum(before, file, after, size_weight());
    lemma_walk_with_sum(before, WalkEvent::Unreadable, after, size_weight());
    lemma_walk_with_sum(before, file, after, dir_size_weight(root, dir));
    lemma_walk_with_sum(before, WalkEvent::Unreadable, after, dir_size_weight(root, dir));
    lemma_has_dir_events(read, dir);
    lemma_has_dir_events(failed, dir);
    let at = before.len() as int;
    if exists|i: int| 0 <= i < read.len() && reports_dir(#[trigger] read[i], dir) {
        let i = choose|i: int| 0 <= i < read.len() && reports_dir(#[trigger] read[i], dir);
        assert(i != at);
        assert(failed[i] == read[i]);
    }
    if exists|i: int| 0 <= i < failed.len() && reports_dir(#[trigger] failed[i], dir) {
        let i = choose|i: int| 0 <= i < failed.len() && reports_dir(#[trigger] failed[i], dir);
        assert(i != at);
        assert(read[i] == failed[i]);
    }
}

/// The sum over a walk with one event in its midst.
proof fn lemma_walk_with_sum(
    before: Seq<WalkEvent>,
    event: WalkEvent,
    after: Seq<WalkEvent>,
    weight: spec_fn(WalkEvent) -> nat,
)
    ensures
        sum_over(walk_with(before, event, after), weight) == sum_over(before, weight)
            + weight(event) + sum_over(
            after,
            weight,
        ),
{
    let one = seq![event];
    lemma_sum_over_add(before + one, after, weight);
    lemma_sum_over_add(before, one, weight);
    assert(one.drop_last() =~= Seq::<WalkEvent>::empty());
    assert(sum_over(one, weight) == weight(event)) by {
        assert(sum_over(one.drop_last(), weight) == 0);
    }
}

/// The paths and sizes of nodes, in order.
pub open spec fn paths_and_sizes(nodes: Seq<Node>) -> Seq<(Seq<char>, u64)> {
    nodes.map_values(|node: Node| (node.path@, node.size))
}

/// What an event adds to the number of file nodes with this path and size.
pub open spec fn file_pair_weight(pair: (Seq<char>, u64)) -> spec_fn(WalkEvent) -> nat {
    |event: WalkEvent|
        match event {
            WalkEvent::File { path, size, .. } => if (path@, recorded_size(size)) == pair {
                1nat
            } else {
                0nat
            },
            _ => 0nat,
        }
}

/// How often a path and size occurs among the directory nodes: once, if a
/// directory with this path was discovered and this is its cumulative size.
proof fn lemma_directory_pair_count(events: Seq<WalkEvent>, root: Seq<char>, pair: (Seq<char>, u64))
    ensures
        paths_and_sizes(directory_nodes(entries_of(events), root)).to_multiset().count(pair) == if has_dir(
            entries_of(events),
            pair.0,
        ) && pair.1 == wrap64(cumulative_size(entries_of(events), root, pair.0)) {
            1nat
        } else {
            0nat
        },
{
    broadcast use vstd::multiset::group_multiset_axioms;

    let entries = entries_of(events);
    let nodes = directory_nodes(entries, root);
    let pairs = paths_and_sizes(nodes);
    lemma_directory_nodes(entries, root);
    assert(pairs.no_duplicates()) by {
        assert forall|a: int, b: int| 0 <= a < pairs.len() && 0 <= b < pairs.len() && a != b implies pairs[a]
            != pairs[b] by {
            if a < b {
                assert(nodes[a].path@ != nodes[b].path@);
            } else {
                assert(nodes[b].path@ != nodes[a].path@);
            }
        }
    }
    pairs.lemma_multiset_has_no_duplicates();
    vstd::seq_lib::to_multiset_contains(pairs, pair);
    if has_dir(entries, pair.0) && pair.1 == wrap64(cumulative_size(entries, root, pair.0)) {
        let k = choose|k: int| 0 <= k < nodes.len() && (#[trigger] nodes[k]).path@ == pair.0;
        assert(pairs[k] == pair);
        assert(pairs.contains(pair));
        assert(pairs.to_multiset().contains(pair));
    } else {
        if pairs.contains(pair) {
            let k = choose|k: int| 0 <= k < pairs.len() && pairs[k] == pair;
            assert(nodes[k].path@ == pair.0);
            assert(has_dir(entries, nodes[k].path@));
        }
    }
}

/// How often a path and size occurs among the file nodes: once for every
/// file reported with them.
proof fn lemma_file_pair_count(events: Seq<WalkEvent>, pair: (Seq<char>, u64))
    ensures
        paths_and_sizes(file_nodes(entries_of(events))).to_multiset().count(pair) == sum_over(
            events,
            file_pair_weight(pair),
        ),
    decreases events.len(),
{
    broadcast use vstd::multiset::group_multiset_axioms;

    reveal(Seq::filter);
    if events.len() == 0 {
        assert(paths_and_sizes(file_nodes(entries_of(events))) =~= Seq::empty());
        Seq::<(Seq<char>, u64)>::empty().to_multiset_ensures();
        assert(Seq::<(Seq<char>, u64)>::empty().to_multiset() =~= Multiset::empty());
    } else {
        let rest = events.drop_last();
        lemma_file_pair_count(rest, pair);
        let before = entries_of(rest);
        match entry_of(events.last()) {
            Some(entry) => {
                let after = before.push(entry);
                assert(after.drop_last() =~= before);
                assert(after.last() == entry);
                if !entry.is_dir {
                    assert(file_nodes(after) =~= file_nodes(before).push(file_node(entry)));
                    assert(paths_and_sizes(file_nodes(after)) =~= paths_and_sizes(file_nodes(before)).push(
                        (entry.path@, entry.size),
                    ));
                    vstd::seq_lib::to_multiset_build(
                        paths_and_sizes(file_nodes(before)),
                        (entry.path@, entry.size),
                    );
                } else {
                    assert(file_nodes(after) =~= file_nodes(before));
                }
            },
            None => {},
        }
    }
}

/// The nodes of a scan do not depend on the order in which the walk reports
/// its entries: two walks that report the same events equally often give
/// the same paths with the same sizes, equally often. Only the order of the
/// nodes may differ.
pub proof fn lemma_nodes_order_independent(
    first: Seq<WalkEvent>,
    second: Seq<WalkEvent>,
    root: Seq<char>,
    include_files: bool,
)
    requires
        first.to_multiset() == second.to_multiset(),
    ensures
        paths_and_sizes(scan_nodes(entries_of(first), root, include_files)).to_multiset() == paths_and_sizes(
            scan_nodes(entries_of(second), root, include_files),
        ).to_multiset(),
{
    broadcast use vstd::multiset::group_multiset_axioms;

    let one = entries_of(first);
    let two = entries_of(second);
    let left = paths_and_sizes(scan_nodes(one, root, include_files));
    let right = paths_and_sizes(scan_nodes(two, root, include_files));
    assert forall|pair: (Seq<char>, u64)| left.to_multiset().count(pair)
        == right.to_multiset().count(pair) by {
        lemma_directory_pair_count(first, root, pair);
        lemma_directory_pair_count(second, root, pair);
        lemma_order_independent(first, second, root, pair.0);
        if include_files {
            lemma_file_pair_count(first, pair);
            lemma_file_pair_count(second, pair);
            lemma_sum_over_permutation(first, second, file_pair_weight(pair));
            assert(left =~= paths_and_sizes(directory_nodes(one, root)) + paths_and_sizes(file_nodes(one)));
            assert(right =~= paths_and_sizes(directory_nodes(two, root)) + paths_and_sizes(file_nodes(two)));
            vstd::seq_lib::lemma_multiset_commutative(
                paths_and_sizes(directory_nodes(one, root)),
                paths_and_sizes(file_nodes(one)),
            );
            vstd::seq_lib::lemma_multiset_commutative(
                paths_and_sizes(directory_nodes(two, root)),
                paths_and_sizes(file_nodes(two)),
            );
        }
    }
    assert(left.to_multiset() =~= right.to_multiset());
}

} // verus!
