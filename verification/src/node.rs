//! Data structures representing file system entries with their sizes.

use vstd::multiset::Multiset;
use vstd::prelude::*;

verus! {

/// Represents a file system entry (file or directory) with its size.
#[derive(Debug, Clone)]
pub struct Node {
    /// Absolute path to the entry
    pub path: String,
    /// Size in bytes; for a directory, the sum over the files below it
    pub size: u64,
    /// Whether this is a directory
    pub is_dir: bool,
    /// Depth relative to the scan root
    pub depth: usize,
}

impl Node {
    /// Create a new Node
    pub fn new(path: String, size: u64, is_dir: bool, depth: usize) -> (node: Self)
        ensures
            node == (Node { path, size, is_dir, depth }),
    {
        Node { path, size, is_dir, depth }
    }
}

/// Collection of nodes with aggregate statistics
#[derive(Debug, Clone)]
pub struct ScanResult {
    /// All scanned entries
    pub nodes: Vec<Node>,
    /// Total size of all files scanned
    pub total_size: u64,
    /// Total number of files scanned
    pub file_count: u64,
    /// Total number of directories scanned
    pub dir_count: u64,
    /// Number of errors encountered
    pub error_count: u64,
}

impl Default for ScanResult {
    fn default() -> (result: Self)
        ensures
            result.nodes@ == Seq::<Node>::empty(),
            result.total_size == 0,
            result.file_count == 0,
            result.dir_count == 0,
            result.error_count == 0,
    {
        ScanResult { nodes: Vec::new(), total_size: 0, file_count: 0, dir_count: 0, error_count: 0 }
    }
}

/// Whether the sizes never increase along the sequence.
pub open spec fn sorted_by_size_desc(nodes: Seq<Node>) -> bool {
    forall|i: int, j: int| 0 <= i < j < nodes.len() ==> nodes[i].size >= nodes[j].size
}

/// The nodes of one size, in the order in which they stand.
pub open spec fn with_size(nodes: Seq<Node>, size: u64) -> Seq<Node> {
    nodes.filter(|n: Node| n.size == size)
}

/// Whether `after` is `before` sorted by descending size, with nodes of equal
/// size left in their prior relative order.
///
/// For every size, the nodes of that size are the same in both sequences and
/// stand in the same order; so `after` holds exactly the nodes of `before`.
pub open spec fn is_stable_sort_desc(before: Seq<Node>, after: Seq<Node>) -> bool {
    &&& sorted_by_size_desc(after)
    &&& forall|size: u64| #[trigger] with_size(after, size) == with_size(before, size)
}

/// The nodes that a depth filter retains.
pub open spec fn within_depth(nodes: Seq<Node>, max_depth: usize) -> Seq<Node> {
    nodes.filter(|n: Node| n.depth <= max_depth)
}

/// The directories among the nodes.
pub open spec fn dirs_only(nodes: Seq<Node>) -> Seq<Node> {
    nodes.filter(|n: Node| n.is_dir)
}

/// The first `n` nodes, or all of them if there are fewer.
pub open spec fn first_n(nodes: Seq<Node>, n: usize) -> Seq<Node> {
    if n <= nodes.len() {
        nodes.take(n as int)
    } else {
        nodes
    }
}

/// The nodes of one size, of a sequence with one node put in front.
proof fn lemma_with_size_prepend(node: Node, nodes: Seq<Node>, size: u64)
    ensures
        with_size(seq![node] + nodes, size) == if node.size == size {
            seq![node] + with_size(nodes, size)
        } else {
            with_size(nodes, size)
        },
{
    nodes.lemma_filter_prepend(node, |n: Node| n.size == size);
    if node.size != size {
        assert(Seq::<Node>::empty() + with_size(nodes, size) =~= with_size(nodes, size));
    }
}

/// Where no node has the size, there are no nodes of that size.
proof fn lemma_with_size_none(nodes: Seq<Node>, size: u64)
    requires
        forall|i: int| 0 <= i < nodes.len() ==> nodes[i].size != size,
    ensures
        with_size(nodes, size) == Seq::<Node>::empty(),
    decreases nodes.len(),
{
    reveal(Seq::filter);
    if nodes.len() > 0 {
        lemma_with_size_none(nodes.drop_last(), size);
    }
}

/// Merges two sorted sequences into one; of two nodes of equal size, the one
/// from `left` comes first.
fn merge(left: Vec<Node>, right: Vec<Node>) -> (out: Vec<Node>)
    requires
        sorted_by_size_desc(left@),
        sorted_by_size_desc(right@),
    ensures
        sorted_by_size_desc(out@),
        forall|size: u64| #[trigger] with_size(out@, size) == with_size(left@, size)
            + with_size(right@, size),
{
    let ghost l0 = left@;
    let ghost r0 = right@;
    let mut left = left;
    let mut right = right;
    // The merged nodes, smallest first.
    let mut rev: Vec<Node> = Vec::new();
    let ghost mut tail: Seq<Node> = Seq::empty();
    proof {
        assert(l0.skip(l0.len() as int) =~= Seq::<Node>::empty());
        assert(r0.skip(r0.len() as int) =~= Seq::<Node>::empty());
        assert(l0.take(l0.len() as int) =~= l0);
        assert(r0.take(r0.len() as int) =~= r0);
        assert(rev@.reverse() =~= tail);
        assert forall|size: u64| #[trigger]
            with_size(tail, size) == with_size(l0.skip(l0.len() as int), size) + with_size(
                r0.skip(r0.len() as int),
                size,
            ) by {
            lemma_with_size_none(Seq::empty(), size);
            assert(Seq::<Node>::empty() + Seq::<Node>::empty() =~= Seq::<Node>::empty());
        }
    }
    while left.len() > 0 || right.len() > 0
        invariant
            sorted_by_size_desc(l0),
            sorted_by_size_desc(r0),
            left@.len() <= l0.len(),
            right@.len() <= r0.len(),
            left@ == l0.take(left@.len() as int),
            right@ == r0.take(right@.len() as int),
            rev@.reverse() == tail,
            sorted_by_size_desc(tail),
            tail.len() > 0 ==> forall|i: int| 0 <= i < left@.len() ==> l0[i].size >= tail[0].size,
            tail.len() > 0 ==> forall|i: int| 0 <= i < right@.len() ==> r0[i].size >= tail[0].size,
            right@.len() > 0 ==> forall|i: int|
                left@.len() <= i < l0.len() ==> l0[i].size < r0[right@.len() - 1].size,
            forall|size: u64| #[trigger]
                with_size(tail, size) == with_size(l0.skip(left@.len() as int), size) + with_size(
                    r0.skip(right@.len() as int),
                    size,
                ),
        decreases left@.len() + right@.len(),
    {
        let a: usize = left.len();
        let b: usize = right.len();
        let from_right: bool = if b == 0 {
            false
        } else if a == 0 {
            true
        } else {
            right[b - 1].size <= left[a - 1].size
        };
        let ghost old_tail = tail;
        if from_right {
            let node = right.pop().unwrap();
            proof {
                tail = seq![node] + old_tail;
                assert(r0.skip(b - 1) =~= seq![node] + r0.skip(b as int));
                assert(right@ =~= r0.take(b - 1));
                assert forall|size: u64| #[trigger] with_size(tail, size)
                    == with_size(l0.skip(a as int), size)
                    + with_size(r0.skip(b - 1), size) by {
                    lemma_with_size_prepend(node, old_tail, size);
                    lemma_with_size_prepend(node, r0.skip(b as int), size);
                    let of_left = with_size(l0.skip(a as int), size);
                    let of_right = with_size(r0.skip(b as int), size);
                    assert(with_size(old_tail, size) == of_left + of_right);
                    if node.size == size {
                        // Every node taken from the left is larger than this one.
                        lemma_with_size_none(l0.skip(a as int), size);
                        assert(seq![node] + (of_left + of_right) =~= of_left + (seq![node] + of_right));
                    }
                }
            }
            rev.push(node);
        } else {
            let node = left.pop().unwrap();
            proof {
                tail = seq![node] + old_tail;
                assert(l0.skip(a - 1) =~= seq![node] + l0.skip(a as int));
                assert(left@ =~= l0.take(a - 1));
                assert forall|size: u64| #[trigger] with_size(tail, size) == with_size(l0.skip(a - 1), size)
                    + with_size(r0.skip(b as int), size) by {
                    lemma_with_size_prepend(node, old_tail, size);
                    lemma_with_size_prepend(node, l0.skip(a as int), size);
                    let of_left = with_size(l0.skip(a as int), size);
                    let of_right = with_size(r0.skip(b as int), size);
                    assert(with_size(old_tail, size) == of_left + of_right);
                    if node.size == size {
                        assert(seq![node] + (of_left + of_right) =~= (seq![node] + of_left) + of_right);
                    }
                }
            }
            rev.push(node);
        }
        proof {
            assert(rev@.reverse() =~= tail);
            assert(sorted_by_size_desc(tail)) by {
                assert forall|i: int, j: int| 0 <= i < j < tail.len()
                    implies tail[i].size >= tail[j].size by {
                    if i > 0 {
                        assert(tail[i] == old_tail[i - 1]);
                    }
                    assert(tail[j] == old_tail[j - 1]);
                    if i == 0 && j > 1 {
                        assert(old_tail[0].size >= old_tail[j - 1].size);
                    }
                }
            }
        }
    }
    proof {
        assert(l0.skip(0) =~= l0);
        assert(r0.skip(0) =~= r0);
    }
    let mut out: Vec<Node> = Vec::new();
    while rev.len() > 0
        invariant
            out@ + rev@.reverse() == tail,
        decreases rev@.len(),
    {
        let ghost old_rev = rev@;
        let ghost old_out = out@;
        let node = rev.pop().unwrap();
        out.push(node);
        proof {
            assert(old_out.push(node) + old_rev.drop_last().reverse() =~= old_out + old_rev.reverse());
        }
    }
    proof {
        assert(out@ + rev@.reverse() =~= out@);
    }
    out
}

/// Sorts by descending size; nodes of equal size keep their relative order.
fn merge_sort(nodes: Vec<Node>) -> (out: Vec<Node>)
    ensures
        is_stable_sort_desc(nodes@, out@),
    decreases nodes@.len(),
{
    if nodes.len() <= 1 {
        return nodes;
    }
    let ghost all = nodes@;
    let mut left = nodes;
    let mid: usize = left.len() / 2;
    let right = left.split_off(mid);
    let ghost l0 = left@;
    let ghost r0 = right@;
    let left_sorted = merge_sort(left);
    let right_sorted = merge_sort(right);
    let out = merge(left_sorted, right_sorted);
    proof {
        assert(all =~= l0 + r0);
        assert forall|size: u64| #[trigger] with_size(out@, size) == with_size(all, size) by {
            Seq::filter_distributes_over_add(l0, r0, |n: Node| n.size == size);
            assert(with_size(left_sorted@, size) == with_size(l0, size));
            assert(with_size(right_sorted@, size) == with_size(r0, size));
        }
    }
    out
}

impl ScanResult {
    /// Create a new empty ScanResult
    pub fn new() -> (result: Self)
        ensures
            result.nodes@ == Seq::<Node>::empty(),
            result.total_size == 0,
            result.file_count == 0,
            result.dir_count == 0,
            result.error_count == 0,
    {
        ScanResult { nodes: Vec::new(), total_size: 0, file_count: 0, dir_count: 0, error_count: 0 }
    }

    /// Sort nodes by size in descending order.
    ///
    /// The sort is stable: nodes of equal size keep their relative order. The
    /// statistics are not touched.
    pub fn sort_by_size_desc(&mut self)
        ensures
            is_stable_sort_desc(old(self).nodes@, final(self).nodes@),
            final(self).nodes@.to_multiset() == old(self).nodes@.to_multiset(),
            final(self).nodes@.len() == old(self).nodes@.len(),
            final(self).total_size == old(self).total_size,
            final(self).file_count == old(self).file_count,
            final(self).dir_count == old(self).dir_count,
            final(self).error_count == old(self).error_count,
    {
        let mut nodes: Vec<Node> = Vec::new();
        core::mem::swap(&mut nodes, &mut self.nodes);
        self.nodes = merge_sort(nodes);
        proof {
            lemma_stable_sort_permutes(old(self).nodes@, self.nodes@);
        }
    }

    /// Get the top N nodes by size: the first `n` nodes of the sequence as it
    /// stands, or all of them if there are fewer.
    pub fn top_n(&self, n: usize) -> (top: &[Node])
        ensures
            top@ == first_n(self.nodes@, n),
            top@.len() == if n <= self.nodes@.len() { n as int } else { self.nodes@.len() as int },
            sorted_by_size_desc(self.nodes@) ==> sorted_by_size_desc(top@),
    {
        let end: usize = if n <= self.nodes.len() { n } else { self.nodes.len() };
        proof {
            assert(self.nodes@.take(self.nodes@.len() as int) =~= self.nodes@);
        }
        vstd::slice::slice_subrange(self.nodes.as_slice(), 0, end)
    }

    /// Filter nodes by maximum depth: keeps exactly the nodes whose depth is
    /// at most `max_depth`, in their order. The statistics are not touched.
    pub fn filter_by_depth(&mut self, max_depth: usize)
        ensures
            final(self).nodes@ == within_depth(old(self).nodes@, max_depth),
            final(self).total_size == old(self).total_size,
            final(self).file_count == old(self).file_count,
            final(self).dir_count == old(self).dir_count,
            final(self).error_count == old(self).error_count,
    {
        let mut nodes: Vec<Node> = Vec::new();
        core::mem::swap(&mut nodes, &mut self.nodes);
        let ghost all = nodes@;
        let mut kept: Vec<Node> = Vec::new();
        proof {
            reveal(Seq::filter);
            assert(all.take(0) =~= Seq::<Node>::empty());
        }
        for node in it: nodes
            invariant
                it.seq() == all,
                kept@ == within_depth(all.take(it.index() as int), max_depth),
        {
            proof {
                reveal(Seq::filter);
                let before = all.take(it.index() as int);
                let after = all.take(it.index() + 1);
                assert(after.drop_last() =~= before);
                assert(after.last() == node);
            }
            if node.depth <= max_depth {
                kept.push(node);
            }
        }
        proof {
            assert(all.take(all.len() as int) =~= all);
        }
        self.nodes = kept;
    }

    /// Filter to only include directories: keeps exactly the directory nodes,
    /// in their order. The statistics are not touched.
    pub fn filter_dirs_only(&mut self)
        ensures
            final(self).nodes@ == dirs_only(old(self).nodes@),
            final(self).total_size == old(self).total_size,
            final(self).file_count == old(self).file_count,
            final(self).dir_count == old(self).dir_count,
            final(self).error_count == old(self).error_count,
    {
        let mut nodes: Vec<Node> = Vec::new();
        core::mem::swap(&mut nodes, &mut self.nodes);
        let ghost all = nodes@;
        let mut kept: Vec<Node> = Vec::new();
        proof {
            reveal(Seq::filter);
            assert(all.take(0) =~= Seq::<Node>::empty());
        }
        for node in it: nodes
            invariant
                it.seq() == all,
                kept@ == dirs_only(all.take(it.index() as int)),
        {
            proof {
                reveal(Seq::filter);
                let before = all.take(it.index() as int);
                let after = all.take(it.index() + 1);
                assert(after.drop_last() =~= before);
                assert(after.last() == node);
            }
            if node.is_dir {
                kept.push(node);
            }
        }
        proof {
            assert(all.take(all.len() as int) =~= all);
        }
        self.nodes = kept;
    }
}

/// A filter that every element passes changes nothing.
proof fn lemma_filter_all<A>(s: Seq<A>, pred: spec_fn(A) -> bool)
    requires
        forall|i: int| 0 <= i < s.len() ==> pred(s[i]),
    ensures
        s.filter(pred) == s,
    decreases s.len(),
{
    reveal(Seq::filter);
    if s.len() > 0 {
        lemma_filter_all(s.drop_last(), pred);
        assert(s.drop_last().push(s.last()) =~= s);
    }
}

/// The places in `s` of the elements that a filter keeps: as many as are
/// kept, each the place of the element kept, and rising.
proof fn lemma_filter_places<A>(s: Seq<A>, pred: spec_fn(A) -> bool) -> (places: Seq<int>)
    ensures
        places.len() == s.filter(pred).len(),
        forall|k: int| 0 <= k < places.len() ==> 0 <= #[trigger] places[k] < s.len()
            && s[places[k]] == s.filter(pred)[k],
        forall|a: int, b: int| 0 <= a < b < places.len() ==> places[a] < places[b],
    decreases s.len(),
{
    reveal(Seq::filter);
    if s.len() == 0 {
        Seq::empty()
    } else {
        let rest = lemma_filter_places(s.drop_last(), pred);
        if pred(s.last()) {
            rest.push(s.len() - 1)
        } else {
            rest
        }
    }
}

/// How often a value occurs among the elements that a filter keeps.
proof fn lemma_filter_count<A>(s: Seq<A>, pred: spec_fn(A) -> bool, x: A)
    ensures
        s.filter(pred).to_multiset().count(x) == if pred(x) {
            s.to_multiset().count(x)
        } else {
            0
        },
    decreases s.len(),
{
    broadcast use vstd::multiset::group_multiset_axioms;

    reveal(Seq::filter);
    if s.len() == 0 {
        assert(s.to_multiset() =~= Multiset::<A>::empty()) by {
            s.to_multiset_ensures();
        }
    } else {
        let rest = s.drop_last();
        lemma_filter_count(rest, pred, x);
        assert(rest.push(s.last()) =~= s);
        vstd::seq_lib::to_multiset_build(rest, s.last());
        if pred(s.last()) {
            vstd::seq_lib::to_multiset_build(rest.filter(pred), s.last());
        }
    }
}

/// Filtering by depth twice with one limit is filtering once.
pub proof fn lemma_filter_by_depth_idempotent(nodes: Seq<Node>, max_depth: usize)
    ensures
        within_depth(within_depth(nodes, max_depth), max_depth) == within_depth(nodes, max_depth),
{
    lemma_filter_by_depth_wider(nodes, max_depth, max_depth);
}

/// After a filter by depth, a filter with the same or a larger limit removes
/// nothing: no node comes back, and none is lost.
pub proof fn lemma_filter_by_depth_wider(nodes: Seq<Node>, max_depth: usize, wider: usize)
    requires
        max_depth <= wider,
    ensures
        within_depth(within_depth(nodes, max_depth), wider) == within_depth(nodes, max_depth),
{
    let kept = within_depth(nodes, max_depth);
    assert forall|i: int| 0 <= i < kept.len() implies (|n: Node| n.depth <= wider)(kept[i]) by {
        nodes.lemma_filter_pred(|n: Node| n.depth <= max_depth, i);
    }
    lemma_filter_all(kept, |n: Node| n.depth <= wider);
}

/// A filter by depth removes precisely the nodes that lie deeper than the
/// limit.
pub proof fn lemma_filter_by_depth_exact(nodes: Seq<Node>, max_depth: usize)
    ensures
        forall|node: Node| #[trigger]
            within_depth(nodes, max_depth).contains(node) <==> nodes.contains(node)
                && node.depth <= max_depth,
{
    let pred = |n: Node| n.depth <= max_depth;
    assert forall|node: Node| #[trigger]
        within_depth(nodes, max_depth).contains(node) <==> nodes.contains(node) && node.depth
            <= max_depth by {
        if within_depth(nodes, max_depth).contains(node) {
            nodes.lemma_filter_contains_rev(pred, node);
            let k = choose|k: int| 0 <= k < nodes.filter(pred).len() && nodes.filter(pred)[k] == node;
            nodes.lemma_filter_pred(pred, k);
        }
        if nodes.contains(node) && node.depth <= max_depth {
            let i = choose|i: int| 0 <= i < nodes.len() && nodes[i] == node;
            nodes.lemma_filter_contains(pred, i);
        }
    }
}

/// A filter by depth leaves the nodes it keeps in their relative order: the
/// result lists, for rising places in `nodes`, the nodes at those places.
pub proof fn lemma_filter_by_depth_order(nodes: Seq<Node>, max_depth: usize) -> (places: Seq<int>)
    ensures
        places.len() == within_depth(nodes, max_depth).len(),
        forall|k: int|
            0 <= k < places.len() ==> 0 <= #[trigger] places[k] < nodes.len()
                && nodes[places[k]] == within_depth(
                nodes,
                max_depth,
            )[k],
        forall|a: int, b: int| 0 <= a < b < places.len() ==> places[a] < places[b],
{
    lemma_filter_places(nodes, |n: Node| n.depth <= max_depth)
}

/// The filter for directories removes precisely the file nodes and keeps
/// every directory node.
pub proof fn lemma_filter_dirs_only_exact(nodes: Seq<Node>)
    ensures
        forall|node: Node| #[trigger] dirs_only(nodes).contains(node) <==> nodes.contains(node)
            && node.is_dir,
{
    let pred = |n: Node| n.is_dir;
    assert forall|node: Node| #[trigger] dirs_only(nodes).contains(node) <==> nodes.contains(node)
        && node.is_dir by {
        if dirs_only(nodes).contains(node) {
            nodes.lemma_filter_contains_rev(pred, node);
            let k = choose|k: int| 0 <= k < nodes.filter(pred).len() && nodes.filter(pred)[k] == node;
            nodes.lemma_filter_pred(pred, k);
        }
        if nodes.contains(node) && node.is_dir {
            let i = choose|i: int| 0 <= i < nodes.len() && nodes[i] == node;
            nodes.lemma_filter_contains(pred, i);
        }
    }
}

/// The filter for directories leaves the directories in their relative
/// order: the result lists, for rising places in `nodes`, the nodes at those
/// places.
pub proof fn lemma_filter_dirs_only_order(nodes: Seq<Node>) -> (places: Seq<int>)
    ensures
        places.len() == dirs_only(nodes).len(),
        forall|k: int|
            0 <= k < places.len() ==> 0 <= #[trigger] places[k] < nodes.len()
                && nodes[places[k]] == dirs_only(
                nodes,
            )[k],
        forall|a: int, b: int| 0 <= a < b < places.len() ==> places[a] < places[b],
{
    lemma_filter_places(nodes, |n: Node| n.is_dir)
}

/// Filtering for directories twice is filtering once.
pub proof fn lemma_filter_dirs_only_idempotent(nodes: Seq<Node>)
    ensures
        dirs_only(dirs_only(nodes)) == dirs_only(nodes),
{
    let kept = dirs_only(nodes);
    assert forall|i: int| 0 <= i < kept.len() implies (|n: Node| n.is_dir)(kept[i]) by {
        nodes.lemma_filter_pred(|n: Node| n.is_dir, i);
    }
    lemma_filter_all(kept, |n: Node| n.is_dir);
}

/// A stable sort rearranges: it holds every node as often as the sequence it
/// came from, and so has the same length.
pub proof fn lemma_stable_sort_permutes(before: Seq<Node>, after: Seq<Node>)
    requires
        is_stable_sort_desc(before, after),
    ensures
        after.to_multiset() == before.to_multiset(),
        after.len() == before.len(),
{
    assert forall|node: Node| after.to_multiset().count(node) == before.to_multiset().count(node) by {
        lemma_filter_count(after, |n: Node| n.size == node.size, node);
        lemma_filter_count(before, |n: Node| n.size == node.size, node);
        assert(with_size(after, node.size) == with_size(before, node.size));
    }
    assert(after.to_multiset() =~= before.to_multiset());
    after.to_multiset_ensures();
    before.to_multiset_ensures();
}

/// Of a sorted sequence, the first `n` nodes are the largest: none of them is
/// smaller than a node that is left out.
pub proof fn lemma_top_n_largest(nodes: Seq<Node>, n: usize)
    requires
        sorted_by_size_desc(nodes),
    ensures
        first_n(nodes, n).len() == if n <= nodes.len() { n as int } else { nodes.len() as int },
        sorted_by_size_desc(first_n(nodes, n)),
        n >= nodes.len() ==> first_n(nodes, n) == nodes,
        forall|i: int, j: int|
            0 <= i < first_n(nodes, n).len() <= j < nodes.len()
                ==> first_n(nodes, n)[i].size >= nodes[j].size,
{
    if n == nodes.len() {
        assert(nodes.take(n as int) =~= nodes);
    }
}

/// Two sorted sequences that hold, for every size, the same nodes in the
/// same order are one and the same sequence.
proof fn lemma_sorted_groups_unique(first: Seq<Node>, second: Seq<Node>)
    requires
        sorted_by_size_desc(first),
        sorted_by_size_desc(second),
        forall|size: u64| #[trigger] with_size(first, size) == with_size(second, size),
    ensures
        first == second,
    decreases first.len(),
{
    lemma_stable_sort_permutes(second, first);
    if first.len() == 0 {
        assert(first =~= second);
    } else {
        let x = first.last();
        let y = second.last();
        let a = first.drop_last();
        let b = second.drop_last();
        vstd::seq_lib::to_multiset_contains(first, y);
        vstd::seq_lib::to_multiset_contains(second, y);
        vstd::seq_lib::to_multiset_contains(first, x);
        vstd::seq_lib::to_multiset_contains(second, x);
        assert(second.contains(y)) by {
            assert(second[second.len() - 1] == y);
        }
        assert(first.contains(x)) by {
            assert(first[first.len() - 1] == x);
        }
        let i = choose|i: int| 0 <= i < first.len() && first[i] == y;
        let j = choose|j: int| 0 <= j < second.len() && second[j] == x;
        assert(y.size >= x.size) by {
            if i < first.len() - 1 {
                assert(first[i].size >= first[first.len() - 1].size);
            }
        }
        assert(x.size >= y.size) by {
            if j < second.len() - 1 {
                assert(second[j].size >= second[second.len() - 1].size);
            }
        }
        reveal(Seq::filter);
        assert(with_size(first, x.size) == with_size(a, x.size).push(x));
        assert(with_size(second, x.size) == with_size(b, x.size).push(y));
        assert(with_size(first, x.size) == with_size(second, x.size));
        assert(x == y) by {
            assert(with_size(a, x.size).push(x).last() == x);
            assert(with_size(b, x.size).push(y).last() == y);
        }
        assert forall|size: u64| #[trigger] with_size(a, size) == with_size(b, size) by {
            assert(with_size(first, size) == with_size(second, size));
            if size == x.size {
                assert(with_size(a, size) =~= with_size(a, size).push(x).drop_last());
                assert(with_size(b, size) =~= with_size(b, size).push(y).drop_last());
            }
        }
        lemma_sorted_groups_unique(a, b);
        assert(first =~= a.push(x));
        assert(second =~= b.push(y));
    }
}

/// There is one stable sort only: whatever sorts a sequence by descending
/// size and leaves nodes of equal size in their order gives the same
/// result.
pub proof fn lemma_stable_sort_unique(before: Seq<Node>, first: Seq<Node>, second: Seq<Node>)
    requires
        is_stable_sort_desc(before, first),
        is_stable_sort_desc(before, second),
    ensures
        first == second,
{
    assert forall|size: u64| #[trigger] with_size(first, size) == with_size(second, size) by {
        assert(with_size(first, size) == with_size(before, size));
        assert(with_size(second, size) == with_size(before, size));
    }
    lemma_sorted_groups_unique(first, second);
}

} // verus!
