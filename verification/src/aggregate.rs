//! Bottom-up aggregation: from the flat list of entries to the cumulative
//! size of every directory.
//!
//! Aggregation runs once, over the complete list. Every file adds its size to
//! each directory on its parent chain, up to and including the scan root.
//! Sizes are 64-bit totals that wrap around.

use vstd::prelude::*;
use vstd::hash_map::StringHashMap;
use crate::node::Node;
use crate::paths::{ancestors, is_within, lemma_ancestors_distinct, parent_path};
use crate::traversal::{wrap64, ScannedEntry};

verus! {

/// What one entry adds to the cumulative size of `dir`: its size if it is a
/// file in the subtree of `dir`, else nothing.
pub open spec fn contribution(entry: ScannedEntry, root: Seq<char>, dir: Seq<char>) -> nat {
    if !entry.is_dir && is_within(entry.path@, dir, root) {
        entry.size as nat
    } else {
        0
    }
}

/// Sum of the sizes of all files among `entries` that lie in the subtree of
/// `dir`.
pub open spec fn cumulative_size(entries: Seq<ScannedEntry>, root: Seq<char>, dir: Seq<char>) -> nat
    decreases entries.len(),
{
    if entries.len() == 0 {
        0
    } else {
        cumulative_size(entries.drop_last(), root, dir) + contribution(entries.last(), root, dir)
    }
}

/// Whether a directory with this path is among the entries.
pub open spec fn has_dir(entries: Seq<ScannedEntry>, path: Seq<char>) -> bool {
    exists|i: int| 0 <= i < entries.len() && (#[trigger] entries[i]).is_dir && entries[i].path@ == path
}

/// The directory entries, each path at its first occurrence only, in order.
pub open spec fn first_dirs(entries: Seq<ScannedEntry>) -> Seq<ScannedEntry>
    decreases entries.len(),
{
    if entries.len() == 0 {
        Seq::empty()
    } else if entries.last().is_dir && !has_dir(entries.drop_last(), entries.last().path@) {
        first_dirs(entries.drop_last()).push(entries.last())
    } else {
        first_dirs(entries.drop_last())
    }
}

/// The node of a discovered directory: the entry with its cumulative size.
pub open spec fn directory_node(entries: Seq<ScannedEntry>, root: Seq<char>, dir: ScannedEntry) -> Node {
    Node {
        path: dir.path,
        size: wrap64(cumulative_size(entries, root, dir.path@)),
        is_dir: true,
        depth: dir.depth,
    }
}

/// One node per discovered directory, in order of first discovery.
pub open spec fn directory_nodes(entries: Seq<ScannedEntry>, root: Seq<char>) -> Seq<Node> {
    first_dirs(entries).map_values(|dir: ScannedEntry| directory_node(entries, root, dir))
}

/// What the first pass over the entries has established after `i` of them:
/// `firsts` lists the entries of `first_dirs`, and `index` finds the position
/// in `firsts` of every directory path seen.
spec fn seeded(entries: Seq<ScannedEntry>, i: int, index: Map<Seq<char>, usize>, firsts: Seq<usize>) -> bool {
    &&& firsts.len() == first_dirs(entries.take(i)).len()
    &&& forall|k: int|
        0 <= k < firsts.len() ==> 0 <= #[trigger] firsts[k] < i && entries[firsts[k] as int]
            == first_dirs(entries.take(i))[k]
    &&& forall|p: Seq<char>| #[trigger] index.contains_key(p) <==> has_dir(entries.take(i), p)
    &&& forall|p: Seq<char>| #[trigger]
        index.contains_key(p) ==> 0 <= index[p] < firsts.len()
            && entries[firsts[index[p] as int] as int].path@
            == p
    &&& forall|k: int|
        0 <= k < firsts.len() ==> index.contains_key(entries[#[trigger] firsts[k] as int].path@)
            && index[entries[firsts[k] as int].path@] == k
}

/// Adding to a wrapped total is wrapping addition.
proof fn lemma_wrapping_add(total: nat, size: u64)
    ensures
        wrap64(total).wrapping_add(size) == wrap64((total + size) as nat),
{
}

/// First pass: finds the discovered directories.
fn seed(entries: &Vec<ScannedEntry>) -> (out: (StringHashMap<usize>, Vec<usize>))
    ensures
        seeded(entries@, entries@.len() as int, out.0@, out.1@),
{
    let mut index: StringHashMap<usize> = StringHashMap::new();
    let mut firsts: Vec<usize> = Vec::new();
    let mut i: usize = 0;
    while i < entries.len()
        invariant
            0 <= i <= entries.len(),
            seeded(entries@, i as int, index@, firsts@),
        decreases entries.len() - i,
    {
        let entry = &entries[i];
        let ghost before = entries@.take(i as int);
        let ghost after = entries@.take(i + 1);
        let ghost old_index = index@;
        let ghost old_firsts = firsts@;
        proof {
            assert(after.drop_last() =~= before);
            assert(after.last() == entries@[i as int]);
            assert forall|p: Seq<char>| has_dir(after, p)
                <==> (has_dir(before, p) || (entry.is_dir && entry.path@ == p)) by {
                if has_dir(before, p) {
                    let j = choose|j: int| 0 <= j < before.len()
                        && (#[trigger] before[j]).is_dir && before[j].path@ == p;
                    assert(after[j].is_dir && after[j].path@ == p);
                }
                if entry.is_dir && entry.path@ == p {
                    assert(after[i as int].is_dir && after[i as int].path@ == p);
                }
                if has_dir(after, p) {
                    let j = choose|j: int| 0 <= j < after.len() && (#[trigger] after[j]).is_dir
                        && after[j].path@ == p;
                    if j < i {
                        assert(before[j].is_dir && before[j].path@ == p);
                    }
                }
            }
        }
        if entry.is_dir && !index.contains_key(entry.path.as_str()) {
            index.insert(entry.path.clone(), firsts.len());
            firsts.push(i);
            proof {
                assert(first_dirs(after) == first_dirs(before).push(entries@[i as int]));
                assert forall|k: int| 0 <= k < firsts@.len() implies 0 <= #[trigger] firsts@[k] < i + 1
                    && entries@[firsts@[k] as int] == first_dirs(after)[k] by {
                    if k < old_firsts.len() {
                        assert(firsts@[k] == old_firsts[k]);
                    }
                }
                assert forall|k: int| 0 <= k < firsts@.len() implies index@.contains_key(
                    entries@[#[trigger] firsts@[k] as int].path@,
                ) && index@[entries@[firsts@[k] as int].path@] == k by {
                    if k < old_firsts.len() {
                        assert(firsts@[k] == old_firsts[k]);
                        assert(old_index.contains_key(entries@[old_firsts[k] as int].path@));
                    }
                }
                assert forall|p: Seq<char>| #[trigger] index@.contains_key(p)
                    implies 0 <= index@[p] < firsts@.len()
                    && entries@[firsts@[index@[p] as int] as int].path@ == p by {
                    if p != entry.path@ {
                        assert(old_index.contains_key(p));
                        assert(firsts@[old_index[p] as int] == old_firsts[old_index[p] as int]);
                    }
                }
            }
        } else {
            proof {
                assert(first_dirs(after) == first_dirs(before));
            }
        }
        i = i + 1;
    }
    proof {
        assert(entries@.take(entries@.len() as int) =~= entries@);
    }
    (index, firsts)
}

/// What the second pass has established after `i` entries: every sum holds
/// the cumulative size over those entries, plus `size` for the directories in
/// `walked`.
spec fn summed(
    entries: Seq<ScannedEntry>,
    root: Seq<char>,
    i: int,
    firsts: Seq<usize>,
    sums: Seq<u64>,
    walked: Seq<Seq<char>>,
    size: u64,
) -> bool {
    &&& sums.len() == firsts.len()
    &&& forall|k: int|
        0 <= k < firsts.len() ==> #[trigger] sums[k] == wrap64(
            cumulative_size(entries.take(i), root, entries[firsts[k] as int].path@) + if walked.contains(
                entries[firsts[k] as int].path@,
            ) {
                size as nat
            } else {
                0
            },
        )
}

/// Adds the size of the file at position `i` to every discovered directory on
/// its parent chain.
fn propagate(
    entries: &Vec<ScannedEntry>,
    i: usize,
    root: &String,
    index: &StringHashMap<usize>,
    firsts: &Vec<usize>,
    sums: &mut Vec<u64>,
)
    requires
        i < entries.len(),
        !entries[i as int].is_dir,
        seeded(entries@, entries@.len() as int, index@, firsts@),
        summed(entries@, root@, i as int, firsts@, old(sums)@, Seq::empty(), 0),
    ensures
        summed(entries@, root@, i + 1, firsts@, final(sums)@, Seq::empty(), 0),
{
    let size: u64 = entries[i].size;
    let ghost chain = ancestors(entries@[i as int].path@, root@);
    let ghost mut j: int = 0;
    let mut cur: String = entries[i].path.clone();
    let mut done = false;
    proof {
        lemma_ancestors_distinct(entries@[i as int].path@, root@);
        assert(chain.take(0) =~= Seq::<Seq<char>>::empty());
        assert(chain =~= chain.take(0) + chain);
        assert forall|k: int| 0 <= k < firsts@.len()
            implies !chain.take(0).contains(entries@[firsts@[k] as int].path@) by {}
    }
    while !done
        invariant
            i < entries.len(),
            size == entries[i as int].size,
            chain == ancestors(entries@[i as int].path@, root@),
            chain.no_duplicates(),
            0 <= j <= chain.len(),
            !done ==> chain == chain.take(j) + ancestors(cur@, root@),
            done ==> j == chain.len(),
            seeded(entries@, entries@.len() as int, index@, firsts@),
            summed(entries@, root@, i as int, firsts@, sums@, chain.take(j), size),
        decreases
            if done { 0 } else { cur@.len() + 1 },
    {
        match parent_path(cur.as_str()) {
            None => {
                proof {
                    assert(ancestors(cur@, root@) =~= Seq::<Seq<char>>::empty());
                    assert(chain =~= chain.take(j));
                }
                done = true;
            },
            Some(parent) => {
                let ghost walked = chain.take(j);
                let ghost old_sums = sums@;
                proof {
                    assert(ancestors(cur@, root@)[0] == parent@);
                    assert(chain[j] == parent@);
                    assert(chain.take(j + 1) =~= walked.push(parent@));
                    assert(!walked.contains(parent@)) by {
                        if walked.contains(parent@) {
                            let w = choose|w: int| 0 <= w < walked.len() && walked[w] == parent@;
                            assert(chain[w] == chain[j]);
                        }
                    }
                    assert forall|x: Seq<char>| walked.push(parent@).contains(x)
                        <==> (walked.contains(x) || x == parent@) by {
                        if walked.contains(x) {
                            let w = choose|w: int| 0 <= w < walked.len() && walked[w] == x;
                            assert(walked.push(parent@)[w] == x);
                        }
                        if x == parent@ {
                            assert(walked.push(parent@)[walked.len() as int] == x);
                        }
                    }
                }
                match index.get(parent.as_str()) {
                    Some(slot) => {
                        let slot: usize = *slot;
                        let sum: u64 = sums[slot];
                        sums.set(slot, sum.wrapping_add(size));
                        proof {
                            assert forall|k: int| 0 <= k < firsts@.len()
                                implies #[trigger] sums@[k] == wrap64(
                                cumulative_size(entries@.take(i as int), root@, entries@[firsts@[k] as int].path@)
                                    + if chain.take(j + 1).contains(entries@[firsts@[k] as int].path@) {
                                    size as nat
                                } else {
                                    0
                                },
                            ) by {
                                let path_k = entries@[firsts@[k] as int].path@;
                                assert(index@.contains_key(path_k) && index@[path_k] == k);
                                if k == slot {
                                    lemma_wrapping_add(
                                        cumulative_size(entries@.take(i as int), root@, path_k),
                                        size,
                                    );
                                    assert(old_sums[k] == sum);
                                } else {
                                    assert(sums@[k] == old_sums[k]);
                                }
                            }
                        }
                    },
                    None => {
                        proof {
                            assert forall|k: int| 0 <= k < firsts@.len()
                                implies entries@[firsts@[k] as int].path@
                                != parent@ by {
                                assert(index@.contains_key(entries@[firsts@[k] as int].path@));
                            }
                        }
                    },
                }
                if parent == *root {
                    proof {
                        assert(ancestors(cur@, root@) =~= seq![parent@]);
                        assert(chain.len() == j + 1);
                    }
                    done = true;
                } else {
                    proof {
                        assert(ancestors(cur@, root@) =~= seq![parent@] + ancestors(parent@, root@));
                        assert(chain =~= chain.take(j + 1) + ancestors(parent@, root@));
                    }
                }
                cur = parent;
                proof {
                    j = j + 1;
                }
            },
        }
    }
    proof {
        assert(chain.take(j) =~= chain);
        let before = entries@.take(i as int);
        let after = entries@.take(i + 1);
        assert(after.drop_last() =~= before);
        assert(after.last() == entries@[i as int]);
        assert forall|k: int| 0 <= k < firsts@.len() implies #[trigger] sums@[k] == wrap64(
            cumulative_size(after, root@, entries@[firsts@[k] as int].path@)
                + if Seq::<Seq<char>>::empty().contains(
                entries@[firsts@[k] as int].path@,
            ) {
                0u64 as nat
            } else {
                0
            },
        ) by {}
    }
}

/// Computes the cumulative size of every discovered directory.
///
/// The result holds one node per directory path among `entries`, in order of
/// first discovery. The size of each is the sum of the sizes of all files
/// among `entries` that have the directory on their parent chain, the chain
/// being followed up to and including `root`.
pub fn aggregate(entries: &Vec<ScannedEntry>, root: &str) -> (nodes: Vec<Node>)
    ensures
        nodes@ == directory_nodes(entries@, root@),
{
    let root_path: String = root.to_owned();
    let (index, firsts) = seed(entries);
    let mut sums: Vec<u64> = Vec::new();
    let mut k: usize = 0;
    while k < firsts.len()
        invariant
            0 <= k <= firsts.len(),
            sums@.len() == k,
            forall|m: int| 0 <= m < k ==> sums@[m] == 0,
        decreases firsts.len() - k,
    {
        sums.push(0);
        k = k + 1;
    }
    proof {
        assert(entries@.take(0) =~= Seq::<ScannedEntry>::empty());
    }
    let mut i: usize = 0;
    while i < entries.len()
        invariant
            0 <= i <= entries.len(),
            root_path@ == root@,
            seeded(entries@, entries@.len() as int, index@, firsts@),
            summed(entries@, root@, i as int, firsts@, sums@, Seq::empty(), 0),
        decreases entries.len() - i,
    {
        if !entries[i].is_dir {
            propagate(entries, i, &root_path, &index, &firsts, &mut sums);
        } else {
            proof {
                let before = entries@.take(i as int);
                let after = entries@.take(i + 1);
                assert(after.drop_last() =~= before);
                assert(after.last() == entries@[i as int]);
            }
        }
        i = i + 1;
    }
    proof {
        assert(entries@.take(entries@.len() as int) =~= entries@);
    }
    let mut nodes: Vec<Node> = Vec::new();
    let mut k: usize = 0;
    while k < firsts.len()
        invariant
            0 <= k <= firsts.len(),
            seeded(entries@, entries@.len() as int, index@, firsts@),
            summed(entries@, root@, entries@.len() as int, firsts@, sums@, Seq::empty(), 0),
            entries@.take(entries@.len() as int) == entries@,
            nodes@.len() == k,
            forall|m: int| 0 <= m < k ==> nodes@[m]
                == directory_node(entries@, root@, first_dirs(entries@)[m]),
        decreases firsts.len() - k,
    {
        let entry = &entries[firsts[k]];
        nodes.push(Node::new(entry.path.clone(), sums[k], true, entry.depth));
        k = k + 1;
    }
    proof {
        assert(nodes@ =~= directory_nodes(entries@, root@));
    }
    nodes
}

/// Sum of the sizes of all files among the entries.
pub open spec fn file_total(entries: Seq<ScannedEntry>) -> nat
    decreases entries.len(),
{
    if entries.len() == 0 {
        0
    } else {
        file_total(entries.drop_last()) + if entries.last().is_dir {
            0
        } else {
            entries.last().size as nat
        }
    }
}

/// No directory holds more than all files together.
pub proof fn lemma_cumulative_size_bounded(entries: Seq<ScannedEntry>, root: Seq<char>, dir: Seq<char>)
    ensures
        cumulative_size(entries, root, dir) <= file_total(entries),
    decreases entries.len(),
{
    if entries.len() > 0 {
        lemma_cumulative_size_bounded(entries.drop_last(), root, dir);
    }
}

/// What `first_dirs` lists: directories among the entries, every directory
/// path among the entries, and no path twice.
pub proof fn lemma_first_dirs(entries: Seq<ScannedEntry>)
    ensures
        forall|k: int|
            0 <= k < first_dirs(entries).len() ==> (#[trigger] first_dirs(entries)[k]).is_dir && has_dir(
                entries,
                first_dirs(entries)[k].path@,
            ),
        forall|path: Seq<char>| #[trigger]
            has_dir(entries, path) ==> exists|k: int|
                0 <= k < first_dirs(entries).len() && (#[trigger] first_dirs(entries)[k]).path@ == path,
        forall|a: int, b: int|
            0 <= a < b < first_dirs(entries).len() ==> (#[trigger] first_dirs(entries)[a]).path@ != (
            #[trigger] first_dirs(entries)[b]).path@,
    decreases entries.len(),
{
    if entries.len() > 0 {
        let rest = entries.drop_last();
        let last = entries.last();
        let firsts = first_dirs(entries);
        let before = first_dirs(rest);
        lemma_first_dirs(rest);
        assert forall|path: Seq<char>| has_dir(rest, path) implies has_dir(entries, path) by {
            let i = choose|i: int| 0 <= i < rest.len() && (#[trigger] rest[i]).is_dir
                && rest[i].path@ == path;
            assert(entries[i].is_dir && entries[i].path@ == path);
        }
        assert forall|k: int| 0 <= k < firsts.len() implies (#[trigger] firsts[k]).is_dir && has_dir(
            entries,
            firsts[k].path@,
        ) by {
            if k < before.len() {
                assert(firsts[k] == before[k]);
                assert(has_dir(rest, before[k].path@));
            } else {
                assert(firsts[k] == last);
                assert(entries[entries.len() - 1].is_dir && entries[entries.len() - 1].path@ == last.path@);
            }
        }
        assert forall|path: Seq<char>| #[trigger] has_dir(entries, path) implies exists|k: int|
            0 <= k < firsts.len() && (#[trigger] firsts[k]).path@ == path by {
            let i = choose|i: int| 0 <= i < entries.len() && (#[trigger] entries[i]).is_dir
                && entries[i].path@ == path;
            if i < rest.len() {
                assert(rest[i].is_dir && rest[i].path@ == path);
            }
            if has_dir(rest, path) {
                let k = choose|k: int| 0 <= k < before.len() && (#[trigger] before[k]).path@ == path;
                assert(firsts[k].path@ == path);
            } else {
                assert(i == entries.len() - 1);
                assert(firsts[firsts.len() - 1].path@ == path);
            }
        }
        assert forall|a: int, b: int| 0 <= a < b < firsts.len() implies (#[trigger] firsts[a]).path@ != (
        #[trigger] firsts[b]).path@ by {
            if b < before.len() {
                assert(firsts[a] == before[a] && firsts[b] == before[b]);
            } else {
                assert(firsts[a] == before[a]);
                assert(has_dir(rest, before[a].path@));
            }
        }
    }
}

/// The aggregation is a mapping from the discovered directories to their
/// cumulative sizes: every node is a discovered directory with the total
/// size of the files in its subtree, every discovered directory has a node,
/// and no two nodes share a path.
pub proof fn lemma_directory_nodes(entries: Seq<ScannedEntry>, root: Seq<char>)
    ensures
        forall|k: int|
            0 <= k < directory_nodes(entries, root).len() ==> {
                let node = #[trigger] directory_nodes(entries, root)[k];
                &&& node.is_dir
                &&& has_dir(entries, node.path@)
                &&& node.size == wrap64(cumulative_size(entries, root, node.path@))
            },
        forall|path: Seq<char>| #[trigger]
            has_dir(entries, path) ==> exists|k: int|
                0 <= k < directory_nodes(entries, root).len() && (#[trigger] directory_nodes(
                    entries,
                    root,
                )[k]).path@ == path,
        forall|a: int, b: int|
            0 <= a < b < directory_nodes(entries, root).len() ==> (#[trigger] directory_nodes(
                entries,
                root,
            )[a]).path@ != (#[trigger] directory_nodes(entries, root)[b]).path@,
{
    lemma_first_dirs(entries);
    let firsts = first_dirs(entries);
    let nodes = directory_nodes(entries, root);
    assert forall|path: Seq<char>| #[trigger] has_dir(entries, path) implies exists|k: int|
        0 <= k < nodes.len() && (#[trigger] nodes[k]).path@ == path by {
        let k = choose|k: int| 0 <= k < firsts.len() && (#[trigger] firsts[k]).path@ == path;
        assert(nodes[k].path@ == path);
    }
    assert forall|a: int, b: int| 0 <= a < b < nodes.len() implies (#[trigger] nodes[a]).path@ != (
    #[trigger] nodes[b]).path@ by {
        assert(firsts[a].path@ != firsts[b].path@);
    }
}

/// Where all files together fit into 64 bits, the size of every directory
/// node is exact: the sum of the sizes of all files in its subtree.
pub proof fn lemma_directory_sizes_exact(entries: Seq<ScannedEntry>, root: Seq<char>)
    requires
        file_total(entries) <= u64::MAX,
    ensures
        forall|k: int|
            0 <= k < directory_nodes(entries, root).len() ==> (#[trigger] directory_nodes(
                entries,
                root,
            )[k]).size == cumulative_size(entries, root, directory_nodes(entries, root)[k].path@),
{
    assert forall|k: int| 0 <= k < directory_nodes(entries, root).len() implies (#[trigger] directory_nodes(
        entries,
        root,
    )[k]).size == cumulative_size(entries, root, directory_nodes(entries, root)[k].path@) by {
        lemma_cumulative_size_bounded(entries, root, directory_nodes(entries, root)[k].path@);
    }
}

} // verus!
