//! Scanner configuration, and the step from a finished walk to its result.

use vstd::prelude::*;
use vstd::string::StringExecFns;
use crate::aggregate::{aggregate, directory_nodes};
use crate::node::{Node, ScanResult};
use crate::traversal::{
    dir_count, entries_of, error_count, file_count, total_size, wrap64, ScannedEntry, Traversal,
    WalkEvent,
};

verus! {

/// Number of workers used when the hardware parallelism is not known.
pub const FALLBACK_WORKERS: usize = 4;

/// Scanner configuration
#[derive(Debug, Clone, Copy)]
pub struct Scanner {
    /// Number of threads to use (None = use all cores)
    pub num_threads: Option<usize>,
    /// Whether to include files in results (not just directories)
    pub include_files: bool,
}

impl Default for Scanner {
    fn default() -> (scanner: Self)
        ensures
            scanner.num_threads is None,
            !scanner.include_files,
    {
        Scanner { num_threads: None, include_files: false }
    }
}

/// Why a scan failed.
///
/// Only a root that cannot be resolved makes a scan fail. Entries that
/// cannot be read are counted in the result instead.
#[derive(Debug, Clone)]
pub enum ScanError {
    /// The root path could not be resolved.
    RootInaccessible { path: String },
}

/// The text of a scan error.
pub open spec fn error_text(error: ScanError) -> Seq<char> {
    match error {
        ScanError::RootInaccessible { path } => "Failed to resolve path: "@ + path@,
    }
}

impl ScanError {
    /// What went wrong, in words.
    pub fn message(&self) -> (out: String)
        ensures
            out@ == error_text(*self),
    {
        match self {
            ScanError::RootInaccessible { path } => {
                let mut out = String::new();
                out.append("Failed to resolve path: ");
                out.append(path.as_str());
                proof {
                    assert(out@ =~= error_text(*self));
                }
                out
            },
        }
    }
}

/// The node of a file: the entry as it was collected.
pub open spec fn file_node(entry: ScannedEntry) -> Node {
    Node { path: entry.path, size: entry.size, is_dir: false, depth: entry.depth }
}

/// The nodes of all files among the entries, in order.
pub open spec fn file_nodes(entries: Seq<ScannedEntry>) -> Seq<Node> {
    entries.filter(|e: ScannedEntry| !e.is_dir).map_values(|e: ScannedEntry| file_node(e))
}

/// The nodes of a scan: the discovered directories with their cumulative
/// sizes, followed by the files if they were asked for.
pub open spec fn scan_nodes(entries: Seq<ScannedEntry>, root: Seq<char>, include_files: bool) -> Seq<Node> {
    if include_files {
        directory_nodes(entries, root) + file_nodes(entries)
    } else {
        directory_nodes(entries, root)
    }
}

/// The number of workers to use on a machine whose available parallelism is
/// `available`, if that is known.
pub fn num_cpus(available: Option<usize>) -> (workers: usize)
    ensures
        workers == match available {
            Some(n) => n,
            None => FALLBACK_WORKERS,
        },
{
    match available {
        Some(n) => n,
        None => FALLBACK_WORKERS,
    }
}

impl Scanner {
    /// Create a new Scanner with default settings
    pub fn new() -> (scanner: Self)
        ensures
            scanner.num_threads is None,
            !scanner.include_files,
    {
        Scanner { num_threads: None, include_files: false }
    }

    /// Set the number of threads
    pub fn with_threads(self, threads: Option<usize>) -> (scanner: Self)
        ensures
            scanner.num_threads == threads,
            scanner.include_files == self.include_files,
    {
        Scanner { num_threads: threads, include_files: self.include_files }
    }

    /// Include files in the results
    pub fn include_files(self, enabled: bool) -> (scanner: Self)
        ensures
            scanner.num_threads == self.num_threads,
            scanner.include_files == enabled,
    {
        Scanner { num_threads: self.num_threads, include_files: enabled }
    }

    /// The number of workers a walk should use: the configured number, or
    /// else what the machine offers.
    pub fn worker_count(&self, available: Option<usize>) -> (workers: usize)
        ensures
            workers == match self.num_threads {
                Some(n) => n,
                None => match available {
                    Some(n) => n,
                    None => FALLBACK_WORKERS,
                },
            },
    {
        match self.num_threads {
            Some(n) => n,
            None => num_cpus(available),
        }
    }

    /// Decides whether a scan of `requested` can begin, from what resolving
    /// the path gave: the canonical root, or the failure of the scan if the
    /// path could not be resolved.
    pub fn resolve_root(requested: &str, canonical: Option<String>) -> (root: Result<String, ScanError>)
        ensures
            match canonical {
                Some(path) => root == Ok::<String, ScanError>(path),
                None => root matches Err(ScanError::RootInaccessible { path }) && path@ == requested@,
            },
    {
        match canonical {
            Some(path) => Ok(path),
            None => Err(ScanError::RootInaccessible { path: requested.to_owned() }),
        }
    }

    /// Turns a finished walk into its result.
    ///
    /// The counters are those of the walk. The nodes are the discovered
    /// directories, each with the total size of the files below it, followed
    /// by the files themselves if this scanner includes files.
    pub fn finish(&self, root: &str, walk: &Traversal) -> (result: ScanResult)
        requires
            walk.wf(),
        ensures
            result.nodes@ == scan_nodes(entries_of(walk@), root@, self.include_files),
            result.file_count == file_count(walk@),
            result.dir_count == dir_count(walk@),
            result.total_size == wrap64(total_size(walk@)),
            total_size(walk@) <= u64::MAX ==> result.total_size == total_size(walk@),
            result.error_count == wrap64(error_count(walk@)),
    {
        let entries = walk.entries();
        let mut nodes = aggregate(entries, root);
        if self.include_files {
            let ghost dirs = nodes@;
            let mut i: usize = 0;
            proof {
                assert(entries@.take(0) =~= Seq::<ScannedEntry>::empty());
                reveal(Seq::filter);
                assert(file_nodes(entries@.take(0)) =~= Seq::<Node>::empty());
            }
            while i < entries.len()
                invariant
                    0 <= i <= entries.len(),
                    nodes@ == dirs + file_nodes(entries@.take(i as int)),
                decreases entries.len() - i,
            {
                let entry = &entries[i];
                proof {
                    let before = entries@.take(i as int);
                    let after = entries@.take(i + 1);
                    assert(after.drop_last() =~= before);
                    assert(after.last() == entries@[i as int]);
                    reveal(Seq::filter);
                    let pred = |e: ScannedEntry| !e.is_dir;
                    if !entry.is_dir {
                        assert(after.filter(pred) == before.filter(pred).push(*entry));
                        assert(file_nodes(after) =~= file_nodes(before).push(file_node(*entry)));
                    } else {
                        assert(after.filter(pred) == before.filter(pred));
                    }
                }
                if !entry.is_dir {
                    nodes.push(Node::new(entry.path.clone(), entry.size, false, entry.depth));
                }
                i = i + 1;
            }
            proof {
                assert(entries@.take(entries@.len() as int) =~= entries@);
            }
        }
        ScanResult {
            nodes,
            total_size: walk.total_size(),
            file_count: walk.files_scanned(),
            dir_count: walk.dirs_scanned(),
            error_count: walk.error_count(),
        }
    }

    /// Scans a tree that a walk has reported as `events`.
    ///
    /// Files, directories below the root and unreadable entries are counted.
    /// The total size is the sum of the recorded sizes of all files, as a
    /// wrapping 64-bit total. The nodes are the discovered directories, each
    /// with the total size of the files below it, followed by the files
    /// themselves if this scanner includes files.
    pub fn scan(&self, root: &str, events: Vec<WalkEvent>) -> (result: ScanResult)
        ensures
            result.nodes@ == scan_nodes(entries_of(events@), root@, self.include_files),
            result.file_count == file_count(events@),
            result.dir_count == dir_count(events@),
            result.total_size == wrap64(total_size(events@)),
            total_size(events@) <= u64::MAX ==> result.total_size == total_size(events@),
            result.error_count == error_count(events@),
    {
        let ghost all = events@;
        let reported: usize = events.len();
        let mut walk = Traversal::new();
        for event in it: events
            invariant
                walk.wf(),
                it.seq() == all,
                walk@ == all.take(it.index() as int),
        {
            proof {
                assert(all.take(it.index() + 1) =~= all.take(it.index() as int).push(event));
            }
            walk.record(event);
        }
        proof {
            assert(all.take(all.len() as int) =~= all);
            lemma_errors_bounded(all);
            assert(error_count(all) <= reported);
        }
        self.finish(root, &walk)
    }
}

/// There are no more errors than events.
pub proof fn lemma_errors_bounded(events: Seq<WalkEvent>)
    ensures
        error_count(events) <= events.len(),
    decreases events.len(),
{
    if events.len() > 0 {
        lemma_errors_bounded(events.drop_last());
    }
}

} // verus!
