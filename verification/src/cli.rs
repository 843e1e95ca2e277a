//! The options of a report run, and what they mean for a scan and its
//! result.

use vstd::prelude::*;
use crate::display::Display;
use crate::node::{dirs_only, is_stable_sort_desc, within_depth, Node, ScanResult};
use crate::scanner::Scanner;

verus! {

/// A fast, cross-platform CLI tool for analyzing disk usage.
///
/// Scans directories and displays the largest files and folders,
/// sorted by size in descending order.
#[derive(Debug, Clone)]
pub struct Args {
    /// Target directory to scan (defaults to current directory)
    pub path: String,
    /// Number of top items to display
    pub count: usize,
    /// Maximum depth to display (unlimited if not specified)
    pub depth: Option<usize>,
    /// Show files in addition to directories
    pub all: bool,
    /// Number of threads to use (defaults to number of CPU cores)
    pub threads: Option<usize>,
}

impl Default for Args {
    fn default() -> (args: Self)
        ensures
            args.path@ == seq!['.'],
            args.count == 10,
            args.depth is None,
            !args.all,
            args.threads is None,
    {
        let mut path = String::new();
        path.push('.');
        Args { path, count: 10, depth: None, all: false, threads: None }
    }
}

/// The nodes that a report shows of a scan's nodes, before they are sorted:
/// directories only unless all entries were asked for, and none deeper than
/// the depth asked for.
pub open spec fn selected(nodes: Seq<Node>, all: bool, depth: Option<usize>) -> Seq<Node> {
    let kinds = if all {
        nodes
    } else {
        dirs_only(nodes)
    };
    match depth {
        Some(max_depth) => within_depth(kinds, max_depth),
        None => kinds,
    }
}

impl Args {
    /// The scanner that these options ask for.
    pub fn scanner(&self) -> (scanner: Scanner)
        ensures
            scanner.num_threads == self.threads,
            scanner.include_files == self.all,
    {
        Scanner::new().with_threads(self.threads).include_files(self.all)
    }

    /// The display that these options ask for.
    pub fn display(&self) -> (display: Display)
        ensures
            display.count == self.count,
            display.max_path_width == 60,
    {
        Display::new().with_count(self.count)
    }

    /// Brings a scan result into the shape that these options ask for: files
    /// are dropped unless all entries were asked for, then entries deeper
    /// than the depth asked for, and what is left is sorted by descending
    /// size. The statistics are not touched.
    pub fn arrange(&self, result: &mut ScanResult)
        ensures
            is_stable_sort_desc(selected(old(result).nodes@, self.all, self.depth), final(result).nodes@),
            final(result).total_size == old(result).total_size,
            final(result).file_count == old(result).file_count,
            final(result).dir_count == old(result).dir_count,
            final(result).error_count == old(result).error_count,
    {
        if !self.all {
            result.filter_dirs_only();
        }
        match self.depth {
            Some(max_depth) => {
                result.filter_by_depth(max_depth);
            },
            None => {},
        }
        result.sort_by_size_desc();
    }
}

} // verus!
