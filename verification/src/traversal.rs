//! Bookkeeping of a directory walk.
//!
//! The walk itself happens outside: whoever enumerates the file system
//! reports each entry as a [`WalkEvent`]. A [`Traversal`] folds these events
//! into the flat list of entries and the scan-wide counters. Its view is the
//! sequence of events recorded so far, and everything it holds is a function
//! of that sequence.

use vstd::prelude::*;
use vstd::string::StringExecFns;
use crate::paths::{file_name, file_name_of};

verus! {

/// Entry collected during scanning
#[derive(Debug, Clone)]
pub struct ScannedEntry {
    /// Absolute path to the entry
    pub path: String,
    /// Size in bytes; 0 for a directory
    pub size: u64,
    /// Whether this is a directory
    pub is_dir: bool,
    /// Depth relative to the scan root
    pub depth: usize,
}

/// One step of a directory walk.
#[derive(Debug, Clone)]
pub enum WalkEvent {
    /// A directory was visited; the scan root has depth 0.
    Directory { path: String, depth: usize },
    /// Something that is not a directory was visited. `size` is `None` when
    /// no size could be obtained for it.
    File { path: String, size: Option<u64>, depth: usize },
    /// An entry could not be read and was skipped.
    Unreadable,
}

/// What the progress display shows before the first directory is seen.
pub open spec fn initial_dir_name() -> Seq<char> {
    seq!['.', '.', '.']
}

/// A natural number reduced to the range of a 64-bit counter.
pub open spec fn wrap64(n: nat) -> u64 {
    (n % 0x1_0000_0000_0000_0000) as u64
}

/// The size recorded for a file: what was measured, or 0.
pub open spec fn recorded_size(size: Option<u64>) -> u64 {
    match size {
        Some(s) => s,
        None => 0,
    }
}

/// The entry that an event adds to the collection, if any.
///
/// Directories below the root and all files are collected; the root itself
/// and unreadable entries are not.
pub open spec fn entry_of(event: WalkEvent) -> Option<ScannedEntry> {
    match event {
        WalkEvent::Directory { path, depth } => if depth > 0 {
            Some(ScannedEntry { path, size: 0, is_dir: true, depth })
        } else {
            None
        },
        WalkEvent::File { path, size, depth } => Some(
            ScannedEntry { path, size: recorded_size(size), is_dir: false, depth },
        ),
        WalkEvent::Unreadable => None,
    }
}

/// The entries collected from a sequence of events, in order.
pub open spec fn entries_of(events: Seq<WalkEvent>) -> Seq<ScannedEntry>
    decreases events.len(),
{
    if events.len() == 0 {
        Seq::empty()
    } else {
        match entry_of(events.last()) {
            Some(e) => entries_of(events.drop_last()).push(e),
            None => entries_of(events.drop_last()),
        }
    }
}

/// Number of files among the events.
pub open spec fn file_count(events: Seq<WalkEvent>) -> nat
    decreases events.len(),
{
    if events.len() == 0 {
        0
    } else {
        file_count(events.drop_last()) + if events.last() is File { 1nat } else { 0nat }
    }
}

/// Number of directories below the root among the events.
pub open spec fn dir_count(events: Seq<WalkEvent>) -> nat
    decreases events.len(),
{
    if events.len() == 0 {
        0
    } else {
        dir_count(events.drop_last()) + match events.last() {
            WalkEvent::Directory { depth, .. } => if depth > 0 { 1nat } else { 0nat },
            _ => 0nat,
        }
    }
}

/// Number of unreadable entries among the events.
pub open spec fn error_count(events: Seq<WalkEvent>) -> nat
    decreases events.len(),
{
    if events.len() == 0 {
        0
    } else {
        error_count(events.drop_last()) + if events.last() is Unreadable { 1nat } else { 0nat }
    }
}

/// Sum of the recorded sizes of all files among the events.
pub open spec fn total_size(events: Seq<WalkEvent>) -> nat
    decreases events.len(),
{
    if events.len() == 0 {
        0
    } else {
        total_size(events.drop_last()) + match events.last() {
            WalkEvent::File { size, .. } => recorded_size(size) as nat,
            _ => 0nat,
        }
    }
}

/// Name of the directory visited last, for the progress display.
///
/// A directory whose path has no final component (such as `/`) leaves the
/// name as it was.
pub open spec fn current_dir_name(events: Seq<WalkEvent>) -> Seq<char>
    decreases events.len(),
{
    if events.len() == 0 {
        initial_dir_name()
    } else {
        match events.last() {
            WalkEvent::Directory { path, .. } => match file_name_of(path@) {
                Some(name) => name,
                None => current_dir_name(events.drop_last()),
            },
            _ => current_dir_name(events.drop_last()),
        }
    }
}

/// Chooses the size of a file from what could be measured: the size on disk
/// where it is known, else the logical length.
pub fn get_file_size(on_disk: Option<u64>, logical: Option<u64>) -> (size: Option<u64>)
    ensures
        size == match on_disk {
            Some(s) => Some(s),
            None => logical,
        },
{
    match on_disk {
        Some(s) => Some(s),
        None => logical,
    }
}

/// Every file and every directory below the root is collected exactly once.
pub proof fn lemma_entries_len(events: Seq<WalkEvent>)
    ensures
        entries_of(events).len() == file_count(events) + dir_count(events),
        entries_of(events).len() <= events.len(),
    decreases events.len(),
{
    if events.len() > 0 {
        lemma_entries_len(events.drop_last());
    }
}

/// The collection only grows: what was collected from the events so far
/// stays as it is, in its place, whatever events follow.
pub proof fn lemma_entries_append_only(events: Seq<WalkEvent>, more: Seq<WalkEvent>)
    ensures
        entries_of(events + more) == entries_of(events) + entries_of(more),
    decreases more.len(),
{
    if more.len() == 0 {
        assert(events + more =~= events);
        assert(entries_of(events) + entries_of(more) =~= entries_of(events));
    } else {
        lemma_entries_append_only(events, more.drop_last());
        assert((events + more).drop_last() =~= events + more.drop_last());
        assert((events + more).last() == more.last());
        match entry_of(more.last()) {
            Some(entry) => {
                assert((entries_of(events) + entries_of(more.drop_last())).push(entry) =~= entries_of(events)
                    + entries_of(more.drop_last()).push(entry));
            },
            None => {},
        }
    }
}

/// The state of a directory walk: the entries collected so far and the
/// scan-wide counters.
///
/// The counters for bytes and errors are 64-bit counters that wrap around, as
/// shared atomic counters do.
pub struct Traversal {
    entries: Vec<ScannedEntry>,
    files_scanned: u64,
    dirs_scanned: u64,
    total_size: u64,
    error_count: u64,
    current_dir: String,
    history: Ghost<Seq<WalkEvent>>,
}

impl View for Traversal {
    type V = Seq<WalkEvent>;

    /// The events recorded so far, oldest first.
    closed spec fn view(&self) -> Seq<WalkEvent> {
        self.history@
    }
}

impl Traversal {
    /// The fields agree with the recorded events.
    pub closed spec fn wf(&self) -> bool {
        &&& self.entries@ == entries_of(self.history@)
        &&& self.files_scanned == file_count(self.history@)
        &&& self.dirs_scanned == dir_count(self.history@)
        &&& self.total_size == wrap64(total_size(self.history@))
        &&& self.error_count == wrap64(error_count(self.history@))
        &&& self.current_dir@ == current_dir_name(self.history@)
    }

    /// A walk that has seen nothing yet.
    pub fn new() -> (state: Self)
        ensures
            state.wf(),
            state@ == Seq::<WalkEvent>::empty(),
    {
        let mut current_dir = String::new();
        current_dir.append("...");
        proof {
            reveal_strlit("...");
            assert(current_dir@ =~= initial_dir_name());
        }
        Traversal {
            entries: Vec::new(),
            files_scanned: 0,
            dirs_scanned: 0,
            total_size: 0,
            error_count: 0,
            current_dir,
            history: Ghost(Seq::empty()),
        }
    }

    /// Takes one event of the walk into account.
    ///
    /// A directory below the root is collected with size 0 and counted; any
    /// directory with a final path component becomes the current directory. A
    /// file is collected with its recorded size, which is added to the byte
    /// total. An unreadable entry is counted as an error and otherwise
    /// skipped.
    pub fn record(&mut self, event: WalkEvent)
        requires
            old(self).wf(),
        ensures
            final(self).wf(),
            final(self)@ == old(self)@.push(event),
    {
        let ghost before = self.history@;
        let ghost after = before.push(event);
        proof {
            lemma_entries_len(before);
            lemma_entries_len(after);
            assert(after.drop_last() =~= before);
            assert(after.last() == event);
        }
        match event {
            WalkEvent::Directory { path, depth } => {
                match file_name(path.as_str()) {
                    Some(name) => {
                        self.current_dir = name;
                    },
                    None => {},
                }
                if depth > 0 {
                    self.entries.push(ScannedEntry { path, size: 0, is_dir: true, depth });
                    let collected: usize = self.entries.len();
                    assert(collected == entries_of(after).len());
                    self.dirs_scanned = self.dirs_scanned + 1;
                }
            },
            WalkEvent::File { path, size, depth } => {
                let bytes: u64 = match size {
                    Some(s) => s,
                    None => 0,
                };
                self.entries.push(ScannedEntry { path, size: bytes, is_dir: false, depth });
                let collected: usize = self.entries.len();
                assert(collected == entries_of(after).len());
                self.files_scanned = self.files_scanned + 1;
                self.total_size = self.total_size.wrapping_add(bytes);
            },
            WalkEvent::Unreadable => {
                self.error_count = self.error_count.wrapping_add(1);
            },
        }
        self.history = Ghost(after);
    }

    /// The entries collected so far, in the order in which they were recorded.
    pub fn entries(&self) -> (entries: &Vec<ScannedEntry>)
        requires
            self.wf(),
        ensures
            entries@ == entries_of(self@),
    {
        &self.entries
    }

    /// Number of files seen so far.
    pub fn files_scanned(&self) -> (n: u64)
        requires
            self.wf(),
        ensures
            n == file_count(self@),
    {
        self.files_scanned
    }

    /// Number of directories below the root seen so far.
    pub fn dirs_scanned(&self) -> (n: u64)
        requires
            self.wf(),
        ensures
            n == dir_count(self@),
    {
        self.dirs_scanned
    }

    /// Bytes counted so far, as a wrapping 64-bit total.
    pub fn total_size(&self) -> (n: u64)
        requires
            self.wf(),
        ensures
            n == wrap64(total_size(self@)),
    {
        self.total_size
    }

    /// Entries skipped so far because they could not be read, as a wrapping
    /// 64-bit count.
    pub fn error_count(&self) -> (n: u64)
        requires
            self.wf(),
        ensures
            n == wrap64(error_count(self@)),
    {
        self.error_count
    }

    /// Name of the directory visited last.
    pub fn current_dir(&self) -> (name: &str)
        requires
            self.wf(),
        ensures
            name@ == current_dir_name(self@),
    {
        self.current_dir.as_str()
    }
}

} // verus!
