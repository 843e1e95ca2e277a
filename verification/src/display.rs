//! Output formatting: the text of a disk usage report, line by line.

use vstd::prelude::*;
use vstd::string::{StringExecFns, StringSliceAdditionalSpecFns};
use crate::node::{first_n, Node, ScanResult};
use crate::paths::{relative_to, strip_prefix};
use crate::style::{
    blue, blue_text, bold, bold_text, cyan, cyan_text, dimmed, dimmed_text, green, green_text, red,
    red_text, white, white_text,
};
use crate::text::{ceil_boundary, decimal, decimal_digits, tail, tail_text};

verus! {

/// Width of the horizontal rules of a report, in characters.
pub const RULE_WIDTH: usize = 70;

/// Width of the size column of a report, in characters.
pub const SIZE_WIDTH: usize = 12;

/// What `humansize::format_size` yields for a size, with its binary options.
pub uninterp spec fn human_size(bytes: u64) -> Seq<char>;

/// A size in binary units, as `humansize::format_size` writes it.
///
/// Trusted: the result is `human_size` of the argument.
#[verifier::external_body]
pub(crate) fn format_size(bytes: u64) -> (out: String)
    ensures
        out@ == human_size(bytes),
{
    humansize::format_size(bytes, humansize::BINARY)
}

/// Display configuration
#[derive(Debug, Clone, Copy)]
pub struct Display {
    /// Maximum number of items to show
    pub count: usize,
    /// Maximum path width before truncation
    pub max_path_width: usize,
}

impl Default for Display {
    fn default() -> (display: Self)
        ensures
            display.count == 10,
            display.max_path_width == 60,
    {
        Display { count: 10, max_path_width: 60 }
    }
}

/// One character, `n` times.
pub open spec fn repeated(c: char, n: nat) -> Seq<char> {
    Seq::new(n, |i: int| c)
}

/// Text moved to the right edge of a column of `width` characters. Text that
/// is wider than the column stays as it is.
pub open spec fn right_aligned(text: Seq<char>, width: nat) -> Seq<char> {
    if text.len() >= width {
        text
    } else {
        repeated(' ', (width - text.len()) as nat) + text
    }
}

/// The text of [`Display::truncate_path`]: `path` itself if it has at most
/// `max_width` bytes; else an ellipsis and its last `max_width - 3` bytes,
/// cut forward to a character boundary.
pub open spec fn truncated_path(path: Seq<char>, max_width: usize) -> Seq<char> {
    let len = vstd::utf8::encode_utf8(path).len();
    if len <= max_width {
        path
    } else {
        seq!['.', '.', '.'] + tail_text(path, len - max_width + 3)
    }
}

/// A path of ASCII characters is cut by characters: what is longer than
/// `max_width` keeps its last `max_width - 3` characters behind the
/// ellipsis, and so is `max_width` characters long.
pub proof fn lemma_truncated_path_ascii(path: Seq<char>, max_width: usize)
    requires
        vstd::utf8::is_ascii_chars(path),
    ensures
        truncated_path(path, max_width) == if path.len() <= max_width {
            path
        } else if max_width >= 3 {
            seq!['.', '.', '.'] + path.skip(path.len() - max_width + 3)
        } else {
            seq!['.', '.', '.']
        },
        path.len() > max_width >= 3 ==> truncated_path(path, max_width).len() == max_width,
{
    if path.len() > max_width {
        crate::text::lemma_tail_text_ascii(path, path.len() - max_width + 3);
        if max_width < 3 {
            assert(seq!['.', '.', '.'] + Seq::<char>::empty() =~= seq!['.', '.', '.']);
        }
    } else {
        crate::text::lemma_tail_text_ascii(path, 0);
    }
}

/// The path shown for a node: relative to the root where it lies below it,
/// else as it is.
pub open spec fn shown_path(path: Seq<char>, root: Seq<char>) -> Seq<char> {
    match relative_to(path, root) {
        Some(rest) => rest,
        None => path,
    }
}

/// A horizontal rule.
pub open spec fn rule_text(c: char) -> Seq<char> {
    dimmed_text(repeated(c, RULE_WIDTH as nat))
}

/// The line of one entry: its size, an icon for its kind, and its path.
pub open spec fn entry_text(max_path_width: usize, size: Seq<char>, path: Seq<char>, is_dir: bool) -> Seq<
    char,
> {
    "  "@ + green_text(right_aligned(size, SIZE_WIDTH as nat)) + "  "@ + if is_dir {
        "📁"@ + " "@ + bold_text(blue_text(truncated_path(path, max_path_width)))
    } else {
        "📄"@ + " "@ + white_text(truncated_path(path, max_path_width))
    }
}

/// The lines above the entries: title, summary and column heads.
pub open spec fn header_lines(
    count: usize,
    root: Seq<char>,
    total: Seq<char>,
    files: u64,
    dirs: u64,
    errors: u64,
) -> Seq<Seq<char>> {
    seq![
        Seq::empty(),
        rule_text('═'),
        bold_text(" Disk Usage Report: "@ + root),
        rule_text('═'),
        Seq::empty(),
        "  "@ + dimmed_text("Total size:"@) + " "@ + bold_text(green_text(total)),
        "  "@ + dimmed_text("Scanned:"@) + " "@ + cyan_text(decimal_digits(files as nat)) + " files, "@
            + cyan_text(decimal_digits(dirs as nat)) + " directories"@,
    ] + (if errors > 0 {
        seq![
            "  "@ + dimmed_text("Errors:"@) + " "@ + red_text(decimal_digits(errors as nat))
                + " (permission denied or inaccessible)"@,
        ]
    } else {
        Seq::empty()
    }) + seq![
        Seq::empty(),
        rule_text('─'),
        bold_text(" Top "@ + decimal_digits(count as nat) + " by size:"@),
        rule_text('─'),
        Seq::empty(),
        "  "@ + bold_text(dimmed_text(right_aligned("SIZE"@, SIZE_WIDTH as nat))) + "  "@ + bold_text(
            dimmed_text("PATH"@),
        ),
        "  "@ + dimmed_text(right_aligned("────"@, SIZE_WIDTH as nat)) + "  "@ + dimmed_text("────"@),
    ]
}

/// The line of a node, in a report on the scan rooted at `root`.
pub open spec fn node_text(max_path_width: usize, node: Node, root: Seq<char>) -> Seq<char> {
    entry_text(max_path_width, human_size(node.size), shown_path(node.path@, root), node.is_dir)
}

/// The lines of some nodes, one for each.
pub open spec fn node_texts(max_path_width: usize, nodes: Seq<Node>, root: Seq<char>) -> Seq<Seq<char>> {
    nodes.map_values(|node: Node| node_text(max_path_width, node, root))
}

/// The lines of the entries: one per node shown, or a note that there are
/// none.
pub open spec fn entry_lines(display: Display, nodes: Seq<Node>, root: Seq<char>) -> Seq<Seq<char>> {
    if first_n(nodes, display.count).len() == 0 {
        seq!["  "@ + dimmed_text("No entries found."@)]
    } else {
        node_texts(display.max_path_width, first_n(nodes, display.count), root)
    }
}

/// The lines below the entries.
pub open spec fn footer_lines() -> Seq<Seq<char>> {
    seq![Seq::empty(), rule_text('═')]
}

/// The lines of a report.
pub open spec fn report_lines(display: Display, result: ScanResult, root: Seq<char>) -> Seq<Seq<char>> {
    header_lines(
        display.count,
        root,
        human_size(result.total_size),
        result.file_count,
        result.dir_count,
        result.error_count,
    ) + entry_lines(display, result.nodes@, root) + footer_lines()
}

/// The texts of lines.
pub open spec fn texts(lines: Seq<String>) -> Seq<Seq<char>> {
    lines.map_values(|line: String| line@)
}

/// One character, `n` times.
pub fn repeat(c: char, n: usize) -> (out: String)
    ensures
        out@ == repeated(c, n as nat),
{
    let mut out = String::new();
    let mut i: usize = 0;
    while i < n
        invariant
            0 <= i <= n,
            out@ == repeated(c, i as nat),
        decreases n - i,
    {
        out.push(c);
        i = i + 1;
        proof {
            assert(out@ =~= repeated(c, i as nat));
        }
    }
    out
}

/// Moves text to the right edge of a column of `width` characters.
pub fn align_right(text: &str, width: usize) -> (out: String)
    ensures
        out@ == right_aligned(text@, width as nat),
{
    let len: usize = text.unicode_len();
    if len >= width {
        text.to_owned()
    } else {
        let mut out = repeat(' ', width - len);
        out.append(text);
        out
    }
}

/// A horizontal rule of the character `c`.
pub fn rule(c: char) -> (out: String)
    ensures
        out@ == rule_text(c),
{
    let line = repeat(c, RULE_WIDTH);
    dimmed(line.as_str())
}

impl Display {
    /// Create a new Display with default settings
    pub fn new() -> (display: Self)
        ensures
            display.count == 10,
            display.max_path_width == 60,
    {
        Display { count: 10, max_path_width: 60 }
    }

    /// Set the number of items to display
    pub fn with_count(self, count: usize) -> (display: Self)
        ensures
            display.count == count,
            display.max_path_width == self.max_path_width,
    {
        Display { count, max_path_width: self.max_path_width }
    }

    /// Truncate a path if it's too long
    ///
    /// A path of more than `max_path_width` bytes is cut at the front: an
    /// ellipsis stands for what was taken away. A cut never splits a
    /// character: it moves forward to the nearest character boundary.
    pub fn truncate_path(&self, path: &str) -> (out: String)
        ensures
            out@ == truncated_path(path@, self.max_path_width),
    {
        let len: usize = path.as_bytes().len();
        if len <= self.max_path_width {
            path.to_owned()
        } else {
            let start: usize = if self.max_path_width >= 3 {
                len - self.max_path_width + 3
            } else {
                len
            };
            let mut out = String::new();
            out.push('.');
            out.push('.');
            out.push('.');
            proof {
                let bytes = path.spec_bytes();
                assert(ceil_boundary(bytes, start as int)
                    == ceil_boundary(bytes, len - self.max_path_width + 3));
            }
            out.append(tail(path, start));
            proof {
                assert(out@ =~= seq!['.', '.', '.'] + tail_text(path@, len - self.max_path_width + 3));
            }
            out
        }
    }

    /// The line of one entry, from the text of its size and the path to
    /// show: the size in its column, an icon for the kind of entry, and the
    /// path, cut to the width of this display.
    pub fn entry_line(&self, size: &str, path: &str, is_dir: bool) -> (out: String)
        ensures
            out@ == entry_text(self.max_path_width, size@, path@, is_dir),
    {
        let mut out = String::new();
        out.append("  ");
        let column = align_right(size, SIZE_WIDTH);
        out.append(green(column.as_str()).as_str());
        out.append("  ");
        let shown = self.truncate_path(path);
        if is_dir {
            out.append("📁");
            out.append(" ");
            out.append(bold(blue(shown.as_str()).as_str()).as_str());
        } else {
            out.append("📄");
            out.append(" ");
            out.append(white(shown.as_str()).as_str());
        }
        proof {
            assert(out@ =~= entry_text(self.max_path_width, size@, path@, is_dir));
        }
        out
    }

    /// The line of a node, in a report on the scan rooted at `root`.
    pub fn node_line(&self, node: &Node, root: &str) -> (out: String)
        ensures
            out@ == node_text(self.max_path_width, *node, root@),
    {
        let size = format_size(node.size);
        match strip_prefix(node.path.as_str(), root) {
            Some(rest) => self.entry_line(size.as_str(), rest.as_str(), node.is_dir),
            None => self.entry_line(size.as_str(), node.path.as_str(), node.is_dir),
        }
    }

    /// The lines above the entries, from the text of the total size and the
    /// counters: the title with the root, the summary, the errors if there
    /// were any, and the column heads.
    pub fn header(&self, root: &str, total: &str, files: u64, dirs: u64, errors: u64) -> (lines: Vec<String>)
        ensures
            texts(lines@) == header_lines(self.count, root@, total@, files, dirs, errors),
    {
        let mut lines: Vec<String> = Vec::new();
        lines.push(String::new());
        lines.push(rule('═'));
        let mut title = String::new();
        title.append(" Disk Usage Report: ");
        title.append(root);
        lines.push(bold(title.as_str()));
        lines.push(rule('═'));
        lines.push(String::new());

        let mut size_line = String::new();
        size_line.append("  ");
        size_line.append(dimmed("Total size:").as_str());
        size_line.append(" ");
        size_line.append(bold(green(total).as_str()).as_str());
        lines.push(size_line);

        let mut scanned = String::new();
        scanned.append("  ");
        scanned.append(dimmed("Scanned:").as_str());
        scanned.append(" ");
        scanned.append(cyan(decimal(files).as_str()).as_str());
        scanned.append(" files, ");
        scanned.append(cyan(decimal(dirs).as_str()).as_str());
        scanned.append(" directories");
        lines.push(scanned);

        if errors > 0 {
            let mut failed = String::new();
            failed.append("  ");
            failed.append(dimmed("Errors:").as_str());
            failed.append(" ");
            failed.append(red(decimal(errors).as_str()).as_str());
            failed.append(" (permission denied or inaccessible)");
            lines.push(failed);
        }
        lines.push(String::new());
        lines.push(rule('─'));
        let mut top = String::new();
        top.append(" Top ");
        top.append(decimal(self.count as u64).as_str());
        top.append(" by size:");
        lines.push(bold(top.as_str()));
        lines.push(rule('─'));
        lines.push(String::new());

        let mut heads = String::new();
        heads.append("  ");
        heads.append(bold(dimmed(align_right("SIZE", SIZE_WIDTH).as_str()).as_str()).as_str());
        heads.append("  ");
        heads.append(bold(dimmed("PATH").as_str()).as_str());
        lines.push(heads);

        let mut dashes = String::new();
        dashes.append("  ");
        dashes.append(dimmed(align_right("────", SIZE_WIDTH).as_str()).as_str());
        dashes.append("  ");
        dashes.append(dimmed("────").as_str());
        lines.push(dashes);
        proof {
            assert(texts(lines@) =~= header_lines(self.count, root@, total@, files, dirs, errors));
        }
        lines
    }

    /// The lines of the report on a scan result: the header, one line for
    /// each of the first `count` nodes, and the closing rule.
    pub fn report(&self, result: &ScanResult, root: &str) -> (lines: Vec<String>)
        ensures
            texts(lines@) == report_lines(*self, *result, root@),
    {
        let total = format_size(result.total_size);
        let mut lines = self.header(
            root,
            total.as_str(),
            result.file_count,
            result.dir_count,
            result.error_count,
        );
        let ghost head = texts(lines@);
        let top = result.top_n(self.count);
        let ghost shown = first_n(result.nodes@, self.count);
        if top.len() == 0 {
            let mut none = String::new();
            none.append("  ");
            none.append(dimmed("No entries found.").as_str());
            lines.push(none);
            proof {
                assert(texts(lines@) =~= head + entry_lines(*self, result.nodes@, root@));
            }
        } else {
            let mut i: usize = 0;
            while i < top.len()
                invariant
                    0 <= i <= top@.len(),
                    top@ == shown,
                    texts(lines@) == head + node_texts(self.max_path_width, shown.take(i as int), root@),
                decreases top@.len() - i,
            {
                let ghost before = lines@;
                let line = self.node_line(&top[i], root);
                lines.push(line);
                proof {
                    assert(shown.take(i + 1) =~= shown.take(i as int).push(shown[i as int]));
                    assert(node_texts(self.max_path_width, shown.take(i + 1), root@) =~= node_texts(
                        self.max_path_width,
                        shown.take(i as int),
                        root@,
                    ).push(node_text(self.max_path_width, shown[i as int], root@)));
                    assert(texts(lines@) =~= texts(before).push(line@));
                }
                i = i + 1;
            }
            proof {
                assert(shown.take(shown.len() as int) =~= shown);
            }
        }
        lines.push(String::new());
        lines.push(rule('═'));
        proof {
            assert(texts(lines@) =~= report_lines(*self, *result, root@));
        }
        lines
    }
}

} // verus!
