//! Progress reporting: what a snapshot of a running scan holds, when one is
//! due, and the text that is shown for it.
//!
//! Snapshots are advisory. Nothing in a scan's result depends on whether one
//! was taken or shown.

use vstd::prelude::*;
use vstd::string::StringExecFns;
use crate::text::{
    decimal_digits, digit, digit_char, head, head_text, push_decimal, push_two_digits, zero_padded,
};
use crate::traversal::{current_dir_name, dir_count, file_count, total_size, wrap64, Traversal};

verus! {

/// Least time between two progress snapshots, in milliseconds.
pub const PROGRESS_INTERVAL_MILLIS: u128 = 50;

/// Longest directory name shown in a progress message, in bytes.
pub const DIR_NAME_WIDTH: usize = 20;

/// Whether a progress snapshot is due, `elapsed_millis` after the last one.
pub fn progress_due(elapsed_millis: u128) -> (due: bool)
    ensures
        due == (elapsed_millis >= PROGRESS_INTERVAL_MILLIS),
{
    elapsed_millis >= PROGRESS_INTERVAL_MILLIS
}

/// A number in decimal, with a comma between groups of three digits.
pub open spec fn with_separators(n: nat) -> Seq<char>
    decreases n,
{
    if n < 1000 {
        decimal_digits(n)
    } else {
        with_separators(n / 1000) + seq![
            ',',
            digit_char((n % 1000) / 100),
            digit_char((n % 100) / 10),
            digit_char(n % 10),
        ]
    }
}

/// Appends `n` with thousand separators to `out`.
pub fn push_number(out: &mut String, n: u64)
    ensures
        final(out)@ == old(out)@ + with_separators(n as nat),
    decreases n,
{
    if n < 1000 {
        push_decimal(out, n);
    } else {
        push_number(out, n / 1000);
        out.push(',');
        out.push(digit(((n % 1000) / 100) as u8));
        out.push(digit(((n % 100) / 10) as u8));
        out.push(digit((n % 10) as u8));
        proof {
            assert(final(out)@ =~= old(out)@ + with_separators(n as nat));
        }
    }
}

/// Format a number with thousand separators
pub fn format_number(n: u64) -> (out: String)
    ensures
        out@ == with_separators(n as nat),
{
    let mut out = String::new();
    push_number(&mut out, n);
    proof {
        assert(Seq::<char>::empty() + with_separators(n as nat) =~= with_separators(n as nat));
    }
    out
}

/// The text of [`truncate_str`]: `text` itself if it has at most `max_len`
/// bytes; else its first `max_len - 3` bytes, cut back to a character
/// boundary, and an ellipsis.
pub open spec fn truncated(text: Seq<char>, max_len: usize) -> Seq<char> {
    if vstd::utf8::encode_utf8(text).len() <= max_len {
        text
    } else {
        head_text(text, if max_len >= 3 { max_len - 3 } else { 0 }) + seq!['.', '.', '.']
    }
}

/// Text of ASCII characters is cut by characters: what is longer than
/// `max_len` keeps its first `max_len - 3` characters before the ellipsis.
pub proof fn lemma_truncated_ascii(text: Seq<char>, max_len: usize)
    requires
        vstd::utf8::is_ascii_chars(text),
    ensures
        truncated(text, max_len) == if text.len() <= max_len {
            text
        } else if max_len >= 3 {
            text.take(max_len - 3) + seq!['.', '.', '.']
        } else {
            seq!['.', '.', '.']
        },
        text.len() > max_len >= 3 ==> truncated(text, max_len).len() == max_len,
{
    if text.len() > max_len {
        if max_len >= 3 {
            crate::text::lemma_head_text_ascii(text, max_len - 3);
        } else {
            crate::text::lemma_head_text_ascii(text, 0);
            assert(text.take(0) + seq!['.', '.', '.'] =~= seq!['.', '.', '.']);
        }
    } else {
        crate::text::lemma_head_text_ascii(text, 0);
    }
}

/// Truncate a string to max length with ellipsis
///
/// Lengths are counted in bytes. A cut never splits a character: it moves
/// back to the nearest character boundary.
pub fn truncate_str(s: &str, max_len: usize) -> (out: String)
    ensures
        out@ == truncated(s@, max_len),
{
    let len: usize = s.as_bytes().len();
    if len <= max_len {
        s.to_owned()
    } else {
        let keep: usize = if max_len >= 3 { max_len - 3 } else { 0 };
        let mut out = head(s, keep).to_owned();
        out.push('.');
        out.push('.');
        out.push('.');
        proof {
            assert(out@ =~= head_text(s@, keep as int) + seq!['.', '.', '.']);
        }
        out
    }
}

/// The text of [`format_duration`].
pub open spec fn duration_text(secs: u64, subsec_millis: u32) -> Seq<char> {
    if secs >= 60 {
        decimal_digits((secs / 60) as nat) + seq!['m', ' '] + decimal_digits((secs % 60) as nat) + seq!['s']
    } else if secs > 0 {
        decimal_digits(secs as nat) + seq!['.'] + zero_padded((subsec_millis / 10) as nat, 2) + seq!['s']
    } else {
        decimal_digits(subsec_millis as nat) + seq!['m', 's']
    }
}

/// Format a duration in human-readable form
///
/// The duration is given as whole seconds and the milliseconds beyond them.
/// From a minute on it reads as minutes and seconds, from a second on as
/// seconds with two decimals, below that as milliseconds.
pub fn format_duration(secs: u64, subsec_millis: u32) -> (out: String)
    ensures
        out@ == duration_text(secs, subsec_millis),
{
    let mut out = String::new();
    if secs >= 60 {
        push_decimal(&mut out, secs / 60);
        out.push('m');
        out.push(' ');
        push_decimal(&mut out, secs % 60);
        out.push('s');
        proof {
            assert(out@ =~= duration_text(secs, subsec_millis));
        }
    } else if secs > 0 {
        push_decimal(&mut out, secs);
        out.push('.');
        push_two_digits(&mut out, (subsec_millis / 10) as u64);
        out.push('s');
        proof {
            assert(out@ =~= duration_text(secs, subsec_millis));
        }
    } else {
        push_decimal(&mut out, subsec_millis as u64);
        out.push('m');
        out.push('s');
        proof {
            assert(out@ =~= duration_text(secs, subsec_millis));
        }
    }
    out
}

/// Bytes in a kilobyte.
pub const KB: u64 = 0x400;

/// Bytes in a megabyte.
pub const MB: u64 = 0x10_0000;

/// Bytes in a gigabyte.
pub const GB: u64 = 0x4000_0000;

/// Bytes in a terabyte.
pub const TB: u64 = 0x100_0000_0000;

/// The quotient of `num` by `den`, rounded to the nearest integer; a quotient
/// halfway between two integers goes to the even one.
pub open spec fn round_half_even(num: nat, den: nat) -> nat
    recommends
        den > 0,
{
    let q = num / den;
    let r = num % den;
    if 2 * r > den || (2 * r == den && q % 2 == 1) {
        q + 1
    } else {
        q
    }
}

/// The spacing of double-precision numbers around `n`: 1 below 2^53, and
/// twice as much with every further bit.
pub open spec fn double_spacing(n: nat) -> nat
    decreases n,
{
    if n < 0x20_0000_0000_0000 {
        1
    } else {
        2 * double_spacing(n / 2)
    }
}

/// The double-precision number nearest to `n`.
///
/// Sizes are shown after a division in double precision. A 64-bit size of
/// 2^53 bytes or more need not be a double-precision number; it is first
/// rounded to the nearest one.
pub open spec fn nearest_double(n: nat) -> nat {
    round_half_even(n, double_spacing(n)) * double_spacing(n)
}

/// `bytes / unit`, in steps of `1 / scale`, rounded half to even.
pub open spec fn scaled_size(bytes: nat, unit: nat, scale: nat) -> nat {
    round_half_even(nearest_double(bytes) * scale, unit)
}

/// A number of tenths with one decimal.
pub open spec fn tenths_text(amount: nat) -> Seq<char> {
    decimal_digits(amount / 10) + seq!['.'] + decimal_digits(amount % 10)
}

/// A number of hundredths with two decimals.
pub open spec fn hundredths_text(amount: nat) -> Seq<char> {
    decimal_digits(amount / 100) + seq!['.'] + zero_padded(amount % 100, 2)
}

/// The text of [`format_size_simple`].
pub open spec fn size_text(bytes: u64) -> Seq<char> {
    if bytes >= TB {
        hundredths_text(scaled_size(bytes as nat, TB as nat, 100)) + seq![' ', 'T', 'B']
    } else if bytes >= GB {
        hundredths_text(scaled_size(bytes as nat, GB as nat, 100)) + seq![' ', 'G', 'B']
    } else if bytes >= MB {
        tenths_text(scaled_size(bytes as nat, MB as nat, 10)) + seq![' ', 'M', 'B']
    } else if bytes >= KB {
        tenths_text(scaled_size(bytes as nat, KB as nat, 10)) + seq![' ', 'K', 'B']
    } else {
        decimal_digits(bytes as nat) + seq![' ', 'B']
    }
}

/// Divides and rounds half to even.
fn divide_half_even(num: u128, den: u128) -> (out: u128)
    requires
        0 < den <= 0x1_0000_0000_0000_0000,
        num < 0x1_0000_0000_0000_0000_0000_0000,
    ensures
        out == round_half_even(num as nat, den as nat),
        out <= num / den + 1,
{
    let q: u128 = num / den;
    let r: u128 = num % den;
    if 2 * r > den || (2 * r == den && q % 2 == 1) {
        q + 1
    } else {
        q
    }
}

/// The double-precision number nearest to `bytes`.
fn to_double(bytes: u64) -> (out: u128)
    ensures
        out == nearest_double(bytes as nat),
        out < 0x2_0000_0000_0000_0000,
{
    let mut unit: u64 = 1;
    let mut rest: u64 = bytes;
    while rest >= 0x20_0000_0000_0000
        invariant
            1 <= unit,
            unit * rest <= bytes,
            unit > 1 ==> rest >= 0x10_0000_0000_0000,
            double_spacing(bytes as nat) == unit * double_spacing(rest as nat),
        decreases rest,
    {
        proof {
            let u = unit as int;
            let r = rest as int;
            assert(u < 4096) by (nonlinear_arith)
                requires
                    u * r <= 0xffff_ffff_ffff_ffff,
                    r >= 0x20_0000_0000_0000,
                    u >= 1,
            ;
            assert((2 * u) * (r / 2) <= u * r) by (nonlinear_arith)
                requires
                    u >= 1,
                    r >= 0,
            ;
            assert(u * (2 * double_spacing((r / 2) as nat)) == (2 * u) * double_spacing((r / 2) as nat))
                by (nonlinear_arith);
        }
        unit = unit * 2;
        rest = rest / 2;
    }
    proof {
        let u = unit as int;
        let r = rest as int;
        assert(u * 1 == u) by (nonlinear_arith);
        assert(u <= 4096) by (nonlinear_arith)
            requires
                u * r <= 0xffff_ffff_ffff_ffff,
                u > 1 ==> r >= 0x10_0000_0000_0000,
                u >= 1,
        ;
    }
    let count: u128 = divide_half_even(bytes as u128, unit as u128);
    proof {
        let c = count as int;
        let u = unit as int;
        let b = bytes as int;
        assert(c * u <= b + u) by (nonlinear_arith)
            requires
                c <= b / u + 1,
                u >= 1,
                b >= 0,
        ;
    }
    count * (unit as u128)
}

/// Below 2^53 every whole number is a double-precision number.
pub proof fn lemma_nearest_double_exact(n: nat)
    requires
        n < 0x20_0000_0000_0000,
    ensures
        nearest_double(n) == n,
{
    assert(double_spacing(n) == 1);
    assert(n / 1 == n && n % 1 == 0);
    assert(n * 1 == n);
}

/// Appends a number of tenths with one decimal.
fn push_tenths(out: &mut String, amount: u64)
    ensures
        final(out)@ == old(out)@ + tenths_text(amount as nat),
{
    push_decimal(out, amount / 10);
    out.push('.');
    push_decimal(out, amount % 10);
    proof {
        assert(final(out)@ =~= old(out)@ + tenths_text(amount as nat));
    }
}

/// Appends a number of hundredths with two decimals.
fn push_hundredths(out: &mut String, amount: u64)
    ensures
        final(out)@ == old(out)@ + hundredths_text(amount as nat),
{
    push_decimal(out, amount / 100);
    out.push('.');
    push_two_digits(out, amount % 100);
    proof {
        assert(final(out)@ =~= old(out)@ + hundredths_text(amount as nat));
    }
}

/// Appends a size as [`format_size_simple`] writes it.
pub fn push_size(out: &mut String, bytes: u64)
    ensures
        final(out)@ == old(out)@ + size_text(bytes),
{
    if bytes >= TB {
        let amount: u128 = divide_half_even(to_double(bytes) * 100, TB as u128);
        push_hundredths(out, amount as u64);
        out.push(' ');
        out.push('T');
        out.push('B');
    } else if bytes >= GB {
        let amount: u128 = divide_half_even(to_double(bytes) * 100, GB as u128);
        push_hundredths(out, amount as u64);
        out.push(' ');
        out.push('G');
        out.push('B');
    } else if bytes >= MB {
        let amount: u128 = divide_half_even(to_double(bytes) * 10, MB as u128);
        push_tenths(out, amount as u64);
        out.push(' ');
        out.push('M');
        out.push('B');
    } else if bytes >= KB {
        let amount: u128 = divide_half_even(to_double(bytes) * 10, KB as u128);
        push_tenths(out, amount as u64);
        out.push(' ');
        out.push('K');
        out.push('B');
    } else {
        push_decimal(out, bytes);
        out.push(' ');
        out.push('B');
    }
    proof {
        assert(final(out)@ =~= old(out)@ + size_text(bytes));
    }
}

/// Simple size formatting for progress messages
///
/// Sizes read in binary units: bytes as they are, kilobytes and megabytes
/// with one decimal, gigabytes and terabytes with two. The last decimal is
/// rounded half to even.
pub fn format_size_simple(bytes: u64) -> (out: String)
    ensures
        out@ == size_text(bytes),
{
    let mut out = String::new();
    push_size(&mut out, bytes);
    proof {
        assert(Seq::<char>::empty() + size_text(bytes) =~= size_text(bytes));
    }
    out
}

/// A best-effort view of a running scan.
#[derive(Debug, Clone)]
pub struct ProgressSnapshot {
    /// Files seen so far
    pub files_scanned: u64,
    /// Directories seen so far
    pub dirs_scanned: u64,
    /// Bytes counted so far
    pub bytes_scanned: u64,
    /// Name of the directory visited last
    pub current_directory_name: String,
}

/// The message shown for a snapshot.
pub open spec fn progress_text(snapshot: ProgressSnapshot) -> Seq<char> {
    "Scanning: "@ + truncated(snapshot.current_directory_name@, DIR_NAME_WIDTH) + " | "@ + with_separators(
        snapshot.files_scanned as nat,
    ) + " files, "@ + with_separators(snapshot.dirs_scanned as nat) + " dirs | "@ + size_text(
        snapshot.bytes_scanned,
    )
}

/// The message shown between the walk and the aggregation.
pub open spec fn aggregating_text(files: u64, bytes: u64) -> Seq<char> {
    "Calculating directory sizes... ("@ + with_separators(files as nat) + " files, "@ + size_text(bytes)
        + ")"@
}

/// The message shown when a scan is done.
pub open spec fn done_text(files: u64, dirs: u64, bytes: u64, secs: u64, subsec_millis: u32) -> Seq<char> {
    "Done! "@ + with_separators(files as nat) + " files, "@ + with_separators(dirs as nat) + " dirs ("@
        + size_text(bytes) + ") in "@ + duration_text(secs, subsec_millis)
}

impl ProgressSnapshot {
    /// The snapshot of a walk as it stands.
    pub fn of(walk: &Traversal) -> (snapshot: Self)
        requires
            walk.wf(),
        ensures
            snapshot.files_scanned == file_count(walk@),
            snapshot.dirs_scanned == dir_count(walk@),
            snapshot.bytes_scanned == wrap64(total_size(walk@)),
            snapshot.current_directory_name@ == current_dir_name(walk@),
    {
        ProgressSnapshot {
            files_scanned: walk.files_scanned(),
            dirs_scanned: walk.dirs_scanned(),
            bytes_scanned: walk.total_size(),
            current_directory_name: walk.current_dir().to_owned(),
        }
    }

    /// The message to show for this snapshot: the current directory, cut to
    /// [`DIR_NAME_WIDTH`], and the counters.
    pub fn message(&self) -> (out: String)
        ensures
            out@ == progress_text(*self),
    {
        let mut out = String::new();
        out.append("Scanning: ");
        let name = truncate_str(self.current_directory_name.as_str(), DIR_NAME_WIDTH);
        out.append(name.as_str());
        out.append(" | ");
        push_number(&mut out, self.files_scanned);
        out.append(" files, ");
        push_number(&mut out, self.dirs_scanned);
        out.append(" dirs | ");
        push_size(&mut out, self.bytes_scanned);
        proof {
            assert(out@ =~= progress_text(*self));
        }
        out
    }
}

/// The message to show once the walk is over and aggregation begins.
pub fn aggregating_message(files: u64, bytes: u64) -> (out: String)
    ensures
        out@ == aggregating_text(files, bytes),
{
    let mut out = String::new();
    out.append("Calculating directory sizes... (");
    push_number(&mut out, files);
    out.append(" files, ");
    push_size(&mut out, bytes);
    out.append(")");
    proof {
        assert(out@ =~= aggregating_text(files, bytes));
    }
    out
}

/// The message to show when a scan is done, with the time it took.
pub fn done_message(files: u64, dirs: u64, bytes: u64, secs: u64, subsec_millis: u32) -> (out: String)
    ensures
        out@ == done_text(files, dirs, bytes, secs, subsec_millis),
{
    let mut out = String::new();
    out.append("Done! ");
    push_number(&mut out, files);
    out.append(" files, ");
    push_number(&mut out, dirs);
    out.append(" dirs (");
    push_size(&mut out, bytes);
    out.append(") in ");
    let took = format_duration(secs, subsec_millis);
    out.append(took.as_str());
    proof {
        assert(out@ =~= done_text(files, dirs, bytes, secs, subsec_millis));
    }
    out
}

} // verus!
