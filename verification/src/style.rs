//! Terminal styling of text.
//!
//! Styled text is the text between two ANSI control sequences. The
//! sequences are written by the `owo-colors` crate; each function here makes
//! one of its styles available on plain text.

use owo_colors::OwoColorize;
use vstd::prelude::*;

verus! {

/// Dimmed text.
pub open spec fn dimmed_text(text: Seq<char>) -> Seq<char> {
    "\x1b[2m"@ + text + "\x1b[0m"@
}

/// Bold text.
pub open spec fn bold_text(text: Seq<char>) -> Seq<char> {
    "\x1b[1m"@ + text + "\x1b[0m"@
}

/// Text in red.
pub open spec fn red_text(text: Seq<char>) -> Seq<char> {
    "\x1b[31m"@ + text + "\x1b[39m"@
}

/// Text in green.
pub open spec fn green_text(text: Seq<char>) -> Seq<char> {
    "\x1b[32m"@ + text + "\x1b[39m"@
}

/// Text in blue.
pub open spec fn blue_text(text: Seq<char>) -> Seq<char> {
    "\x1b[34m"@ + text + "\x1b[39m"@
}

/// Text in cyan.
pub open spec fn cyan_text(text: Seq<char>) -> Seq<char> {
    "\x1b[36m"@ + text + "\x1b[39m"@
}

/// Text in white.
pub open spec fn white_text(text: Seq<char>) -> Seq<char> {
    "\x1b[37m"@ + text + "\x1b[39m"@
}

/// `OwoColorize::dimmed` on text.
///
/// Trusted: the text comes out between the sequence that dims and the one
/// that resets all styles.
#[verifier::external_body]
pub(crate) fn dimmed(text: &str) -> (out: String)
    ensures
        out@ == dimmed_text(text@),
{
    format!("{}", text.dimmed())
}

/// `OwoColorize::bold` on text.
///
/// Trusted: the text comes out between the sequence for bold and the one
/// that resets all styles.
#[verifier::external_body]
pub(crate) fn bold(text: &str) -> (out: String)
    ensures
        out@ == bold_text(text@),
{
    format!("{}", text.bold())
}

/// `OwoColorize::red` on text.
///
/// Trusted: the text comes out between the sequence for a red foreground
/// and the one for the default foreground.
#[verifier::external_body]
pub(crate) fn red(text: &str) -> (out: String)
    ensures
        out@ == red_text(text@),
{
    format!("{}", text.red())
}

/// `OwoColorize::green` on text.
///
/// Trusted: the text comes out between the sequence for a green foreground
/// and the one for the default foreground.
#[verifier::external_body]
pub(crate) fn green(text: &str) -> (out: String)
    ensures
        out@ == green_text(text@),
{
    format!("{}", text.green())
}

/// `OwoColorize::blue` on text.
///
/// Trusted: the text comes out between the sequence for a blue foreground
/// and the one for the default foreground.
#[verifier::external_body]
pub(crate) fn blue(text: &str) -> (out: String)
    ensures
        out@ == blue_text(text@),
{
    format!("{}", text.blue())
}

/// `OwoColorize::cyan` on text.
///
/// Trusted: the text comes out between the sequence for a cyan foreground
/// and the one for the default foreground.
#[verifier::external_body]
pub(crate) fn cyan(text: &str) -> (out: String)
    ensures
        out@ == cyan_text(text@),
{
    format!("{}", text.cyan())
}

/// `OwoColorize::white` on text.
///
/// Trusted: the text comes out between the sequence for a white foreground
/// and the one for the default foreground.
#[verifier::external_body]
pub(crate) fn white(text: &str) -> (out: String)
    ensures
        out@ == white_text(text@),
{
    format!("{}", text.white())
}

} // verus!
