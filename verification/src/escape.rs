//! Terminal control sequences.
//!
//! The sequences themselves come from `termion`; each function here renders one
//! of them into a `String` and states the exact text it trusts `termion` to
//! produce.

use crate::text::decimal;
use vstd::prelude::*;

verus! {

/// Text of the sequence that hides the text cursor.
pub open spec fn hide_cursor_text() -> Seq<char> {
    "\x1b[?25l"@
}

/// Text of the sequence that shows the text cursor.
pub open spec fn show_cursor_text() -> Seq<char> {
    "\x1b[?25h"@
}

/// Text of the sequence that moves the cursor up by `lines` lines.
pub open spec fn cursor_up_text(lines: u16) -> Seq<char> {
    "\x1b["@ + decimal(lines as nat) + "A"@
}

/// Text of the sequence that clears from the cursor to the end of the screen.
pub open spec fn clear_after_cursor_text() -> Seq<char> {
    "\x1b[J"@
}

/// Text of the sequence that selects the light cyan foreground colour.
pub open spec fn highlight_color_text() -> Seq<char> {
    "\x1b[38;5;14m"@
}

/// Text of the sequence that switches to bold text.
pub open spec fn bold_text() -> Seq<char> {
    "\x1b[1m"@
}

/// Text of the sequence that resets colour and emphasis.
pub open spec fn reset_style_text() -> Seq<char> {
    "\x1b[m"@
}

/// Renders `termion::cursor::Hide`.
///
/// Trusted: the result is `ESC [ ? 2 5 l`, the constant that `termion` writes
/// for it.
#[verifier::external_body]
pub(crate) fn hide_cursor() -> (s: String)
    ensures
        s@ == hide_cursor_text(),
{
    format!("{}", termion::cursor::Hide)
}

/// Renders `termion::cursor::Show`.
///
/// Trusted: the result is `ESC [ ? 2 5 h`, the constant that `termion` writes
/// for it.
#[verifier::external_body]
pub(crate) fn show_cursor() -> (s: String)
    ensures
        s@ == show_cursor_text(),
{
    format!("{}", termion::cursor::Show)
}

/// Renders `termion::cursor::Up(lines)`.
///
/// Trusted: the result is `ESC [`, the decimal numeral of `lines`, then `A`,
/// which is how `termion` formats it.
#[verifier::external_body]
pub(crate) fn cursor_up(lines: u16) -> (s: String)
    ensures
        s@ == cursor_up_text(lines),
{
    format!("{}", termion::cursor::Up(lines))
}

/// Renders `termion::clear::AfterCursor`.
///
/// Trusted: the result is `ESC [ J`, the constant that `termion` writes for it.
#[verifier::external_body]
pub(crate) fn clear_after_cursor() -> (s: String)
    ensures
        s@ == clear_after_cursor_text(),
{
    format!("{}", termion::clear::AfterCursor)
}

/// Renders `termion::color::Fg(termion::color::LightCyan)`.
///
/// Trusted: the result is `ESC [ 3 8 ; 5 ; 1 4 m`, the foreground string that
/// `termion` defines for light cyan.
#[verifier::external_body]
pub(crate) fn highlight_color() -> (s: String)
    ensures
        s@ == highlight_color_text(),
{
    format!("{}", termion::color::Fg(termion::color::LightCyan))
}

/// Renders `termion::style::Bold`.
///
/// Trusted: the result is `ESC [ 1 m`, the constant that `termion` writes for it.
#[verifier::external_body]
pub(crate) fn bold() -> (s: String)
    ensures
        s@ == bold_text(),
{
    format!("{}", termion::style::Bold)
}

/// Renders `termion::style::Reset`.
///
/// Trusted: the result is `ESC [ m`, the constant that `termion` writes for it.
#[verifier::external_body]
pub(crate) fn reset_style() -> (s: String)
    ensures
        s@ == reset_style_text(),
{
    format!("{}", termion::style::Reset)
}

} // verus!
