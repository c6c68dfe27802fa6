//! What a command of the command-line interface carries for its doc page,
//! and what the pager that shows the page does on each key.

use vstd::prelude::*;

verus! {

/// The documentation of a command.
#[derive(Debug)]
pub struct CliDoc {
    /// The name of the doc page; the place scrolled to is remembered under it.
    pub name: &'static str,
    /// The documentation itself, as markdown.
    pub content: &'static str,
}

/// A key pressed while a doc page is shown.
#[derive(Clone, Copy, Debug, PartialEq, Eq, Structural)]
pub enum PagerKey {
    Home,
    End,
    Up,
    Down,
    PageUp,
    PageDown,
    Esc,
    Enter,
    Char(char),
    /// Any other key.
    Other,
}

/// What the pager does in answer to a key.
#[derive(Clone, Copy, Debug, PartialEq, Eq, Structural)]
pub enum PagerAction {
    /// Show the page from its first line.
    ScrollToTop,
    /// Show the end of the page.
    ScrollToEnd,
    /// Move by so many lines, down if positive.
    ScrollLines(i32),
    /// Move by so many screens, down if positive.
    ScrollPages(i32),
    /// Leave the pager.
    Quit,
    /// Stay as it is.
    Stay,
}

/// The pager's keys: the arrows and `j`, `k` move by a line, the page keys
/// by a screen, `Home`, `End` and `g`, `G` go to either end, and `Esc`,
/// `Enter` and `q` leave.
pub open spec fn action_on(key: PagerKey) -> PagerAction {
    if key == PagerKey::Home || key == PagerKey::Char('g') {
        PagerAction::ScrollToTop
    } else if key == PagerKey::End || key == PagerKey::Char('G') {
        PagerAction::ScrollToEnd
    } else if key == PagerKey::Up || key == PagerKey::Char('k') {
        PagerAction::ScrollLines(-1i32)
    } else if key == PagerKey::Down || key == PagerKey::Char('j') {
        PagerAction::ScrollLines(1i32)
    } else if key == PagerKey::PageUp {
        PagerAction::ScrollPages(-1i32)
    } else if key == PagerKey::PageDown {
        PagerAction::ScrollPages(1i32)
    } else if key == PagerKey::Esc || key == PagerKey::Enter || key == PagerKey::Char('q') {
        PagerAction::Quit
    } else {
        PagerAction::Stay
    }
}

/// What the pager does on `key`.
pub fn pager_action(key: PagerKey) -> (r: PagerAction)
    ensures
        r == action_on(key),
{
    match key {
        PagerKey::Home => PagerAction::ScrollToTop,
        PagerKey::End => PagerAction::ScrollToEnd,
        PagerKey::Up => PagerAction::ScrollLines(-1),
        PagerKey::Down => PagerAction::ScrollLines(1),
        PagerKey::PageUp => PagerAction::ScrollPages(-1),
        PagerKey::PageDown => PagerAction::ScrollPages(1),
        PagerKey::Esc | PagerKey::Enter => PagerAction::Quit,
        PagerKey::Char(c) => {
            if c == 'g' {
                PagerAction::ScrollToTop
            } else if c == 'G' {
                PagerAction::ScrollToEnd
            } else if c == 'k' {
                PagerAction::ScrollLines(-1)
            } else if c == 'j' {
                PagerAction::ScrollLines(1)
            } else if c == 'q' {
                PagerAction::Quit
            } else {
                PagerAction::Stay
            }
        },
        PagerKey::Other => PagerAction::Stay,
    }
}

} // verus!
