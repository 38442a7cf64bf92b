//! The state of the summary screen: how far the list is scrolled, and
//! what a key does to it.

use vstd::prelude::*;

verus! {

/// How many entries the summary lists at most.
pub const SUMMARY_LIMIT: usize = 20;

/// What follows the summary.
#[derive(Debug, Clone, Copy, PartialEq, Eq, Structural)]
pub enum SummaryAction {
    Continue,
    LaunchInteractive,
}

/// A key as the summary understands it.
#[derive(Debug, Clone, Copy, PartialEq, Eq, Structural)]
pub enum SummaryKey {
    Close,
    Interactive,
    Up,
    Down,
    PageUp,
    PageDown,
    Home,
    End,
    Other,
}

/// What the summary does after a key.
#[derive(Debug, Clone, Copy, PartialEq, Eq, Structural)]
pub enum SummaryStep {
    /// The summary stays, scrolled to this place.
    Stay(usize),
    /// The summary closes.
    Leave(SummaryAction),
}

/// The place of the last of `len` entries, or 0 if there is none.
pub open spec fn last_place(len: int) -> int {
    if len <= 0 {
        0
    } else {
        len - 1
    }
}

/// The place after scrolling `by` entries up: not above the first.
pub open spec fn scrolled_up(offset: int, by: int) -> int {
    if offset >= by {
        offset - by
    } else {
        0
    }
}

/// The place after scrolling `by` entries down a list of `len`: not
/// below the last entry.
pub open spec fn scrolled_down(offset: int, by: int, len: int) -> int {
    if offset + by <= last_place(len) {
        offset + by
    } else {
        last_place(len)
    }
}

/// Scrolls `by` entries up.
pub fn scroll_up(offset: usize, by: usize) -> (r: usize)
    ensures
        r as int == scrolled_up(offset as int, by as int),
{
    if offset >= by {
        offset - by
    } else {
        0
    }
}

/// Scrolls `by` entries down a list of `len`.
pub fn scroll_down(offset: usize, by: usize, len: usize) -> (r: usize)
    ensures
        r as int == scrolled_down(offset as int, by as int, len as int),
{
    let last = if len == 0 {
        0
    } else {
        len - 1
    };
    if offset <= last && last - offset >= by {
        offset + by
    } else {
        last
    }
}

/// The number of entries the summary lists, of `len`.
pub fn display_count(len: usize) -> (r: usize)
    ensures
        r == if len < SUMMARY_LIMIT {
            len
        } else {
            SUMMARY_LIMIT
        },
{
    if len < SUMMARY_LIMIT {
        len
    } else {
        SUMMARY_LIMIT
    }
}

/// Acts on one key of the summary over `len` entries, scrolled to
/// `offset`.
pub fn summary_step(key: SummaryKey, offset: usize, len: usize) -> (r: SummaryStep)
    ensures
        r == match key {
            SummaryKey::Close => SummaryStep::Leave(SummaryAction::Continue),
            SummaryKey::Interactive => SummaryStep::Leave(SummaryAction::LaunchInteractive),
            SummaryKey::Up => SummaryStep::Stay(scrolled_up(offset as int, 1) as usize),
            SummaryKey::Down => SummaryStep::Stay(
                scrolled_down(offset as int, 1, len as int) as usize,
            ),
            SummaryKey::PageUp => SummaryStep::Stay(scrolled_up(offset as int, 10) as usize),
            SummaryKey::PageDown => SummaryStep::Stay(
                scrolled_down(offset as int, 10, len as int) as usize,
            ),
            SummaryKey::Home => SummaryStep::Stay(0),
            SummaryKey::End => SummaryStep::Stay(last_place(len as int) as usize),
            SummaryKey::Other => SummaryStep::Stay(offset),
        },
{
    match key {
        SummaryKey::Close => SummaryStep::Leave(SummaryAction::Continue),
        SummaryKey::Interactive => SummaryStep::Leave(SummaryAction::LaunchInteractive),
        SummaryKey::Up => SummaryStep::Stay(scroll_up(offset, 1)),
        SummaryKey::Down => SummaryStep::Stay(scroll_down(offset, 1, len)),
        SummaryKey::PageUp => SummaryStep::Stay(scroll_up(offset, 10)),
        SummaryKey::PageDown => SummaryStep::Stay(scroll_down(offset, 10, len)),
        SummaryKey::Home => SummaryStep::Stay(0),
        SummaryKey::End => SummaryStep::Stay(
            if len == 0 {
                0
            } else {
                len - 1
            },
        ),
        SummaryKey::Other => SummaryStep::Stay(offset),
    }
}

} // verus!
