//! The state of an interactive selection: a ranked list of the larger
//! directories, a cursor, and a mark on each directory chosen for
//! deletion.

use crate::ranking::{descending, lemma_ranked_descends, ranked, sort_by_cumulative_size};
use crate::scanner::{copy_entry, entry_records, texts, DirectoryEntry, EntryRecord};
use vstd::prelude::*;

verus! {

/// The smallest cumulative size, in bytes, with which a directory is
/// offered for selection: one mebibyte.
pub const MIN_SIZE_BYTES: u64 = 1048576;

/// How many entries a page key moves the cursor.
pub const PAGE_STEP: usize = 10;

/// Why an interactive session failed.
#[derive(Debug)]
pub enum InteractiveError {
    TerminalError(String),
    IoError(std::io::Error),
}

/// A key as the session understands it.
#[derive(Debug, Clone, Copy, PartialEq, Eq, Structural)]
pub enum SessionKey {
    Quit,
    Toggle,
    Delete,
    Up,
    Down,
    SelectAll,
    ClearAll,
    PageUp,
    PageDown,
    Home,
    End,
    Other,
}

/// What the session does after a key.
#[derive(Debug)]
pub enum SessionStep {
    /// The session goes on.
    Continue,
    /// The session ends with these paths to delete.
    Finished(Vec<String>),
}

pub struct InteractiveSession {
    entries: Vec<DirectoryEntry>,
    selected: Vec<bool>,
    current_index: usize,
    scroll_offset: usize,
}

/// The entry is large enough to be offered.
pub open spec fn is_large(e: EntryRecord) -> bool {
    e.cumulative_size_bytes >= MIN_SIZE_BYTES
}

/// `is_large` as a value.
pub open spec fn large_filter() -> spec_fn(EntryRecord) -> bool {
    |e: EntryRecord| is_large(e)
}

/// The paths of the marked entries among the first `n`, in order.
pub open spec fn marked_paths(entries: Seq<EntryRecord>, marks: Seq<bool>, n: int) -> Seq<
    Seq<char>,
>
    decreases n,
{
    if n <= 0 {
        Seq::empty()
    } else if marks[n - 1] {
        marked_paths(entries, marks, n - 1).push(entries[n - 1].path)
    } else {
        marked_paths(entries, marks, n - 1)
    }
}

/// The cursor after a move of `by` entries down a list of `len`: it stops
/// at the last entry.
pub open spec fn moved_down(current: int, by: int, len: int) -> int {
    if len == 0 {
        0
    } else if current + by < len {
        current + by
    } else {
        len - 1
    }
}

/// The cursor after a move of `by` entries up: it stops at the first.
pub open spec fn moved_up(current: int, by: int) -> int {
    if current >= by {
        current - by
    } else {
        0
    }
}

/// The step ends the session with these paths.
pub open spec fn ends_with(step: SessionStep, paths: Seq<Seq<char>>) -> bool {
    match step {
        SessionStep::Finished(found) => texts(found@) == paths,
        SessionStep::Continue => false,
    }
}

impl InteractiveSession {
    /// The entries on offer, ranked by cumulative size.
    pub closed spec fn items(&self) -> Seq<EntryRecord> {
        entry_records(self.entries@)
    }

    /// For each entry, whether it is marked for deletion.
    pub closed spec fn marks(&self) -> Seq<bool> {
        self.selected@
    }

    /// The place of the cursor.
    pub closed spec fn cursor(&self) -> int {
        self.current_index as int
    }

    /// The place of the first entry shown.
    pub closed spec fn scroll(&self) -> int {
        self.scroll_offset as int
    }

    /// There is a mark for every entry, and the cursor is on an entry,
    /// or at 0 if there is none.
    pub closed spec fn wf(&self) -> bool {
        &&& self.selected.len() == self.entries.len()
        &&& self.current_index as int == 0 || self.current_index < self.entries.len()
    }

    /// Some entry is marked.
    pub open spec fn any_marked(&self) -> bool {
        exists|i: int| 0 <= i < self.marks().len() && self.marks()[i]
    }

    /// A session over the entries of at least one mebibyte of cumulative
    /// size, largest first, with nothing marked and the cursor on the
    /// first.
    pub fn new(entries: Vec<DirectoryEntry>) -> (s: Self)
        ensures
            s.wf(),
            s.items() == ranked(entry_records(entries@).filter(large_filter())),
            descending(s.items()),
            s.marks().len() == s.items().len(),
            forall|i: int| 0 <= i < s.marks().len() ==> !s.marks()[i],
            s.cursor() == 0,
            s.scroll() == 0,
    {
        let ghost recs = entry_records(entries@);
        let mut kept: Vec<DirectoryEntry> = Vec::new();
        let mut i: usize = 0;
        proof {
            assert(recs.take(0) =~= Seq::<EntryRecord>::empty());
            recs.take(0).lemma_filter_len(large_filter());
            assert(entry_records(kept@) =~= recs.take(0).filter(large_filter()));
        }
        while i < entries.len()
            invariant
                i <= entries.len(),
                recs == entry_records(entries@),
                entry_records(kept@) == recs.take(i as int).filter(large_filter()),
            decreases entries.len() - i,
        {
            let ghost kept0 = entry_records(kept@);
            proof {
                assert(recs.take(i + 1) =~= recs.take(i as int).push(recs[i as int]));
                recs.take(i as int).lemma_filter_push(recs[i as int], large_filter());
                assert(recs[i as int] == entries@[i as int]@);
            }
            if entries[i].cumulative_size_bytes >= MIN_SIZE_BYTES {
                kept.push(copy_entry(&entries[i]));
                proof {
                    assert(entry_records(kept@) =~= kept0.push(recs[i as int]));
                }
            }
            i += 1;
        }
        proof {
            assert(recs.take(entries.len() as int) =~= recs);
            lemma_ranked_descends(recs.filter(large_filter()));
        }
        let sorted = sort_by_cumulative_size(kept);
        let mut selected: Vec<bool> = Vec::new();
        let mut k: usize = 0;
        while k < sorted.len()
            invariant
                k <= sorted.len(),
                selected.len() == k,
                forall|j: int| 0 <= j < k ==> !selected[j],
            decreases sorted.len() - k,
        {
            selected.push(false);
            k += 1;
        }
        InteractiveSession { entries: sorted, selected, current_index: 0, scroll_offset: 0 }
    }

    /// The entries on offer.
    pub fn entries(&self) -> (r: &Vec<DirectoryEntry>)
        ensures
            entry_records(r@) == self.items(),
    {
        &self.entries
    }

    /// The place of the cursor.
    pub fn current_index(&self) -> (r: usize)
        ensures
            r as int == self.cursor(),
    {
        self.current_index
    }

    /// The place of the first entry shown.
    pub fn scroll_offset(&self) -> (r: usize)
        ensures
            r as int == self.scroll(),
    {
        self.scroll_offset
    }

    /// Whether the entry at `index` is marked; no entry, no mark.
    pub fn is_selected(&self, index: usize) -> (r: bool)
        ensures
            r == (index < self.marks().len() && self.marks()[index as int]),
    {
        index < self.selected.len() && self.selected[index]
    }

    /// The number of marked entries.
    pub fn selected_count(&self) -> (r: usize)
        ensures
            r as int == marked_paths(self.items(), self.marks(), self.marks().len() as int).len(),
    {
        let mut count: usize = 0;
        let mut i: usize = 0;
        while i < self.selected.len()
            invariant
                i <= self.selected.len(),
                count <= i,
                count as int == marked_paths(self.items(), self.marks(), i as int).len(),
            decreases self.selected.len() - i,
        {
            if self.selected[i] {
                count += 1;
            }
            i += 1;
        }
        count
    }

    /// Marks the entry under the cursor, or takes its mark away.
    pub fn toggle_selection(&mut self)
        requires
            old(self).wf(),
        ensures
            final(self).wf(),
            final(self).items() == old(self).items(),
            final(self).cursor() == old(self).cursor(),
            final(self).scroll() == old(self).scroll(),
            final(self).marks() == if old(self).cursor() < old(self).marks().len() {
                old(self).marks().update(
                    old(self).cursor(),
                    !old(self).marks()[old(self).cursor()],
                )
            } else {
                old(self).marks()
            },
    {
        if self.current_index < self.entries.len() {
            let now = !self.selected[self.current_index];
            self.selected.set(self.current_index, now);
        }
    }

    /// Marks every entry.
    pub fn select_all_visible(&mut self)
        requires
            old(self).wf(),
        ensures
            final(self).wf(),
            final(self).items() == old(self).items(),
            final(self).cursor() == old(self).cursor(),
            final(self).scroll() == old(self).scroll(),
            final(self).marks().len() == old(self).marks().len(),
            forall|i: int| 0 <= i < final(self).marks().len() ==> final(self).marks()[i],
    {
        let mut i: usize = 0;
        while i < self.selected.len()
            invariant
                i <= self.selected.len(),
                self.selected.len() == old(self).selected.len(),
                self.entries == old(self).entries,
                self.current_index == old(self).current_index,
                self.scroll_offset == old(self).scroll_offset,
                forall|j: int| 0 <= j < i ==> self.selected[j],
            decreases self.selected.len() - i,
        {
            self.selected.set(i, true);
            i += 1;
        }
    }

    /// Takes every mark away.
    pub fn clear_all_selections(&mut self)
        requires
            old(self).wf(),
        ensures
            final(self).wf(),
            final(self).items() == old(self).items(),
            final(self).cursor() == old(self).cursor(),
            final(self).scroll() == old(self).scroll(),
            final(self).marks().len() == old(self).marks().len(),
            forall|i: int| 0 <= i < final(self).marks().len() ==> !final(self).marks()[i],
    {
        let mut i: usize = 0;
        while i < self.selected.len()
            invariant
                i <= self.selected.len(),
                self.selected.len() == old(self).selected.len(),
                self.entries == old(self).entries,
                self.current_index == old(self).current_index,
                self.scroll_offset == old(self).scroll_offset,
                forall|j: int| 0 <= j < i ==> !self.selected[j],
            decreases self.selected.len() - i,
        {
            self.selected.set(i, false);
            i += 1;
        }
    }

    /// Moves the cursor one entry up, unless it is on the first.
    pub fn move_up(&mut self)
        requires
            old(self).wf(),
        ensures
            final(self).wf(),
            final(self).items() == old(self).items(),
            final(self).marks() == old(self).marks(),
            final(self).scroll() == old(self).scroll(),
            final(self).cursor() == moved_up(old(self).cursor(), 1),
    {
        if self.current_index > 0 {
            self.current_index -= 1;
        }
    }

    /// Moves the cursor one entry down, unless it is on the last.
    pub fn move_down(&mut self)
        requires
            old(self).wf(),
        ensures
            final(self).wf(),
            final(self).items() == old(self).items(),
            final(self).marks() == old(self).marks(),
            final(self).scroll() == old(self).scroll(),
            final(self).cursor() == moved_down(
                old(self).cursor(),
                1,
                old(self).items().len() as int,
            ),
    {
        if self.current_index < self.entries.len() && self.entries.len() - self.current_index > 1 {
            self.current_index += 1;
        }
    }

    /// Moves the cursor a page up, at most to the first entry.
    pub fn page_up(&mut self)
        requires
            old(self).wf(),
        ensures
            final(self).wf(),
            final(self).items() == old(self).items(),
            final(self).marks() == old(self).marks(),
            final(self).scroll() == old(self).scroll(),
            final(self).cursor() == moved_up(old(self).cursor(), PAGE_STEP as int),
    {
        if self.current_index >= PAGE_STEP {
            self.current_index -= PAGE_STEP;
        } else {
            self.current_index = 0;
        }
    }

    /// Moves the cursor a page down, at most to the last entry.
    pub fn page_down(&mut self)
        requires
            old(self).wf(),
        ensures
            final(self).wf(),
            final(self).items() == old(self).items(),
            final(self).marks() == old(self).marks(),
            final(self).scroll() == old(self).scroll(),
            final(self).cursor() == moved_down(
                old(self).cursor(),
                PAGE_STEP as int,
                old(self).items().len() as int,
            ),
    {
        let len = self.entries.len();
        if len == 0 {
            self.current_index = 0;
        } else if len - 1 - self.current_index >= PAGE_STEP {
            self.current_index += PAGE_STEP;
        } else {
            self.current_index = len - 1;
        }
    }

    /// Puts the cursor on the first entry and shows the list from there.
    pub fn go_to_top(&mut self)
        requires
            old(self).wf(),
        ensures
            final(self).wf(),
            final(self).items() == old(self).items(),
            final(self).marks() == old(self).marks(),
            final(self).cursor() == 0,
            final(self).scroll() == 0,
    {
        self.current_index = 0;
        self.scroll_offset = 0;
    }

    /// Puts the cursor on the last entry.
    pub fn go_to_bottom(&mut self)
        requires
            old(self).wf(),
        ensures
            final(self).wf(),
            final(self).items() == old(self).items(),
            final(self).marks() == old(self).marks(),
            final(self).scroll() == old(self).scroll(),
            final(self).cursor() == if old(self).items().len() == 0 {
                0
            } else {
                old(self).items().len() - 1
            },
    {
        let len = self.entries.len();
        self.current_index = if len == 0 {
            0
        } else {
            len - 1
        };
    }

    /// Scrolls so that the entry under the cursor is among the
    /// `list_height` entries shown: to the cursor if it is above them, and
    /// so far that the cursor is the last one shown if it is below them.
    /// Where no entry can be shown, the cursor must be above the scroll
    /// place.
    pub fn adjust_scroll(&mut self, list_height: usize)
        requires
            old(self).wf(),
            list_height >= 1 || old(self).cursor() < old(self).scroll(),
        ensures
            final(self).wf(),
            final(self).items() == old(self).items(),
            final(self).marks() == old(self).marks(),
            final(self).cursor() == old(self).cursor(),
            final(self).scroll() == if old(self).cursor() < old(self).scroll() {
                old(self).cursor()
            } else if old(self).cursor() >= old(self).scroll() + list_height {
                old(self).cursor() - (list_height - 1)
            } else {
                old(self).scroll()
            },
            final(self).scroll() <= final(self).cursor(),
            list_height >= 1 ==> final(self).cursor() < final(self).scroll() + list_height,
    {
        if self.current_index < self.scroll_offset {
            self.scroll_offset = self.current_index;
        } else if self.current_index - self.scroll_offset >= list_height {
            self.scroll_offset = self.current_index - (list_height - 1);
        }
    }

    /// The paths of the marked entries, in the order of the list.
    pub fn get_selected_paths(&self) -> (r: Vec<String>)
        requires
            self.wf(),
        ensures
            texts(r@) == marked_paths(self.items(), self.marks(), self.marks().len() as int),
    {
        let mut paths: Vec<String> = Vec::new();
        let mut i: usize = 0;
        proof {
            assert(texts(paths@) =~= marked_paths(self.items(), self.marks(), 0));
        }
        while i < self.selected.len()
            invariant
                i <= self.selected.len(),
                self.wf(),
                texts(paths@) == marked_paths(self.items(), self.marks(), i as int),
            decreases self.selected.len() - i,
        {
            let ghost before = texts(paths@);
            if self.selected[i] {
                paths.push(self.entries[i].path.clone());
                proof {
                    assert(self.items()[i as int] == self.entries@[i as int]@);
                    assert(texts(paths@) =~= before.push(self.items()[i as int].path));
                }
            }
            i += 1;
        }
        paths
    }

    /// Whether some entry is marked.
    pub fn has_selection(&self) -> (r: bool)
        ensures
            r == self.any_marked(),
    {
        let mut i: usize = 0;
        while i < self.selected.len()
            invariant
                i <= self.selected.len(),
                forall|j: int| 0 <= j < i ==> !self.selected[j],
            decreases self.selected.len() - i,
        {
            if self.selected[i] {
                assert(self.marks()[i as int]);
                return true;
            }
            i += 1;
        }
        false
    }

    /// Acts on one key.
    ///
    /// `Quit` ends the session with nothing to delete. `Delete` ends it
    /// with the marked paths if anything is marked, and does nothing
    /// otherwise. Every other key changes the state as the method of its
    /// name says, and the session goes on.
    pub fn handle_key(&mut self, key: SessionKey) -> (r: SessionStep)
        requires
            old(self).wf(),
        ensures
            final(self).wf(),
            final(self).items() == old(self).items(),
            match key {
                SessionKey::Quit => {
                    &&& *final(self) == *old(self)
                    &&& ends_with(r, Seq::empty())
                },
                SessionKey::Delete => {
                    &&& *final(self) == *old(self)
                    &&& if old(self).any_marked() {
                        ends_with(
                            r,
                            marked_paths(
                                old(self).items(),
                                old(self).marks(),
                                old(self).marks().len() as int,
                            ),
                        )
                    } else {
                        r is Continue
                    }
                },
                SessionKey::Other => {
                    &&& *final(self) == *old(self)
                    &&& r is Continue
                },
                SessionKey::Toggle => {
                    &&& r is Continue
                    &&& final(self).scroll() == old(self).scroll()
                    &&& final(self).cursor() == old(self).cursor()
                    &&& final(self).marks() == if old(self).cursor() < old(self).marks().len() {
                        old(self).marks().update(
                            old(self).cursor(),
                            !old(self).marks()[old(self).cursor()],
                        )
                    } else {
                        old(self).marks()
                    }
                },
                SessionKey::SelectAll => {
                    &&& r is Continue
                    &&& final(self).scroll() == old(self).scroll()
                    &&& final(self).cursor() == old(self).cursor()
                    &&& final(self).marks().len() == old(self).marks().len()
                    &&& forall|i: int|
                        0 <= i < final(self).marks().len() ==> final(self).marks()[i]
                },
                SessionKey::ClearAll => {
                    &&& r is Continue
                    &&& final(self).scroll() == old(self).scroll()
                    &&& final(self).cursor() == old(self).cursor()
                    &&& final(self).marks().len() == old(self).marks().len()
                    &&& forall|i: int|
                        0 <= i < final(self).marks().len() ==> !final(self).marks()[i]
                },
                SessionKey::Up => {
                    &&& r is Continue
                    &&& final(self).scroll() == old(self).scroll()
                    &&& final(self).marks() == old(self).marks()
                    &&& final(self).cursor() == moved_up(old(self).cursor(), 1)
                },
                SessionKey::Down => {
                    &&& r is Continue
                    &&& final(self).scroll() == old(self).scroll()
                    &&& final(self).marks() == old(self).marks()
                    &&& final(self).cursor() == moved_down(
                        old(self).cursor(),
                        1,
                        old(self).items().len() as int,
                    )
                },
                SessionKey::PageUp => {
                    &&& r is Continue
                    &&& final(self).scroll() == old(self).scroll()
                    &&& final(self).marks() == old(self).marks()
                    &&& final(self).cursor() == moved_up(old(self).cursor(), PAGE_STEP as int)
                },
                SessionKey::PageDown => {
                    &&& r is Continue
                    &&& final(self).scroll() == old(self).scroll()
                    &&& final(self).marks() == old(self).marks()
                    &&& final(self).cursor() == moved_down(
                        old(self).cursor(),
                        PAGE_STEP as int,
                        old(self).items().len() as int,
                    )
                },
                SessionKey::Home => {
                    &&& r is Continue
                    &&& final(self).marks() == old(self).marks()
                    &&& final(self).cursor() == 0
                    &&& final(self).scroll() == 0
                },
                SessionKey::End => {
                    &&& r is Continue
                    &&& final(self).scroll() == old(self).scroll()
                    &&& final(self).marks() == old(self).marks()
                    &&& final(self).cursor() == if old(self).items().len() == 0 {
                        0
                    } else {
                        old(self).items().len() - 1
                    }
                },
            },
    {
        match key {
            SessionKey::Quit => {
                let none: Vec<String> = Vec::new();
                proof {
                    assert(texts(none@) =~= Seq::<Seq<char>>::empty());
                }
                SessionStep::Finished(none)
            },
            SessionKey::Delete => {
                if self.has_selection() {
                    SessionStep::Finished(self.get_selected_paths())
                } else {
                    SessionStep::Continue
                }
            },
            SessionKey::Toggle => {
                self.toggle_selection();
                SessionStep::Continue
            },
            SessionKey::Up => {
                self.move_up();
                SessionStep::Continue
            },
            SessionKey::Down => {
                self.move_down();
                SessionStep::Continue
            },
            SessionKey::SelectAll => {
                self.select_all_visible();
                SessionStep::Continue
            },
            SessionKey::ClearAll => {
                self.clear_all_selections();
                SessionStep::Continue
            },
            SessionKey::PageUp => {
                self.page_up();
                SessionStep::Continue
            },
            SessionKey::PageDown => {
                self.page_down();
                SessionStep::Continue
            },
            SessionKey::Home => {
                self.go_to_top();
                SessionStep::Continue
            },
            SessionKey::End => {
                self.go_to_bottom();
                SessionStep::Continue
            },
            SessionKey::Other => SessionStep::Continue,
        }
    }
}

} // verus!
