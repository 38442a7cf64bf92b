//! The report of a batch of deletions.

use crate::scanner::{tally_from, texts, walk_records, walk_weight, WalkEntry};
use crate::summary_ui::{scroll_down, scroll_up, scrolled_down, scrolled_up};
use vstd::prelude::*;

verus! {

/// Why a directory could not be deleted.
#[derive(Debug)]
pub enum DeletionError {
    PermissionDenied { path: String },
    DeletionFailed { path: String, reason: String },
}

/// One attempt to delete a directory: its path, the total length of the
/// files found in it before the attempt, and, if the attempt failed, the
/// reason.
#[derive(Debug)]
pub struct DeletionAttempt {
    pub path: String,
    pub size_bytes: u64,
    pub failure: Option<String>,
}

/// What a batch of deletions did.
#[derive(Debug)]
pub struct DeletionReport {
    pub successful: Vec<String>,
    pub failed: Vec<(String, String)>,
    pub total_freed_bytes: u64,
}

/// A `DeletionAttempt` as a mathematical value.
pub struct AttemptRecord {
    pub path: Seq<char>,
    pub size_bytes: nat,
    pub failure: Option<Seq<char>>,
}

impl View for DeletionAttempt {
    type V = AttemptRecord;

    open spec fn view(&self) -> AttemptRecord {
        AttemptRecord {
            path: self.path@,
            size_bytes: self.size_bytes as nat,
            failure: match self.failure {
                Some(reason) => Some(reason@),
                None => None,
            },
        }
    }
}

/// The attempts as mathematical values.
pub open spec fn attempt_records(attempts: Seq<DeletionAttempt>) -> Seq<AttemptRecord> {
    Seq::new(attempts.len(), |i: int| attempts[i]@)
}

/// The paths of the first `n` attempts that succeeded, in order.
pub open spec fn deleted_paths(attempts: Seq<AttemptRecord>, n: int) -> Seq<Seq<char>>
    decreases n,
{
    if n <= 0 {
        Seq::empty()
    } else if attempts[n - 1].failure.is_none() {
        deleted_paths(attempts, n - 1).push(attempts[n - 1].path)
    } else {
        deleted_paths(attempts, n - 1)
    }
}

/// The paths and reasons of the first `n` attempts that failed, in order.
pub open spec fn failed_paths(attempts: Seq<AttemptRecord>, n: int) -> Seq<
    (Seq<char>, Seq<char>),
>
    decreases n,
{
    if n <= 0 {
        Seq::empty()
    } else {
        match attempts[n - 1].failure {
            Some(reason) => failed_paths(attempts, n - 1).push((attempts[n - 1].path, reason)),
            None => failed_paths(attempts, n - 1),
        }
    }
}

/// The bytes that the first `n` attempts freed: the sizes of those that
/// succeeded.
pub open spec fn freed_bytes(attempts: Seq<AttemptRecord>, n: int) -> nat
    decreases n,
{
    if n <= 0 {
        0
    } else if attempts[n - 1].failure.is_none() {
        freed_bytes(attempts, n - 1) + attempts[n - 1].size_bytes
    } else {
        freed_bytes(attempts, n - 1)
    }
}

/// The failures as mathematical values.
pub open spec fn failure_texts(failed: Seq<(String, String)>) -> Seq<(Seq<char>, Seq<char>)> {
    Seq::new(failed.len(), |i: int| (failed[i].0@, failed[i].1@))
}

proof fn lemma_freed_bytes_grow(attempts: Seq<AttemptRecord>, k: int, n: int)
    requires
        0 <= k <= n,
    ensures
        freed_bytes(attempts, k) <= freed_bytes(attempts, n),
    decreases n - k,
{
    if k < n {
        lemma_freed_bytes_grow(attempts, k, n - 1);
    }
}

impl DeletionReport {
    /// A report of nothing.
    pub fn new() -> (r: Self)
        ensures
            r.successful@.len() == 0,
            r.failed@.len() == 0,
            r.total_freed_bytes == 0,
    {
        DeletionReport { successful: Vec::new(), failed: Vec::new(), total_freed_bytes: 0 }
    }

    /// Enters one attempt: a success among the deleted paths, with its
    /// bytes counted as freed, a failure among the failed ones with its
    /// reason.
    pub fn record(&mut self, attempt: &DeletionAttempt)
        requires
            attempt.failure.is_none() ==> old(self).total_freed_bytes + attempt.size_bytes
                <= u64::MAX,
        ensures
            match attempt.failure {
                None => {
                    &&& texts(final(self).successful@) == texts(old(self).successful@).push(
                        attempt.path@,
                    )
                    &&& failure_texts(final(self).failed@) == failure_texts(old(self).failed@)
                    &&& final(self).total_freed_bytes == old(self).total_freed_bytes
                        + attempt.size_bytes
                },
                Some(reason) => {
                    &&& texts(final(self).successful@) == texts(old(self).successful@)
                    &&& failure_texts(final(self).failed@) == failure_texts(
                        old(self).failed@,
                    ).push((attempt.path@, reason@))
                    &&& final(self).total_freed_bytes == old(self).total_freed_bytes
                },
            },
    {
        match &attempt.failure {
            None => {
                self.successful.push(attempt.path.clone());
                self.total_freed_bytes = self.total_freed_bytes + attempt.size_bytes;
                proof {
                    assert(texts(self.successful@) =~= texts(old(self).successful@).push(
                        attempt.path@,
                    ));
                }
            },
            Some(reason) => {
                self.failed.push((attempt.path.clone(), reason.clone()));
                proof {
                    assert(failure_texts(self.failed@) =~= failure_texts(old(self).failed@).push(
                        (attempt.path@, reason@),
                    ));
                }
            },
        }
    }
}

/// The total length of the readable files that a walk of a directory
/// found.
pub fn calculate_dir_size(walk: &Vec<WalkEntry>) -> (r: u64)
    requires
        walk_weight(walk_records(walk@), true) <= u64::MAX,
        walk_weight(walk_records(walk@), false) <= u64::MAX,
    ensures
        r as nat == walk_weight(walk_records(walk@), true),
{
    let sums = tally_from(walk, 0);
    proof {
        let w = crate::scanner::walk_weights(walk_records(walk@), true);
        assert(w.subrange(0, walk.len() as int) =~= w);
    }
    sums.1
}

/// The report of a batch of deletions, from the attempts made: which
/// paths were deleted, which were not and why, and how many bytes the
/// deleted ones held. A failure does not end the batch.
pub fn delete_directories(attempts: &Vec<DeletionAttempt>) -> (r: Result<
    DeletionReport,
    DeletionError,
>)
    requires
        freed_bytes(attempt_records(attempts@), attempts.len() as int) <= u64::MAX,
    ensures
        r matches Ok(report) && {
            &&& texts(report.successful@) == deleted_paths(
                attempt_records(attempts@),
                attempts.len() as int,
            )
            &&& failure_texts(report.failed@) == failed_paths(
                attempt_records(attempts@),
                attempts.len() as int,
            )
            &&& report.total_freed_bytes as nat == freed_bytes(
                attempt_records(attempts@),
                attempts.len() as int,
            )
        },
{
    let ghost recs = attempt_records(attempts@);
    let mut report = DeletionReport::new();
    let mut i: usize = 0;
    proof {
        assert(texts(report.successful@) =~= deleted_paths(recs, 0));
        assert(failure_texts(report.failed@) =~= failed_paths(recs, 0));
    }
    while i < attempts.len()
        invariant
            i <= attempts.len(),
            recs == attempt_records(attempts@),
            freed_bytes(recs, attempts.len() as int) <= u64::MAX,
            texts(report.successful@) == deleted_paths(recs, i as int),
            failure_texts(report.failed@) == failed_paths(recs, i as int),
            report.total_freed_bytes as nat == freed_bytes(recs, i as int),
        decreases attempts.len() - i,
    {
        proof {
            assert(recs[i as int] == attempts@[i as int]@);
            lemma_freed_bytes_grow(recs, i + 1, attempts.len() as int);
        }
        report.record(&attempts[i]);
        i += 1;
    }
    Ok(report)
}

/// A key as the confirmation screen understands it.
#[derive(Debug, Clone, Copy, PartialEq, Eq, Structural)]
pub enum ConfirmKey {
    Yes,
    No,
    Up,
    Down,
    PageUp,
    PageDown,
    Other,
}

/// What the confirmation screen does after a key.
#[derive(Debug, Clone, Copy, PartialEq, Eq, Structural)]
pub enum ConfirmStep {
    /// The question stays, with the list scrolled to this place.
    Stay(usize),
    /// The question is answered.
    Answer(bool),
}

/// Acts on one key of the confirmation of `len` deletions, with the list
/// scrolled to `offset`.
pub fn confirmation_step(key: ConfirmKey, offset: usize, len: usize) -> (r: ConfirmStep)
    ensures
        r == match key {
            ConfirmKey::Yes => ConfirmStep::Answer(true),
            ConfirmKey::No => ConfirmStep::Answer(false),
            ConfirmKey::Up => ConfirmStep::Stay(scrolled_up(offset as int, 1) as usize),
            ConfirmKey::Down => ConfirmStep::Stay(
                scrolled_down(offset as int, 1, len as int) as usize,
            ),
            ConfirmKey::PageUp => ConfirmStep::Stay(scrolled_up(offset as int, 10) as usize),
            ConfirmKey::PageDown => ConfirmStep::Stay(
                scrolled_down(offset as int, 10, len as int) as usize,
            ),
            ConfirmKey::Other => ConfirmStep::Stay(offset),
        },
{
    match key {
        ConfirmKey::Yes => ConfirmStep::Answer(true),
        ConfirmKey::No => ConfirmStep::Answer(false),
        ConfirmKey::Up => ConfirmStep::Stay(scroll_up(offset, 1)),
        ConfirmKey::Down => ConfirmStep::Stay(scroll_down(offset, 1, len)),
        ConfirmKey::PageUp => ConfirmStep::Stay(scroll_up(offset, 10)),
        ConfirmKey::PageDown => ConfirmStep::Stay(scroll_down(offset, 10, len)),
        ConfirmKey::Other => ConfirmStep::Stay(offset),
    }
}

/// A key as the report screen understands it.
#[derive(Debug, Clone, Copy, PartialEq, Eq, Structural)]
pub enum ReportKey {
    Close,
    Up,
    Down,
    PageUp,
    PageDown,
    Other,
}

/// What the report screen does after a key.
#[derive(Debug, Clone, Copy, PartialEq, Eq, Structural)]
pub enum ReportStep {
    /// The report stays, scrolled to this place.
    Stay(usize),
    /// The report closes.
    Close,
}

/// Acts on one key of a report of `len` lines, scrolled to `offset`.
pub fn report_step(key: ReportKey, offset: usize, len: usize) -> (r: ReportStep)
    ensures
        r == match key {
            ReportKey::Close => ReportStep::Close,
            ReportKey::Up => ReportStep::Stay(scrolled_up(offset as int, 1) as usize),
            ReportKey::Down => ReportStep::Stay(
                scrolled_down(offset as int, 1, len as int) as usize,
            ),
            ReportKey::PageUp => ReportStep::Stay(scrolled_up(offset as int, 10) as usize),
            ReportKey::PageDown => ReportStep::Stay(
                scrolled_down(offset as int, 10, len as int) as usize,
            ),
            ReportKey::Other => ReportStep::Stay(offset),
        },
{
    match key {
        ReportKey::Close => ReportStep::Close,
        ReportKey::Up => ReportStep::Stay(scroll_up(offset, 1)),
        ReportKey::Down => ReportStep::Stay(scroll_down(offset, 1, len)),
        ReportKey::PageUp => ReportStep::Stay(scroll_up(offset, 10)),
        ReportKey::PageDown => ReportStep::Stay(scroll_down(offset, 10, len)),
        ReportKey::Other => ReportStep::Stay(offset),
    }
}

} // verus!
