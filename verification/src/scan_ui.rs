//! What a running scan shows of its progress.

use vstd::prelude::*;

verus! {

/// How far a scan has come.
#[derive(Debug)]
pub struct ScanProgress {
    pub files_scanned: u64,
    pub dirs_scanned: u64,
    pub current_path: String,
}

impl ScanProgress {
    /// Nothing scanned yet.
    pub fn new() -> (r: Self)
        ensures
            r.files_scanned == 0,
            r.dirs_scanned == 0,
            r.current_path@.len() == 0,
    {
        ScanProgress { files_scanned: 0, dirs_scanned: 0, current_path: String::new() }
    }
}

/// The frame of the spinner that follows `frame`, of `frames` in all:
/// the next one, and after the last the first again.
pub fn next_frame(frame: usize, frames: usize) -> (r: usize)
    requires
        frame < frames,
    ensures
        r as int == if frame + 1 == frames {
            0
        } else {
            frame + 1
        },
{
    if frames - frame == 1 {
        0
    } else {
        frame + 1
    }
}

} // verus!
