//! The scan: from what a walk of the tree saw to one entry per directory,
//! with direct and cumulative file counts and sizes.
//!
//! Paths are text, and two paths name one directory exactly when they are
//! the same text: whoever makes the walk spells every path, the root's
//! too, in one way.

use crate::aggregate::{
    accumulate, as_nats, forest_wf, lemma_total_bounds_element, lemma_total_bounds_subrange,
    lemma_total_update, subtree_total, total,
};
use crate::paths::{depth_of, file_name_of, parent_of, path_depth, path_file_name, path_parent};
use crate::ranking::{descending, ranked, sort_by_cumulative_size};
use crate::scan_laws::{
    cumulative_law, lemma_cumulative_law, lemma_scan_cumulative_law, lemma_scan_paths_are_unique,
    lemma_scan_properties,
};
use crate::utils::{is_temp_directory, is_temp_name};
use vstd::prelude::*;

verus! {

/// How a directory was classified, by its own name alone.
#[derive(Debug, Clone, Copy, PartialEq, Eq, Structural)]
pub enum EntryType {
    Normal,
    Temp,
}

/// One directory of the scanned tree.
#[derive(Debug, Clone)]
pub struct DirectoryEntry {
    pub path: String,
    pub file_count: u64,
    pub size_bytes: u64,
    pub cumulative_file_count: u64,
    pub cumulative_size_bytes: u64,
    pub entry_type: EntryType,
}

/// What a scan is asked to do.
pub struct ScanConfig {
    pub root_path: String,
    pub temp_only: bool,
}

/// `std::io::Error`. It is carried through and never looked into.
#[verifier::external_type_specification]
#[verifier::external_body]
pub struct ExIoError(std::io::Error);

/// Why a scan could not be made.
#[derive(Debug)]
pub enum ScanError {
    PermissionDenied { path: String },
    PathNotFound { path: String },
    IoError { path: String, source: std::io::Error },
}

/// What a walk found at one path.
#[derive(Debug, Clone, Copy, PartialEq, Eq, Structural)]
pub enum WalkKind {
    /// A directory.
    Dir,
    /// A regular file.
    File,
    /// Anything else, and an entry that could not be reached.
    Other,
}

/// One step of a walk over the tree: the path that was visited, what was
/// found there and, where the metadata could be read, its length in bytes.
#[derive(Debug, Clone)]
pub struct WalkEntry {
    pub path: String,
    pub kind: WalkKind,
    pub size: Option<u64>,
}

/// The direct statistics of one directory while a scan is under way.
#[derive(Debug, Clone)]
pub struct DirStats {
    pub path: String,
    pub file_count: u64,
    pub size_bytes: u64,
    pub is_temp: bool,
}

/// A `DirectoryEntry` as a mathematical value.
pub struct EntryRecord {
    pub path: Seq<char>,
    pub file_count: nat,
    pub size_bytes: nat,
    pub cumulative_file_count: nat,
    pub cumulative_size_bytes: nat,
    pub entry_type: EntryType,
}

/// A `WalkEntry` as a mathematical value.
pub struct WalkRecord {
    pub path: Seq<char>,
    pub kind: WalkKind,
    pub size: Option<u64>,
}

/// A `DirStats` as a mathematical value.
pub struct DirRecord {
    pub path: Seq<char>,
    pub file_count: nat,
    pub size_bytes: nat,
    pub is_temp: bool,
}

impl View for DirectoryEntry {
    type V = EntryRecord;

    open spec fn view(&self) -> EntryRecord {
        EntryRecord {
            path: self.path@,
            file_count: self.file_count as nat,
            size_bytes: self.size_bytes as nat,
            cumulative_file_count: self.cumulative_file_count as nat,
            cumulative_size_bytes: self.cumulative_size_bytes as nat,
            entry_type: self.entry_type,
        }
    }
}

impl View for WalkEntry {
    type V = WalkRecord;

    open spec fn view(&self) -> WalkRecord {
        WalkRecord { path: self.path@, kind: self.kind, size: self.size }
    }
}

impl View for DirStats {
    type V = DirRecord;

    open spec fn view(&self) -> DirRecord {
        DirRecord {
            path: self.path@,
            file_count: self.file_count as nat,
            size_bytes: self.size_bytes as nat,
            is_temp: self.is_temp,
        }
    }
}

/// The entries as mathematical values.
pub open spec fn entry_records(entries: Seq<DirectoryEntry>) -> Seq<EntryRecord> {
    Seq::new(entries.len(), |i: int| entries[i]@)
}

/// The walk as mathematical values.
pub open spec fn walk_records(walk: Seq<WalkEntry>) -> Seq<WalkRecord> {
    Seq::new(walk.len(), |i: int| walk[i]@)
}

/// Several walks as mathematical values.
pub open spec fn walks_records(walks: Seq<Vec<WalkEntry>>) -> Seq<Seq<WalkRecord>> {
    Seq::new(walks.len(), |t: int| walk_records(walks[t]@))
}

/// The directory statistics as mathematical values.
pub open spec fn dir_records(dirs: Seq<DirStats>) -> Seq<DirRecord> {
    Seq::new(dirs.len(), |i: int| dirs[i]@)
}

/// The characters of each string.
pub open spec fn texts(paths: Seq<String>) -> Seq<Seq<char>> {
    Seq::new(paths.len(), |i: int| paths[i]@)
}

/// What one walk entry adds to a total: for a file whose metadata could
/// be read, its length (`bytes`) or one (a count); for anything else,
/// nothing.
pub open spec fn entry_weight(e: WalkRecord, bytes: bool) -> nat {
    if e.kind == WalkKind::File && e.size.is_some() {
        if bytes {
            e.size.unwrap() as nat
        } else {
            1
        }
    } else {
        0
    }
}

/// The weight of each entry of a walk.
pub open spec fn walk_weights(walk: Seq<WalkRecord>, bytes: bool) -> Seq<nat> {
    Seq::new(walk.len(), |i: int| entry_weight(walk[i], bytes))
}

/// The total length (`bytes`) or number of the readable files of a walk.
pub open spec fn walk_weight(walk: Seq<WalkRecord>, bytes: bool) -> nat {
    total(walk_weights(walk, bytes))
}

/// The same total over everything below the walk's starting point: the
/// first entry of a walk is the directory the walk started at.
pub open spec fn subtree_weight(walk: Seq<WalkRecord>, bytes: bool) -> nat {
    if walk.len() == 0 {
        0
    } else {
        total(walk_weights(walk, bytes).subrange(1, walk.len() as int))
    }
}

/// The total of each of several walks.
pub open spec fn each_walk_weight(walks: Seq<Seq<WalkRecord>>, bytes: bool) -> Seq<nat> {
    Seq::new(walks.len(), |t: int| walk_weight(walks[t], bytes))
}

/// The total over several walks.
pub open spec fn walks_weight(walks: Seq<Seq<WalkRecord>>, bytes: bool) -> nat {
    total(each_walk_weight(walks, bytes))
}

/// The file counts (or, with `bytes`, the sizes) of the directories.
pub open spec fn dir_weights(dirs: Seq<DirRecord>, bytes: bool) -> Seq<nat> {
    Seq::new(
        dirs.len(),
        |i: int|
            if bytes {
                dirs[i].size_bytes
            } else {
                dirs[i].file_count
            },
    )
}

/// No path occurs twice.
pub open spec fn distinct_paths(dirs: Seq<DirRecord>) -> bool {
    forall|i: int, j: int|
        0 <= i < dirs.len() && 0 <= j < dirs.len() && i != j ==> dirs[i].path != dirs[j].path
}

/// Some directory has this path.
pub open spec fn registered(dirs: Seq<DirRecord>, path: Seq<char>) -> bool {
    exists|i: int| 0 <= i < dirs.len() && #[trigger] dirs[i].path == path
}

/// The place of the directory with this path.
pub open spec fn index_of(dirs: Seq<DirRecord>, path: Seq<char>) -> int {
    choose|i: int| 0 <= i < dirs.len() && #[trigger] dirs[i].path == path
}

/// A directory is temporary when its final path component is a temporary
/// name; a path without one is not.
pub open spec fn is_temp_path(path: Seq<char>) -> bool {
    match file_name_of(path) {
        Some(name) => is_temp_name(name),
        None => false,
    }
}

/// Whether `dir`, or a directory above it and below `root`, is temporary.
/// The search climbs from `dir` and stops at `root`, which is not looked
/// at, or where the path has no parent.
pub open spec fn under_temp(dir: Seq<char>, root: Seq<char>) -> bool
    decreases depth_of(dir),
{
    if dir == root {
        false
    } else if is_temp_path(dir) {
        true
    } else {
        match parent_of(dir) {
            Some(up) => under_temp(up, root),
            None => false,
        }
    }
}

/// The directories with `path` among them: added at the end, with no
/// files yet, unless it is there already.
pub open spec fn with_dir(dirs: Seq<DirRecord>, path: Seq<char>, is_temp: bool) -> Seq<DirRecord> {
    if registered(dirs, path) {
        dirs
    } else {
        dirs.push(DirRecord { path, file_count: 0, size_bytes: 0, is_temp })
    }
}

/// The directories after one file of `size` bytes was attributed to the
/// directory `parent`, which is added as an ordinary one if it is new.
pub open spec fn with_file(dirs: Seq<DirRecord>, parent: Seq<char>, size: nat) -> Seq<DirRecord> {
    let d = with_dir(dirs, parent, false);
    let i = index_of(d, parent);
    d.update(
        i,
        DirRecord { file_count: d[i].file_count + 1, size_bytes: d[i].size_bytes + size, ..d[i] },
    )
}

/// The outcome of the first pass: the directories with their direct
/// statistics, in the order in which they were first met, and the
/// temporary directories whose subtrees are still to be summed.
pub struct FirstPass {
    pub dirs: Seq<DirRecord>,
    pub queue: Seq<Seq<char>>,
}

/// The first pass after one more walk entry.
///
/// A directory is registered under its classification and, if temporary,
/// queued. A file whose metadata could be read counts for its immediate
/// parent, unless that parent or a directory above it, below the root, is
/// temporary. Anything else changes nothing.
pub open spec fn first_pass_step(st: FirstPass, e: WalkRecord, root: Seq<char>) -> FirstPass {
    match e.kind {
        WalkKind::Dir => {
            let t = is_temp_path(e.path);
            FirstPass {
                dirs: with_dir(st.dirs, e.path, t),
                queue: if t {
                    st.queue.push(e.path)
                } else {
                    st.queue
                },
            }
        },
        WalkKind::File => match (e.size, parent_of(e.path)) {
            (Some(size), Some(parent)) => if under_temp(parent, root) {
                st
            } else {
                FirstPass { dirs: with_file(st.dirs, parent, size as nat), queue: st.queue }
            },
            _ => st,
        },
        WalkKind::Other => st,
    }
}

/// The first pass over a whole walk, entry by entry.
pub open spec fn first_pass_of(walk: Seq<WalkRecord>, root: Seq<char>) -> FirstPass
    decreases walk.len(),
{
    if walk.len() == 0 {
        FirstPass { dirs: Seq::empty(), queue: Seq::empty() }
    } else {
        first_pass_step(first_pass_of(walk.drop_last(), root), walk.last(), root)
    }
}

/// The place of the directory with this path, if there is one.
pub fn find_dir(dirs: &Vec<DirStats>, path: &String) -> (r: Option<usize>)
    ensures
        match r {
            Some(i) => i < dirs.len() && dirs[i as int].path@ == path@ && forall|j: int|
                0 <= j < i ==> dirs[j].path@ != path@,
            None => !registered(dir_records(dirs@), path@),
        },
        distinct_paths(dir_records(dirs@)) && r.is_some() ==> r.unwrap() as int == index_of(
            dir_records(dirs@),
            path@,
        ),
{
    let mut i: usize = 0;
    while i < dirs.len()
        invariant
            i <= dirs.len(),
            forall|j: int| 0 <= j < i ==> dirs[j].path@ != path@,
        decreases dirs.len() - i,
    {
        if dirs[i].path == *path {
            proof {
                let recs = dir_records(dirs@);
                assert(recs[i as int].path == path@);
            }
            return Some(i);
        }
        i += 1;
    }
    proof {
        let recs = dir_records(dirs@);
        assert forall|j: int| 0 <= j < recs.len() implies #[trigger] recs[j].path != path@ by {}
    }
    None
}

/// The place of the directory with this path, if there is one, looked
/// for at `hint` first.
pub fn find_dir_near(dirs: &Vec<DirStats>, path: &String, hint: usize) -> (r: Option<usize>)
    requires
        distinct_paths(dir_records(dirs@)),
    ensures
        match r {
            Some(i) => i < dirs.len() && dirs[i as int].path@ == path@ && i as int == index_of(
                dir_records(dirs@),
                path@,
            ),
            None => !registered(dir_records(dirs@), path@),
        },
{
    if hint < dirs.len() && dirs[hint].path == *path {
        proof {
            let recs = dir_records(dirs@);
            assert(recs[hint as int].path == path@);
            assert(recs[index_of(recs, path@)].path == recs[hint as int].path);
        }
        Some(hint)
    } else {
        find_dir(dirs, path)
    }
}

/// Classifies a directory by the final component of its path.
pub fn classify_path(path: &String) -> (r: bool)
    ensures
        r == is_temp_path(path@),
{
    match path_file_name(path.as_str()) {
        Some(name) => is_temp_directory(name.as_str()),
        None => false,
    }
}

/// Whether a file in `dir` lies in a temporary subtree: whether `dir` or
/// a directory above it, below `root`, is temporary.
pub fn in_temp_subtree(dir: &String, root: &String) -> (r: bool)
    ensures
        r == under_temp(dir@, root@),
{
    let mut cur = dir.clone();
    loop
        invariant
            under_temp(cur@, root@) == under_temp(dir@, root@),
        decreases depth_of(cur@),
    {
        if cur == *root {
            return false;
        }
        if classify_path(&cur) {
            return true;
        }
        match path_parent(cur.as_str()) {
            Some(up) => {
                cur = up;
            },
            None => {
                return false;
            },
        }
    }
}

/// Appending a weight adds it to the sum.
proof fn lemma_total_push(s: Seq<nat>, v: nat)
    ensures
        total(s.push(v)) == total(s) + v,
{
    assert(s.push(v).drop_last() =~= s);
}

/// The sum of the first `k + 1` weights is that of the first `k` and the
/// next one, and no prefix sums to more than the whole.
proof fn lemma_total_prefix(s: Seq<nat>, k: int)
    requires
        0 <= k < s.len(),
    ensures
        total(s.take(k + 1)) == total(s.take(k)) + s[k],
        total(s.take(k + 1)) <= total(s),
        total(s.take(0)) == 0,
{
    assert(s.take(k + 1).drop_last() =~= s.take(k));
    lemma_total_bounds_subrange(s, 0, k + 1);
}

/// Makes sure that the directory `path` is registered and returns its
/// place. A new directory is added at the end with no files. The
/// directory is looked for at `hint` first.
pub fn register_dir(dirs: &mut Vec<DirStats>, path: &String, is_temp: bool, hint: usize) -> (i:
    usize)
    requires
        distinct_paths(dir_records(old(dirs)@)),
    ensures
        dir_records(final(dirs)@) == with_dir(dir_records(old(dirs)@), path@, is_temp),
        distinct_paths(dir_records(final(dirs)@)),
        i < final(dirs).len(),
        i as int == index_of(dir_records(final(dirs)@), path@),
        final(dirs)[i as int].path@ == path@,
        forall|b: bool|
            total(#[trigger] dir_weights(dir_records(final(dirs)@), b)) == total(
                dir_weights(dir_records(old(dirs)@), b),
            ),
{
    let ghost before = dir_records(dirs@);
    match find_dir_near(dirs, path, hint) {
        Some(i) => {
            proof {
                assert(before[i as int].path == path@);
            }
            i
        },
        None => {
            dirs.push(DirStats { path: path.clone(), file_count: 0, size_bytes: 0, is_temp });
            proof {
                let after = dir_records(dirs@);
                let added = DirRecord { path: path@, file_count: 0, size_bytes: 0, is_temp };
                assert(after =~= before.push(added));
                assert forall|a: int, c: int|
                    0 <= a < after.len() && 0 <= c < after.len() && a != c implies after[a].path
                    != after[c].path by {
                    if a < before.len() {
                        assert(before[a].path == after[a].path);
                    }
                    if c < before.len() {
                        assert(before[c].path == after[c].path);
                    }
                }
                assert(after[after.len() - 1].path == path@);
                assert forall|b: bool|
                    total(#[trigger] dir_weights(after, b)) == total(dir_weights(before, b)) by {
                    assert(dir_weights(after, b) =~= dir_weights(before, b).push(0));
                    lemma_total_push(dir_weights(before, b), 0);
                }
            }
            dirs.len() - 1
        },
    }
}

/// Attributes one file of `size` bytes to the directory `parent`, which
/// is looked for at `hint` first, and returns the directory's place.
pub fn credit_file(dirs: &mut Vec<DirStats>, parent: &String, size: u64, hint: usize) -> (i: usize)
    requires
        distinct_paths(dir_records(old(dirs)@)),
        total(dir_weights(dir_records(old(dirs)@), true)) + size <= u64::MAX,
        total(dir_weights(dir_records(old(dirs)@), false)) + 1 <= u64::MAX,
    ensures
        dir_records(final(dirs)@) == with_file(dir_records(old(dirs)@), parent@, size as nat),
        distinct_paths(dir_records(final(dirs)@)),
        total(dir_weights(dir_records(final(dirs)@), true)) == total(
            dir_weights(dir_records(old(dirs)@), true),
        ) + size,
        total(dir_weights(dir_records(final(dirs)@), false)) == total(
            dir_weights(dir_records(old(dirs)@), false),
        ) + 1,
        i < final(dirs).len(),
        final(dirs)[i as int].path@ == parent@,
{
    let ghost before = dir_records(dirs@);
    let i = register_dir(dirs, parent, false, hint);
    let ghost mid = dir_records(dirs@);
    proof {
        assert(mid[i as int] == dirs@[i as int]@);
        lemma_total_bounds_element(dir_weights(mid, true), i as int);
        lemma_total_bounds_element(dir_weights(mid, false), i as int);
    }
    dirs[i].file_count = dirs[i].file_count + 1;
    dirs[i].size_bytes = dirs[i].size_bytes + size;
    proof {
        let after = dir_records(dirs@);
        let changed = DirRecord {
            file_count: mid[i as int].file_count + 1,
            size_bytes: mid[i as int].size_bytes + size as nat,
            ..mid[i as int]
        };
        assert(after =~= mid.update(i as int, changed));
        assert forall|a: int, c: int|
            0 <= a < after.len() && 0 <= c < after.len() && a != c implies after[a].path
            != after[c].path by {
            assert(mid[a].path == after[a].path);
            assert(mid[c].path == after[c].path);
        }
        assert(dir_weights(after, true) =~= dir_weights(mid, true).update(
            i as int,
            mid[i as int].size_bytes + size as nat,
        ));
        assert(dir_weights(after, false) =~= dir_weights(mid, false).update(
            i as int,
            mid[i as int].file_count + 1,
        ));
        lemma_total_update(dir_weights(mid, true), i as int, mid[i as int].size_bytes + size as nat);
        lemma_total_update(dir_weights(mid, false), i as int, mid[i as int].file_count + 1);
    }
    i
}

/// The first pass: the direct statistics of every directory the walk
/// met, in the order in which each was first met, and the queue of
/// temporary directories.
///
/// The sums of all direct file counts and of all direct sizes are bounded
/// by the number and the total length of the walk's readable files.
pub fn first_pass(root: &String, walk: &Vec<WalkEntry>) -> (r: (Vec<DirStats>, Vec<String>))
    requires
        walk_weight(walk_records(walk@), true) <= u64::MAX,
        walk_weight(walk_records(walk@), false) <= u64::MAX,
    ensures
        dir_records(r.0@) == first_pass_of(walk_records(walk@), root@).dirs,
        texts(r.1@) == first_pass_of(walk_records(walk@), root@).queue,
        distinct_paths(dir_records(r.0@)),
        total(dir_weights(dir_records(r.0@), true)) <= walk_weight(walk_records(walk@), true),
        total(dir_weights(dir_records(r.0@), false)) <= walk_weight(walk_records(walk@), false),
{
    let ghost recs = walk_records(walk@);
    let ghost sizes = walk_weights(recs, true);
    let ghost counts = walk_weights(recs, false);
    let mut dirs: Vec<DirStats> = Vec::new();
    let mut queue: Vec<String> = Vec::new();
    let mut near: usize = 0;
    let mut k: usize = 0;
    proof {
        assert(recs.take(0) =~= Seq::<WalkRecord>::empty());
        assert(dir_weights(dir_records(dirs@), true) =~= Seq::<nat>::empty());
        assert(dir_weights(dir_records(dirs@), false) =~= Seq::<nat>::empty());
        assert(sizes.take(0) =~= Seq::<nat>::empty());
        assert(counts.take(0) =~= Seq::<nat>::empty());
        assert(dir_records(dirs@) =~= Seq::<DirRecord>::empty());
        assert(texts(queue@) =~= Seq::<Seq<char>>::empty());
    }
    while k < walk.len()
        invariant
            k <= walk.len(),
            recs == walk_records(walk@),
            sizes == walk_weights(recs, true),
            counts == walk_weights(recs, false),
            total(sizes) <= u64::MAX,
            total(counts) <= u64::MAX,
            dir_records(dirs@) == first_pass_of(recs.take(k as int), root@).dirs,
            texts(queue@) == first_pass_of(recs.take(k as int), root@).queue,
            distinct_paths(dir_records(dirs@)),
            total(dir_weights(dir_records(dirs@), true)) <= total(sizes.take(k as int)),
            total(dir_weights(dir_records(dirs@), false)) <= total(counts.take(k as int)),
        decreases walk.len() - k,
    {
        let ghost queue0 = texts(queue@);
        proof {
            assert(recs.take(k + 1).drop_last() =~= recs.take(k as int));
            assert(recs.take(k + 1).last() == recs[k as int]);
            assert(recs[k as int] == walk@[k as int]@);
            lemma_total_prefix(sizes, k as int);
            lemma_total_prefix(counts, k as int);
        }
        let e = &walk[k];
        match e.kind {
            WalkKind::Dir => {
                let t = classify_path(&e.path);
                near = register_dir(&mut dirs, &e.path, t, near);
                if t {
                    queue.push(e.path.clone());
                    proof {
                        assert(texts(queue@) =~= queue0.push(e.path@));
                    }
                }
            },
            WalkKind::File => {
                match e.size {
                    Some(size) => {
                        match path_parent(e.path.as_str()) {
                            Some(parent) => {
                                if !in_temp_subtree(&parent, root) {
                                    near = credit_file(&mut dirs, &parent, size, near);
                                }
                            },
                            None => {},
                        }
                    },
                    None => {},
                }
            },
            WalkKind::Other => {},
        }
        k += 1;
    }
    proof {
        assert(recs.take(walk.len() as int) =~= recs);
        assert(sizes.take(walk.len() as int) =~= sizes);
        assert(counts.take(walk.len() as int) =~= counts);
    }
    (dirs, queue)
}

/// The number and the total length of the readable files among the walk's
/// entries from place `from` on.
pub fn tally_from(walk: &Vec<WalkEntry>, from: usize) -> (r: (u64, u64))
    requires
        from <= walk.len(),
        walk_weight(walk_records(walk@), true) <= u64::MAX,
        walk_weight(walk_records(walk@), false) <= u64::MAX,
    ensures
        r.0 as nat == total(
            walk_weights(walk_records(walk@), false).subrange(from as int, walk.len() as int),
        ),
        r.1 as nat == total(
            walk_weights(walk_records(walk@), true).subrange(from as int, walk.len() as int),
        ),
        r.0 as nat <= walk_weight(walk_records(walk@), false),
        r.1 as nat <= walk_weight(walk_records(walk@), true),
{
    let ghost recs = walk_records(walk@);
    let ghost sizes = walk_weights(recs, true);
    let ghost counts = walk_weights(recs, false);
    let mut file_count: u64 = 0;
    let mut size: u64 = 0;
    let mut i: usize = from;
    proof {
        assert(sizes.subrange(from as int, from as int) =~= Seq::<nat>::empty());
        assert(counts.subrange(from as int, from as int) =~= Seq::<nat>::empty());
    }
    while i < walk.len()
        invariant
            from <= i <= walk.len(),
            recs == walk_records(walk@),
            sizes == walk_weights(recs, true),
            counts == walk_weights(recs, false),
            total(sizes) <= u64::MAX,
            total(counts) <= u64::MAX,
            file_count as nat == total(counts.subrange(from as int, i as int)),
            size as nat == total(sizes.subrange(from as int, i as int)),
        decreases walk.len() - i,
    {
        proof {
            assert(sizes.subrange(from as int, i + 1).drop_last() =~= sizes.subrange(
                from as int,
                i as int,
            ));
            assert(counts.subrange(from as int, i + 1).drop_last() =~= counts.subrange(
                from as int,
                i as int,
            ));
            lemma_total_bounds_subrange(sizes, from as int, i + 1);
            lemma_total_bounds_subrange(counts, from as int, i + 1);
            assert(recs[i as int] == walk@[i as int]@);
        }
        let e = &walk[i];
        if e.kind == WalkKind::File {
            match e.size {
                Some(len) => {
                    file_count = file_count + 1;
                    size = size + len;
                },
                None => {},
            }
        }
        i += 1;
    }
    proof {
        lemma_total_bounds_subrange(sizes, from as int, walk.len() as int);
        lemma_total_bounds_subrange(counts, from as int, walk.len() as int);
    }
    (file_count, size)
}

/// The number and the total length of the readable files below the
/// directory that the walk started at. The walk's first entry is that
/// directory itself and is left out.
pub fn summarize_subtree(walk: &Vec<WalkEntry>) -> (r: (u64, u64))
    requires
        walk_weight(walk_records(walk@), true) <= u64::MAX,
        walk_weight(walk_records(walk@), false) <= u64::MAX,
    ensures
        r.0 as nat == subtree_weight(walk_records(walk@), false),
        r.1 as nat == subtree_weight(walk_records(walk@), true),
        r.0 as nat <= walk_weight(walk_records(walk@), false),
        r.1 as nat <= walk_weight(walk_records(walk@), true),
{
    if walk.len() == 0 {
        (0, 0)
    } else {
        tally_from(walk, 1)
    }
}

/// What the walk of the queue's place `t` found below its directory; a
/// directory for which no walk is given counts as one that could not be
/// read, and contributes nothing.
pub open spec fn slot_weight(walks: Seq<Seq<WalkRecord>>, t: int, bytes: bool) -> nat {
    if 0 <= t < walks.len() {
        subtree_weight(walks[t], bytes)
    } else {
        0
    }
}

/// The directories after the directory `path`, if registered, was given
/// the totals of its whole subtree as its direct statistics and marked
/// temporary.
pub open spec fn with_summary(
    dirs: Seq<DirRecord>,
    path: Seq<char>,
    file_count: nat,
    size_bytes: nat,
) -> Seq<DirRecord> {
    if registered(dirs, path) {
        let i = index_of(dirs, path);
        dirs.update(i, DirRecord { file_count, size_bytes, is_temp: true, ..dirs[i] })
    } else {
        dirs
    }
}

/// The second pass: every queued directory, in queue order, gets the
/// totals of the walk made below it.
pub open spec fn second_pass_of(
    dirs: Seq<DirRecord>,
    queue: Seq<Seq<char>>,
    walks: Seq<Seq<WalkRecord>>,
) -> Seq<DirRecord>
    decreases queue.len(),
{
    if queue.len() == 0 {
        dirs
    } else {
        let t = queue.len() - 1;
        with_summary(
            second_pass_of(dirs, queue.drop_last(), walks),
            queue[t],
            slot_weight(walks, t, false),
            slot_weight(walks, t, true),
        )
    }
}

/// Gives the directory `path`, if registered, the totals of its subtree.
pub fn record_summary(dirs: &mut Vec<DirStats>, path: &String, file_count: u64, size_bytes: u64)
    requires
        distinct_paths(dir_records(old(dirs)@)),
    ensures
        dir_records(final(dirs)@) == with_summary(
            dir_records(old(dirs)@),
            path@,
            file_count as nat,
            size_bytes as nat,
        ),
        distinct_paths(dir_records(final(dirs)@)),
        total(dir_weights(dir_records(final(dirs)@), true)) <= total(
            dir_weights(dir_records(old(dirs)@), true),
        ) + size_bytes,
        total(dir_weights(dir_records(final(dirs)@), false)) <= total(
            dir_weights(dir_records(old(dirs)@), false),
        ) + file_count,
{
    let ghost before = dir_records(dirs@);
    match find_dir(dirs, path) {
        Some(i) => {
            proof {
                assert(before[i as int].path == path@);
                assert(before[i as int] == dirs@[i as int]@);
            }
            dirs[i].file_count = file_count;
            dirs[i].size_bytes = size_bytes;
            dirs[i].is_temp = true;
            proof {
                let after = dir_records(dirs@);
                let changed = DirRecord {
                    file_count: file_count as nat,
                    size_bytes: size_bytes as nat,
                    is_temp: true,
                    ..before[i as int]
                };
                assert(after =~= before.update(i as int, changed));
                assert forall|a: int, c: int|
                    0 <= a < after.len() && 0 <= c < after.len() && a != c implies after[a].path
                    != after[c].path by {
                    assert(before[a].path == after[a].path);
                    assert(before[c].path == after[c].path);
                }
                assert(dir_weights(after, true) =~= dir_weights(before, true).update(
                    i as int,
                    size_bytes as nat,
                ));
                assert(dir_weights(after, false) =~= dir_weights(before, false).update(
                    i as int,
                    file_count as nat,
                ));
                lemma_total_update(dir_weights(before, true), i as int, size_bytes as nat);
                lemma_total_update(dir_weights(before, false), i as int, file_count as nat);
            }
        },
        None => {},
    }
}

/// The second pass: sums the walk made below each queued temporary
/// directory and stores the totals as that directory's own statistics.
/// `temp_walks[t]` is the walk that started at `queue[t]`.
pub fn second_pass(dirs: &mut Vec<DirStats>, queue: &Vec<String>, temp_walks: &Vec<Vec<WalkEntry>>)
    requires
        distinct_paths(dir_records(old(dirs)@)),
        total(dir_weights(dir_records(old(dirs)@), true)) + walks_weight(
            walks_records(temp_walks@),
            true,
        ) <= u64::MAX,
        total(dir_weights(dir_records(old(dirs)@), false)) + walks_weight(
            walks_records(temp_walks@),
            false,
        ) <= u64::MAX,
    ensures
        dir_records(final(dirs)@) == second_pass_of(
            dir_records(old(dirs)@),
            texts(queue@),
            walks_records(temp_walks@),
        ),
        distinct_paths(dir_records(final(dirs)@)),
        total(dir_weights(dir_records(final(dirs)@), true)) <= total(
            dir_weights(dir_records(old(dirs)@), true),
        ) + walks_weight(walks_records(temp_walks@), true),
        total(dir_weights(dir_records(final(dirs)@), false)) <= total(
            dir_weights(dir_records(old(dirs)@), false),
        ) + walks_weight(walks_records(temp_walks@), false),
{
    let ghost start = dir_records(dirs@);
    let ghost paths = texts(queue@);
    let ghost walks = walks_records(temp_walks@);
    let ghost sizes = each_walk_weight(walks, true);
    let ghost counts = each_walk_weight(walks, false);
    let ghost m: int = 0;
    let mut t: usize = 0;
    proof {
        assert(paths.take(0) =~= Seq::<Seq<char>>::empty());
        assert(sizes.take(0) =~= Seq::<nat>::empty());
        assert(counts.take(0) =~= Seq::<nat>::empty());
    }
    while t < queue.len()
        invariant
            t <= queue.len(),
            start == dir_records(old(dirs)@),
            paths == texts(queue@),
            walks == walks_records(temp_walks@),
            sizes == each_walk_weight(walks, true),
            counts == each_walk_weight(walks, false),
            total(dir_weights(start, true)) + total(sizes) <= u64::MAX,
            total(dir_weights(start, false)) + total(counts) <= u64::MAX,
            m == if t <= temp_walks.len() {
                t as int
            } else {
                temp_walks.len() as int
            },
            dir_records(dirs@) == second_pass_of(start, paths.take(t as int), walks),
            distinct_paths(dir_records(dirs@)),
            total(dir_weights(dir_records(dirs@), true)) <= total(dir_weights(start, true)) + total(
                sizes.take(m),
            ),
            total(dir_weights(dir_records(dirs@), false)) <= total(dir_weights(start, false))
                + total(counts.take(m)),
        decreases queue.len() - t,
    {
        proof {
            assert(paths.take(t + 1).drop_last() =~= paths.take(t as int));
            assert(paths.take(t + 1).last() == queue@[t as int]@);
        }
        let mut file_count: u64 = 0;
        let mut size_bytes: u64 = 0;
        if t < temp_walks.len() {
            proof {
                lemma_total_prefix(sizes, t as int);
                lemma_total_prefix(counts, t as int);
                lemma_total_bounds_element(sizes, t as int);
                lemma_total_bounds_element(counts, t as int);
                assert(walks[t as int] == walk_records(temp_walks@[t as int]@));
            }
            let summary = summarize_subtree(&temp_walks[t]);
            file_count = summary.0;
            size_bytes = summary.1;
            proof {
                m = m + 1;
            }
        }
        record_summary(dirs, &queue[t], file_count, size_bytes);
        t += 1;
    }
    proof {
        assert(paths.take(queue.len() as int) =~= paths);
        lemma_total_bounds_subrange(sizes, 0, m);
        lemma_total_bounds_subrange(counts, 0, m);
    }
}

/// The place of the parent of directory `i`: of the registered directory
/// whose path is the parent of `i`'s path.
pub open spec fn parent_link(dirs: Seq<DirRecord>, i: int) -> Option<usize> {
    match parent_of(dirs[i].path) {
        Some(up) => if registered(dirs, up) {
            Some(index_of(dirs, up) as usize)
        } else {
            None
        },
        None => None,
    }
}

/// The parent link of every directory.
pub open spec fn parent_links(dirs: Seq<DirRecord>) -> Seq<Option<usize>> {
    Seq::new(dirs.len(), |i: int| parent_link(dirs, i))
}

/// The depth of every directory: the number of components of its path.
pub open spec fn depths_of(dirs: Seq<DirRecord>) -> Seq<usize> {
    Seq::new(dirs.len(), |i: int| depth_of(dirs[i].path))
}

/// Finds every directory's parent among the directories, and its depth.
/// The links form a forest: a parent has fewer components than its child.
pub fn link_parents(dirs: &Vec<DirStats>) -> (r: (Vec<Option<usize>>, Vec<usize>))
    requires
        distinct_paths(dir_records(dirs@)),
    ensures
        r.0@ == parent_links(dir_records(dirs@)),
        r.1@ == depths_of(dir_records(dirs@)),
        forest_wf(r.0@, r.1@),
{
    let ghost recs = dir_records(dirs@);
    let mut parents: Vec<Option<usize>> = Vec::new();
    let mut depths: Vec<usize> = Vec::new();
    let mut i: usize = 0;
    while i < dirs.len()
        invariant
            i <= dirs.len(),
            recs == dir_records(dirs@),
            distinct_paths(recs),
            parents.len() == i,
            depths.len() == i,
            forall|j: int| 0 <= j < i ==> #[trigger] parents[j] == parent_link(recs, j),
            forall|j: int| 0 <= j < i ==> #[trigger] depths[j] == depth_of(recs[j].path),
            forall|j: int|
                0 <= j < i ==> match #[trigger] parents[j] {
                    Some(p) => p < dirs.len() && depth_of(recs[p as int].path) < depth_of(
                        recs[j].path,
                    ),
                    None => true,
                },
        decreases dirs.len() - i,
    {
        proof {
            assert(recs[i as int] == dirs@[i as int]@);
        }
        let depth = path_depth(dirs[i].path.as_str());
        let link = match path_parent(dirs[i].path.as_str()) {
            Some(up) => {
                match find_dir(dirs, &up) {
                    Some(p) => {
                        proof {
                            assert(recs[p as int] == dirs@[p as int]@);
                            assert(recs[p as int].path == up@);
                        }
                        Some(p)
                    },
                    None => None,
                }
            },
            None => None,
        };
        parents.push(link);
        depths.push(depth);
        i += 1;
    }
    proof {
        assert(parents@ =~= parent_links(recs));
        assert(depths@ =~= depths_of(recs));
        assert forall|j: int| 0 <= j < parents@.len() implies match #[trigger] parents@[j] {
            Some(p) => p < parents@.len() && depths@[p as int] < depths@[j],
            None => true,
        } by {
            assert(parents[j] == parent_link(recs, j));
        }
    }
    (parents, depths)
}

/// The classification as an entry type.
pub open spec fn type_of(is_temp: bool) -> EntryType {
    if is_temp {
        EntryType::Temp
    } else {
        EntryType::Normal
    }
}

/// One entry per directory, in the directories' order: the direct
/// statistics as they stand, and as cumulative statistics the totals over
/// the directory's subtree in the forest of parent links.
pub open spec fn full_records(dirs: Seq<DirRecord>) -> Seq<EntryRecord> {
    Seq::new(
        dirs.len(),
        |i: int|
            EntryRecord {
                path: dirs[i].path,
                file_count: dirs[i].file_count,
                size_bytes: dirs[i].size_bytes,
                cumulative_file_count: subtree_total(
                    parent_links(dirs),
                    depths_of(dirs),
                    dir_weights(dirs, false),
                    i,
                ),
                cumulative_size_bytes: subtree_total(
                    parent_links(dirs),
                    depths_of(dirs),
                    dir_weights(dirs, true),
                    i,
                ),
                entry_type: type_of(dirs[i].is_temp),
            },
    )
}

/// The third pass: sums every directory's statistics over its subtree,
/// deepest directories first, and makes the entries.
pub fn aggregate_entries(dirs: &Vec<DirStats>) -> (r: Vec<DirectoryEntry>)
    requires
        distinct_paths(dir_records(dirs@)),
        total(dir_weights(dir_records(dirs@), true)) <= u64::MAX,
        total(dir_weights(dir_records(dirs@), false)) <= u64::MAX,
    ensures
        entry_records(r@) == full_records(dir_records(dirs@)),
        cumulative_law(entry_records(r@)),
{
    let ghost recs = dir_records(dirs@);
    let (parents, depths) = link_parents(dirs);
    let mut counts: Vec<u64> = Vec::new();
    let mut sizes: Vec<u64> = Vec::new();
    let mut i: usize = 0;
    while i < dirs.len()
        invariant
            i <= dirs.len(),
            counts.len() == i,
            sizes.len() == i,
            forall|j: int| 0 <= j < i ==> #[trigger] counts[j] == dirs[j].file_count,
            forall|j: int| 0 <= j < i ==> #[trigger] sizes[j] == dirs[j].size_bytes,
        decreases dirs.len() - i,
    {
        counts.push(dirs[i].file_count);
        sizes.push(dirs[i].size_bytes);
        i += 1;
    }
    proof {
        assert(as_nats(counts@) =~= dir_weights(recs, false));
        assert(as_nats(sizes@) =~= dir_weights(recs, true));
    }
    let cumulative_counts = accumulate(&parents, &depths, &counts);
    let cumulative_sizes = accumulate(&parents, &depths, &sizes);
    let mut entries: Vec<DirectoryEntry> = Vec::new();
    let mut k: usize = 0;
    while k < dirs.len()
        invariant
            k <= dirs.len(),
            recs == dir_records(dirs@),
            entries.len() == k,
            cumulative_counts.len() == dirs.len(),
            cumulative_sizes.len() == dirs.len(),
            forall|j: int|
                0 <= j < dirs.len() ==> #[trigger] cumulative_counts[j] as nat == subtree_total(
                    parent_links(recs),
                    depths_of(recs),
                    dir_weights(recs, false),
                    j,
                ),
            forall|j: int|
                0 <= j < dirs.len() ==> #[trigger] cumulative_sizes[j] as nat == subtree_total(
                    parent_links(recs),
                    depths_of(recs),
                    dir_weights(recs, true),
                    j,
                ),
            forall|j: int| 0 <= j < k ==> #[trigger] entries[j]@ == full_records(recs)[j],
        decreases dirs.len() - k,
    {
        proof {
            assert(recs[k as int] == dirs@[k as int]@);
        }
        let d = &dirs[k];
        entries.push(
            DirectoryEntry {
                path: d.path.clone(),
                file_count: d.file_count,
                size_bytes: d.size_bytes,
                cumulative_file_count: cumulative_counts[k],
                cumulative_size_bytes: cumulative_sizes[k],
                entry_type: if d.is_temp {
                    EntryType::Temp
                } else {
                    EntryType::Normal
                },
            },
        );
        k += 1;
    }
    proof {
        assert(entry_records(entries@) =~= full_records(recs));
        lemma_cumulative_law(recs);
    }
    entries
}

/// The entry is that of a temporary directory.
pub open spec fn is_temp_record(e: EntryRecord) -> bool {
    e.entry_type == EntryType::Temp
}

/// `is_temp_record` as a value.
pub open spec fn temp_filter() -> spec_fn(EntryRecord) -> bool {
    |e: EntryRecord| is_temp_record(e)
}

/// A copy of the entry.
pub fn copy_entry(e: &DirectoryEntry) -> (r: DirectoryEntry)
    ensures
        r == *e,
{
    DirectoryEntry {
        path: e.path.clone(),
        file_count: e.file_count,
        size_bytes: e.size_bytes,
        cumulative_file_count: e.cumulative_file_count,
        cumulative_size_bytes: e.cumulative_size_bytes,
        entry_type: e.entry_type,
    }
}

/// Keeps the entries of temporary directories, in their order.
pub fn retain_temp(entries: &Vec<DirectoryEntry>) -> (r: Vec<DirectoryEntry>)
    ensures
        entry_records(r@) == entry_records(entries@).filter(temp_filter()),
{
    let ghost recs = entry_records(entries@);
    let mut kept: Vec<DirectoryEntry> = Vec::new();
    let mut i: usize = 0;
    proof {
        assert(recs.take(0) =~= Seq::<EntryRecord>::empty());
        assert(recs.take(0).filter(temp_filter()).len() <= 0) by {
            recs.take(0).lemma_filter_len(temp_filter());
        }
        assert(entry_records(kept@) =~= recs.take(0).filter(temp_filter()));
    }
    while i < entries.len()
        invariant
            i <= entries.len(),
            recs == entry_records(entries@),
            entry_records(kept@) == recs.take(i as int).filter(temp_filter()),
        decreases entries.len() - i,
    {
        let ghost kept0 = entry_records(kept@);
        proof {
            assert(recs.take(i + 1) =~= recs.take(i as int).push(recs[i as int]));
            recs.take(i as int).lemma_filter_push(recs[i as int], temp_filter());
            assert(recs[i as int] == entries@[i as int]@);
        }
        if entries[i].entry_type == EntryType::Temp {
            kept.push(copy_entry(&entries[i]));
            proof {
                assert(entry_records(kept@) =~= kept0.push(recs[i as int]));
            }
        }
        i += 1;
    }
    proof {
        assert(recs.take(entries.len() as int) =~= recs);
    }
    kept
}

/// The entries of a scan before ranking and filtering: one per
/// directory, in the order in which the first pass met them.
pub open spec fn scan_entries(
    root: Seq<char>,
    walk: Seq<WalkRecord>,
    temp_walks: Seq<Seq<WalkRecord>>,
) -> Seq<EntryRecord> {
    let first = first_pass_of(walk, root);
    full_records(second_pass_of(first.dirs, first.queue, temp_walks))
}

/// No two entries have the same path.
pub open spec fn unique_paths(recs: Seq<EntryRecord>) -> bool {
    forall|i: int, j: int| 0 <= i < j < recs.len() ==> recs[i].path != recs[j].path
}

/// The outcome of a scan: the entries, only the temporary ones if
/// `temp_only`, ranked by cumulative size.
pub open spec fn scan_records(
    root: Seq<char>,
    temp_only: bool,
    walk: Seq<WalkRecord>,
    temp_walks: Seq<Seq<WalkRecord>>,
) -> Seq<EntryRecord> {
    let all = scan_entries(root, walk, temp_walks);
    ranked(
        if temp_only {
            all.filter(temp_filter())
        } else {
            all
        },
    )
}

/// A scan of these walks stays within 64-bit numbers: the readable files
/// of all the walks together are no more, and no longer in total, than
/// such a number holds.
pub open spec fn walks_fit(walk: Seq<WalkRecord>, temp_walks: Seq<Seq<WalkRecord>>) -> bool {
    &&& walk_weight(walk, true) + walks_weight(temp_walks, true) <= u64::MAX
    &&& walk_weight(walk, false) + walks_weight(temp_walks, false) <= u64::MAX
}

/// Adds the number and the total length of the walk's readable files to
/// the sums in `so_far`; `None` where a sum outgrows 64 bits.
pub fn add_walk_totals(so_far: (u64, u64), walk: &Vec<WalkEntry>) -> (r: Option<(u64, u64)>)
    ensures
        match r {
            Some(sums) => {
                &&& sums.0 == so_far.0 + walk_weight(walk_records(walk@), false)
                &&& sums.1 == so_far.1 + walk_weight(walk_records(walk@), true)
            },
            None => {
                ||| so_far.0 + walk_weight(walk_records(walk@), false) > u64::MAX
                ||| so_far.1 + walk_weight(walk_records(walk@), true) > u64::MAX
            },
        },
{
    let ghost recs = walk_records(walk@);
    let ghost sizes = walk_weights(recs, true);
    let ghost counts = walk_weights(recs, false);
    let mut count = so_far.0;
    let mut bytes = so_far.1;
    let mut i: usize = 0;
    proof {
        assert(sizes.take(0) =~= Seq::<nat>::empty());
        assert(counts.take(0) =~= Seq::<nat>::empty());
    }
    while i < walk.len()
        invariant
            i <= walk.len(),
            recs == walk_records(walk@),
            sizes == walk_weights(recs, true),
            counts == walk_weights(recs, false),
            count == so_far.0 + total(counts.take(i as int)),
            bytes == so_far.1 + total(sizes.take(i as int)),
        decreases walk.len() - i,
    {
        proof {
            lemma_total_prefix(sizes, i as int);
            lemma_total_prefix(counts, i as int);
            assert(recs[i as int] == walk@[i as int]@);
        }
        let e = &walk[i];
        if e.kind == WalkKind::File {
            match e.size {
                Some(len) => {
                    if count == u64::MAX || bytes > u64::MAX - len {
                        return None;
                    }
                    count = count + 1;
                    bytes = bytes + len;
                },
                None => {},
            }
        }
        i += 1;
    }
    proof {
        assert(sizes.take(walk.len() as int) =~= sizes);
        assert(counts.take(walk.len() as int) =~= counts);
    }
    Some((count, bytes))
}

/// Whether a scan of these walks stays within 64-bit numbers.
pub fn scan_fits(walk: &Vec<WalkEntry>, temp_walks: &Vec<Vec<WalkEntry>>) -> (r: bool)
    ensures
        r == walks_fit(walk_records(walk@), walks_records(temp_walks@)),
{
    let ghost walks = walks_records(temp_walks@);
    let ghost sizes = each_walk_weight(walks, true);
    let ghost counts = each_walk_weight(walks, false);
    let mut sums = match add_walk_totals((0, 0), walk) {
        Some(sums) => sums,
        None => {
            return false;
        },
    };
    let mut t: usize = 0;
    proof {
        assert(sizes.take(0) =~= Seq::<nat>::empty());
        assert(counts.take(0) =~= Seq::<nat>::empty());
    }
    while t < temp_walks.len()
        invariant
            t <= temp_walks.len(),
            walks == walks_records(temp_walks@),
            sizes == each_walk_weight(walks, true),
            counts == each_walk_weight(walks, false),
            sums.0 == walk_weight(walk_records(walk@), false) + total(counts.take(t as int)),
            sums.1 == walk_weight(walk_records(walk@), true) + total(sizes.take(t as int)),
        decreases temp_walks.len() - t,
    {
        proof {
            lemma_total_prefix(sizes, t as int);
            lemma_total_prefix(counts, t as int);
            assert(walks[t as int] == walk_records(temp_walks@[t as int]@));
        }
        sums = match add_walk_totals(sums, &temp_walks[t]) {
            Some(sums) => sums,
            None => {
                return false;
            },
        };
        t += 1;
    }
    proof {
        assert(sizes.take(temp_walks.len() as int) =~= sizes);
        assert(counts.take(temp_walks.len() as int) =~= counts);
    }
    true
}

/// The second and third pass and what follows: sums the temporary
/// subtrees, sums every directory over its subtree, keeps only the
/// temporary directories if asked to, and ranks by cumulative size.
pub fn finish_scan(
    temp_only: bool,
    dirs: Vec<DirStats>,
    queue: &Vec<String>,
    temp_walks: &Vec<Vec<WalkEntry>>,
) -> (r: Vec<DirectoryEntry>)
    requires
        distinct_paths(dir_records(dirs@)),
        total(dir_weights(dir_records(dirs@), true)) + walks_weight(
            walks_records(temp_walks@),
            true,
        ) <= u64::MAX,
        total(dir_weights(dir_records(dirs@), false)) + walks_weight(
            walks_records(temp_walks@),
            false,
        ) <= u64::MAX,
    ensures
        entry_records(r@) == ranked(
            if temp_only {
                full_records(
                    second_pass_of(
                        dir_records(dirs@),
                        texts(queue@),
                        walks_records(temp_walks@),
                    ),
                ).filter(temp_filter())
            } else {
                full_records(
                    second_pass_of(
                        dir_records(dirs@),
                        texts(queue@),
                        walks_records(temp_walks@),
                    ),
                )
            },
        ),
{
    let mut dirs = dirs;
    second_pass(&mut dirs, queue, temp_walks);
    let all = aggregate_entries(&dirs);
    let chosen = if temp_only {
        retain_temp(&all)
    } else {
        all
    };
    sort_by_cumulative_size(chosen)
}

/// Scans a tree from what was seen of it.
///
/// `root_exists` says whether the root path was there when the scan
/// began; if not, the scan fails at once and looks at nothing else.
/// `walk` is the walk of the whole tree from the root, and
/// `temp_walks[t]` the walk made from the `t`-th temporary directory
/// that the first pass queued (see `first_pass`).
///
/// The entries come ranked by cumulative size, largest first, one per
/// directory, or one per temporary directory if `temp_only` is set.
///
/// The files of the walks must fit in 64-bit sums, which `scan_fits`
/// tells.
pub fn scan_directory(
    config: &ScanConfig,
    root_exists: bool,
    walk: &Vec<WalkEntry>,
    temp_walks: &Vec<Vec<WalkEntry>>,
) -> (r: Result<Vec<DirectoryEntry>, ScanError>)
    requires
        root_exists ==> walks_fit(walk_records(walk@), walks_records(temp_walks@)),
    ensures
        match r {
            Ok(entries) => {
                &&& root_exists
                &&& entry_records(entries@) == scan_records(
                    config.root_path@,
                    config.temp_only,
                    walk_records(walk@),
                    walks_records(temp_walks@),
                )
                &&& descending(entry_records(entries@))
                &&& unique_paths(entry_records(entries@))
                &&& !config.temp_only ==> cumulative_law(entry_records(entries@))
                &&& forall|i: int|
                    0 <= i < entries.len() ==> {
                        &&& (#[trigger] entries[i]).cumulative_size_bytes >= entries[i].size_bytes
                        &&& entries[i].cumulative_file_count >= entries[i].file_count
                        &&& config.temp_only ==> entries[i].entry_type == EntryType::Temp
                    }
            },
            Err(e) => {
                &&& !root_exists
                &&& e matches ScanError::PathNotFound { path }
                &&& path@ == config.root_path@
            },
        },
{
    if !root_exists {
        return Err(ScanError::PathNotFound { path: config.root_path.clone() });
    }
    let (dirs, queue) = first_pass(&config.root_path, walk);
    let entries = finish_scan(config.temp_only, dirs, &queue, temp_walks);
    proof {
        let recs = entry_records(entries@);
        lemma_scan_properties(
            config.root_path@,
            config.temp_only,
            walk_records(walk@),
            walks_records(temp_walks@),
        );
        lemma_scan_paths_are_unique(
            config.root_path@,
            config.temp_only,
            walk_records(walk@),
            walks_records(temp_walks@),
        );
        if !config.temp_only {
            assert(walk_records(walk@).len() == walk.len());
            lemma_scan_cumulative_law(
                config.root_path@,
                walk_records(walk@),
                walks_records(temp_walks@),
            );
        }
        assert forall|i: int| 0 <= i < entries.len() implies {
            &&& (#[trigger] entries[i]).cumulative_size_bytes >= entries[i].size_bytes
            &&& entries[i].cumulative_file_count >= entries[i].file_count
            &&& config.temp_only ==> entries[i].entry_type == EntryType::Temp
        } by {
            assert(recs[i] == entries[i]@);
        }
    }
    Ok(entries)
}

} // verus!
