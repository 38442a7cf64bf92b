//! What holds of every scan, proved from what the passes are.

use crate::aggregate::{children_total, is_child_of};
use crate::paths::parent_of;
use crate::ranking::{
    descending, first_largest, lemma_first_largest, lemma_ranked_descends, lemma_ranked_permutes,
    ranked,
};
use crate::scanner::{
    depths_of, dir_weights, distinct_paths, entry_weight, first_pass_of, full_records, index_of,
    is_temp_path, parent_link, parent_links, registered, scan_entries, scan_records,
    second_pass_of, slot_weight, temp_filter, type_of, under_temp, unique_paths, with_dir,
    with_file, DirRecord, EntryRecord, EntryType, WalkKind, WalkRecord,
};
use vstd::prelude::*;

verus! {

/// Of every scan: the entries come in descending order of cumulative
/// size; no entry's cumulative statistics are below its direct ones; and
/// with `temp_only` every entry is that of a temporary directory.
pub proof fn lemma_scan_properties(
    root: Seq<char>,
    temp_only: bool,
    walk: Seq<WalkRecord>,
    temp_walks: Seq<Seq<WalkRecord>>,
)
    ensures
        descending(scan_records(root, temp_only, walk, temp_walks)),
        forall|i: int|
            0 <= i < scan_records(root, temp_only, walk, temp_walks).len() ==> {
                let e = #[trigger] scan_records(root, temp_only, walk, temp_walks)[i];
                &&& e.cumulative_size_bytes >= e.size_bytes
                &&& e.cumulative_file_count >= e.file_count
                &&& temp_only ==> e.entry_type == EntryType::Temp
            },
{
    let all = scan_entries(root, walk, temp_walks);
    let chosen = if temp_only {
        all.filter(temp_filter())
    } else {
        all
    };
    let out = ranked(chosen);
    lemma_ranked_descends(chosen);
    lemma_ranked_permutes(chosen);
    assert forall|i: int| 0 <= i < out.len() implies {
        let e = #[trigger] out[i];
        &&& e.cumulative_size_bytes >= e.size_bytes
        &&& e.cumulative_file_count >= e.file_count
        &&& temp_only ==> e.entry_type == EntryType::Temp
    } by {
        let e = out[i];
        assert(out.contains(e));
        vstd::seq_lib::to_multiset_contains(out, e);
        vstd::seq_lib::to_multiset_contains(chosen, e);
        assert(chosen.contains(e));
        let q = choose|q: int| 0 <= q < chosen.len() && chosen[q] == e;
        if temp_only {
            all.lemma_filter_pred(temp_filter(), q);
            all.lemma_filter_contains_rev(temp_filter(), e);
        }
        assert(all.contains(e));
        let a = choose|a: int| 0 <= a < all.len() && all[a] == e;
        assert(all[a] == e);
    }
}

/// Asking for the temporary directories alone never gives more entries
/// than asking for all, and gives temporary directories only.
pub proof fn lemma_temp_only_narrows(
    root: Seq<char>,
    walk: Seq<WalkRecord>,
    temp_walks: Seq<Seq<WalkRecord>>,
)
    ensures
        scan_records(root, true, walk, temp_walks).len() <= scan_records(
            root,
            false,
            walk,
            temp_walks,
        ).len(),
        forall|i: int|
            0 <= i < scan_records(root, true, walk, temp_walks).len() ==> (#[trigger] scan_records(
                root,
                true,
                walk,
                temp_walks,
            )[i]).entry_type == EntryType::Temp,
{
    let all = scan_entries(root, walk, temp_walks);
    lemma_ranked_permutes(all);
    lemma_ranked_permutes(all.filter(temp_filter()));
    all.lemma_filter_len(temp_filter());
    lemma_scan_properties(root, true, walk, temp_walks);
}

/// The directory of entry `c` is an immediate child of that of entry
/// `d`: the parent of `c`'s path is `d`'s path.
pub open spec fn is_child_entry(c: EntryRecord, d: EntryRecord) -> bool {
    parent_of(c.path) == Some(d.path)
}

/// The cumulative file count (or, with `bytes`, size) of an entry.
pub open spec fn cumulative_of(e: EntryRecord, bytes: bool) -> nat {
    if bytes {
        e.cumulative_size_bytes
    } else {
        e.cumulative_file_count
    }
}

/// The direct file count (or, with `bytes`, size) of an entry.
pub open spec fn direct_of(e: EntryRecord, bytes: bool) -> nat {
    if bytes {
        e.size_bytes
    } else {
        e.file_count
    }
}

/// What an entry adds to the sum over the children of `parent`: its
/// cumulative statistics if it is a child, nothing if not.
pub open spec fn child_share(e: EntryRecord, parent: EntryRecord, bytes: bool) -> nat {
    if is_child_entry(e, parent) {
        cumulative_of(e, bytes)
    } else {
        0
    }
}

/// The cumulative statistics of the children of `parent` among the
/// first `n` entries, summed.
pub open spec fn children_sum(recs: Seq<EntryRecord>, parent: EntryRecord, n: int, bytes: bool) -> nat
    decreases n,
{
    if n <= 0 || n > recs.len() {
        0
    } else {
        children_sum(recs, parent, n - 1, bytes) + child_share(recs[n - 1], parent, bytes)
    }
}

/// Every entry's cumulative statistics are its direct ones plus the
/// cumulative ones of its children.
pub open spec fn cumulative_law(recs: Seq<EntryRecord>) -> bool {
    forall|i: int, bytes: bool|
        0 <= i < recs.len() ==> #[trigger] cumulative_of(recs[i], bytes) == direct_of(
            recs[i],
            bytes,
        ) + children_sum(recs, recs[i], recs.len() as int, bytes)
}

proof fn lemma_children_sum(dirs: Seq<DirRecord>, i: int, n: int, bytes: bool)
    requires
        distinct_paths(dirs),
        dirs.len() <= usize::MAX,
        0 <= i < dirs.len(),
        0 <= n <= dirs.len(),
    ensures
        children_sum(full_records(dirs), full_records(dirs)[i], n, bytes)
            == children_total(
            parent_links(dirs),
            depths_of(dirs),
            dir_weights(dirs, bytes),
            i,
            n,
        ),
    decreases n,
{
    if n > 0 {
        lemma_children_sum(dirs, i, n - 1, bytes);
        let recs = full_records(dirs);
        let j = n - 1;
        let linked = is_child_of(parent_links(dirs), depths_of(dirs), j, i);
        assert(parent_links(dirs)[j] == parent_link(dirs, j));
        if is_child_entry(recs[j], recs[i]) {
            assert(registered(dirs, dirs[i].path));
            assert(linked);
        }
        if linked {
            let up = parent_of(dirs[j].path).unwrap();
            assert(registered(dirs, up));
            assert(is_child_entry(recs[j], recs[i]));
        }
    }
}

/// For directories with distinct paths, the entries made of them obey
/// the law of cumulative statistics.
pub proof fn lemma_cumulative_law(dirs: Seq<DirRecord>)
    requires
        distinct_paths(dirs),
        dirs.len() <= usize::MAX,
    ensures
        cumulative_law(full_records(dirs)),
{
    let recs = full_records(dirs);
    assert forall|i: int, bytes: bool| 0 <= i < recs.len() implies #[trigger] cumulative_of(
        recs[i],
        bytes,
    ) == direct_of(recs[i], bytes) + children_sum(recs, recs[i], recs.len() as int, bytes) by {
        lemma_children_sum(dirs, i, dirs.len() as int, bytes);
    }
}

proof fn lemma_with_dir_keeps(dirs: Seq<DirRecord>, path: Seq<char>, is_temp: bool)
    requires
        distinct_paths(dirs),
    ensures
        distinct_paths(with_dir(dirs, path, is_temp)),
        with_dir(dirs, path, is_temp).len() <= dirs.len() + 1,
        registered(with_dir(dirs, path, is_temp), path),
{
    let after = with_dir(dirs, path, is_temp);
    if !registered(dirs, path) {
        assert forall|a: int, c: int|
            0 <= a < after.len() && 0 <= c < after.len() && a != c implies after[a].path
            != after[c].path by {
            if a < dirs.len() {
                assert(dirs[a].path == after[a].path);
            }
            if c < dirs.len() {
                assert(dirs[c].path == after[c].path);
            }
        }
        assert(after[after.len() - 1].path == path);
    }
}

proof fn lemma_first_pass_keeps(walk: Seq<WalkRecord>, root: Seq<char>)
    ensures
        distinct_paths(first_pass_of(walk, root).dirs),
        first_pass_of(walk, root).dirs.len() <= walk.len(),
    decreases walk.len(),
{
    if walk.len() > 0 {
        lemma_first_pass_keeps(walk.drop_last(), root);
        let st = first_pass_of(walk.drop_last(), root);
        let e = walk.last();
        match e.kind {
            WalkKind::Dir => {
                lemma_with_dir_keeps(st.dirs, e.path, is_temp_path(e.path));
            },
            WalkKind::File => {
                match (e.size, parent_of(e.path)) {
                    (Some(size), Some(parent)) => {
                        if !under_temp(parent, root) {
                            lemma_with_dir_keeps(st.dirs, parent, false);
                            let d = with_dir(st.dirs, parent, false);
                            let after = with_file(st.dirs, parent, size as nat);
                            assert forall|a: int, c: int|
                                0 <= a < after.len() && 0 <= c < after.len() && a
                                    != c implies after[a].path != after[c].path by {
                                assert(d[a].path == after[a].path);
                                assert(d[c].path == after[c].path);
                            }
                        }
                    },
                    _ => {},
                }
            },
            WalkKind::Other => {},
        }
    }
}

proof fn lemma_second_pass_keeps(
    dirs: Seq<DirRecord>,
    queue: Seq<Seq<char>>,
    walks: Seq<Seq<WalkRecord>>,
)
    requires
        distinct_paths(dirs),
    ensures
        distinct_paths(second_pass_of(dirs, queue, walks)),
        second_pass_of(dirs, queue, walks).len() == dirs.len(),
    decreases queue.len(),
{
    if queue.len() > 0 {
        lemma_second_pass_keeps(dirs, queue.drop_last(), walks);
        let before = second_pass_of(dirs, queue.drop_last(), walks);
        let after = second_pass_of(dirs, queue, walks);
        assert forall|a: int, c: int|
            0 <= a < after.len() && 0 <= c < after.len() && a != c implies after[a].path
            != after[c].path by {
            assert(before[a].path == after[a].path);
            assert(before[c].path == after[c].path);
        }
    }
}

/// Of every scan, before ranking and filtering: no two entries have the
/// same path, and every entry's cumulative statistics are its direct
/// ones plus the cumulative ones of the entries whose directory is an
/// immediate child of its own.
pub proof fn lemma_scan_cumulative_law(
    root: Seq<char>,
    walk: Seq<WalkRecord>,
    temp_walks: Seq<Seq<WalkRecord>>,
)
    requires
        walk.len() <= usize::MAX,
    ensures
        cumulative_law(scan_entries(root, walk, temp_walks)),
        cumulative_law(scan_records(root, false, walk, temp_walks)),
        forall|i: int, j: int|
            0 <= i < j < scan_entries(root, walk, temp_walks).len() ==> scan_entries(
                root,
                walk,
                temp_walks,
            )[i].path != scan_entries(root, walk, temp_walks)[j].path,
        scan_records(root, false, walk, temp_walks).to_multiset() == scan_entries(
            root,
            walk,
            temp_walks,
        ).to_multiset(),
{
    let first = first_pass_of(walk, root);
    lemma_first_pass_keeps(walk, root);
    lemma_second_pass_keeps(first.dirs, first.queue, temp_walks);
    let dirs = second_pass_of(first.dirs, first.queue, temp_walks);
    lemma_cumulative_law(dirs);
    lemma_ranked_permutes(scan_entries(root, walk, temp_walks));
    lemma_ranked_keeps_law(scan_entries(root, walk, temp_walks));
    assert forall|i: int, j: int|
        0 <= i < j < scan_entries(root, walk, temp_walks).len() implies scan_entries(
        root,
        walk,
        temp_walks,
    )[i].path != scan_entries(root, walk, temp_walks)[j].path by {
        assert(dirs[i].path != dirs[j].path);
    }
}

proof fn lemma_first_pass_registers(walk: Seq<WalkRecord>, root: Seq<char>, k: int)
    requires
        0 <= k < walk.len(),
        walk[k].kind == WalkKind::Dir,
    ensures
        registered(first_pass_of(walk, root).dirs, walk[k].path),
    decreases walk.len(),
{
    if k == walk.len() - 1 {
        lemma_first_pass_keeps(walk.drop_last(), root);
        lemma_with_dir_keeps(
            first_pass_of(walk.drop_last(), root).dirs,
            walk[k].path,
            is_temp_path(walk[k].path),
        );
    } else {
        assert(walk.drop_last()[k] == walk[k]);
        lemma_first_pass_registers(walk.drop_last(), root, k);
        lemma_first_pass_step_keeps_registered(walk, root, walk[k].path);
    }
}

proof fn lemma_second_pass_keeps_paths(
    dirs: Seq<DirRecord>,
    queue: Seq<Seq<char>>,
    walks: Seq<Seq<WalkRecord>>,
    i: int,
)
    requires
        distinct_paths(dirs),
        0 <= i < dirs.len(),
    ensures
        second_pass_of(dirs, queue, walks).len() == dirs.len(),
        second_pass_of(dirs, queue, walks)[i].path == dirs[i].path,
    decreases queue.len(),
{
    if queue.len() > 0 {
        lemma_second_pass_keeps(dirs, queue.drop_last(), walks);
        lemma_second_pass_keeps_paths(dirs, queue.drop_last(), walks, i);
    }
}

/// Every directory that the walk visited has an entry; so has the root
/// of the scan, which a walk visits first.
pub proof fn lemma_visited_directory_has_entry(
    root: Seq<char>,
    walk: Seq<WalkRecord>,
    temp_walks: Seq<Seq<WalkRecord>>,
    k: int,
)
    requires
        0 <= k < walk.len(),
        walk[k].kind == WalkKind::Dir,
    ensures
        exists|i: int|
            0 <= i < scan_entries(root, walk, temp_walks).len() && (#[trigger] scan_entries(
                root,
                walk,
                temp_walks,
            )[i]).path == walk[k].path,
{
    let first = first_pass_of(walk, root);
    lemma_first_pass_keeps(walk, root);
    lemma_first_pass_registers(walk, root, k);
    let i = choose|i: int| 0 <= i < first.dirs.len() && #[trigger] first.dirs[i].path == walk[k].path;
    lemma_second_pass_keeps_paths(first.dirs, first.queue, temp_walks, i);
    assert(scan_entries(root, walk, temp_walks)[i].path == walk[k].path);
}

proof fn lemma_children_sum_remove(
    s: Seq<EntryRecord>,
    parent: EntryRecord,
    k: int,
    n: int,
    bytes: bool,
)
    requires
        0 <= k < s.len(),
        0 <= n <= s.len(),
    ensures
        children_sum(s, parent, n, bytes) == if k < n {
            children_sum(s.remove(k), parent, n - 1, bytes) + child_share(s[k], parent, bytes)
        } else {
            children_sum(s.remove(k), parent, n, bytes)
        },
    decreases n,
{
    if n > 0 {
        lemma_children_sum_remove(s, parent, k, n - 1, bytes);
        if k < n - 1 {
            assert(s.remove(k)[n - 2] == s[n - 1]);
        } else if k >= n {
            assert(s.remove(k)[n - 1] == s[n - 1]);
        }
    }
}

proof fn lemma_children_sum_prepend(
    x: EntryRecord,
    t: Seq<EntryRecord>,
    parent: EntryRecord,
    n: int,
    bytes: bool,
)
    requires
        0 <= n <= t.len(),
    ensures
        children_sum(seq![x] + t, parent, n + 1, bytes) == child_share(x, parent, bytes)
            + children_sum(t, parent, n, bytes),
    decreases n,
{
    let whole = seq![x] + t;
    if n > 0 {
        lemma_children_sum_prepend(x, t, parent, n - 1, bytes);
        assert(whole[n] == t[n - 1]);
    } else {
        assert(whole[0] == x);
        assert(children_sum(whole, parent, 0, bytes) == 0);
    }
}

proof fn lemma_children_sum_ranked(s: Seq<EntryRecord>, parent: EntryRecord, bytes: bool)
    ensures
        ranked(s).len() == s.len(),
        children_sum(ranked(s), parent, s.len() as int, bytes) == children_sum(
            s,
            parent,
            s.len() as int,
            bytes,
        ),
    decreases s.len(),
{
    lemma_ranked_permutes(s);
    if s.len() > 0 {
        lemma_first_largest(s, s.len() as int);
        let k = first_largest(s, s.len() as int);
        let rest = s.remove(k);
        lemma_children_sum_ranked(rest, parent, bytes);
        lemma_children_sum_prepend(s[k], ranked(rest), parent, rest.len() as int, bytes);
        lemma_children_sum_remove(s, parent, k, s.len() as int, bytes);
    }
}

/// Ranking keeps the law of cumulative statistics: which entries are
/// whose children does not depend on the order of the entries.
pub proof fn lemma_ranked_keeps_law(s: Seq<EntryRecord>)
    requires
        cumulative_law(s),
    ensures
        cumulative_law(ranked(s)),
{
    let out = ranked(s);
    lemma_ranked_permutes(s);
    assert forall|i: int, bytes: bool| 0 <= i < out.len() implies #[trigger] cumulative_of(
        out[i],
        bytes,
    ) == direct_of(out[i], bytes) + children_sum(out, out[i], out.len() as int, bytes) by {
        let e = out[i];
        assert(out.contains(e));
        vstd::seq_lib::to_multiset_contains(out, e);
        vstd::seq_lib::to_multiset_contains(s, e);
        assert(s.contains(e));
        let q = choose|q: int| 0 <= q < s.len() && s[q] == e;
        assert(cumulative_of(s[q], bytes) == direct_of(s[q], bytes) + children_sum(
            s,
            s[q],
            s.len() as int,
            bytes,
        ));
        lemma_children_sum_ranked(s, e, bytes);
    }
}

proof fn lemma_first_pass_classifies(walk: Seq<WalkRecord>, root: Seq<char>)
    ensures
        forall|i: int|
            0 <= i < first_pass_of(walk, root).dirs.len() && (#[trigger] first_pass_of(
                walk,
                root,
            ).dirs[i]).is_temp ==> is_temp_path(first_pass_of(walk, root).dirs[i].path),
        forall|t: int|
            0 <= t < first_pass_of(walk, root).queue.len() ==> is_temp_path(
                #[trigger] first_pass_of(walk, root).queue[t],
            ),
        forall|k: int|
            0 <= k < walk.len() && (#[trigger] walk[k]).kind == WalkKind::Dir && is_temp_path(
                walk[k].path,
            ) ==> first_pass_of(walk, root).queue.contains(walk[k].path),
    decreases walk.len(),
{
    if walk.len() > 0 {
        let before = walk.drop_last();
        lemma_first_pass_classifies(before, root);
        lemma_first_pass_keeps(before, root);
        let st = first_pass_of(before, root);
        let after = first_pass_of(walk, root);
        let e = walk.last();
        match e.kind {
            WalkKind::Dir => {
                lemma_with_dir_keeps(st.dirs, e.path, is_temp_path(e.path));
                if is_temp_path(e.path) {
                    assert(after.queue[after.queue.len() - 1] == e.path);
                }
            },
            WalkKind::File => {
                match (e.size, parent_of(e.path)) {
                    (Some(size), Some(parent)) => {
                        if !under_temp(parent, root) {
                            lemma_with_dir_keeps(st.dirs, parent, false);
                        }
                    },
                    _ => {},
                }
            },
            WalkKind::Other => {},
        }
        assert forall|k: int|
            0 <= k < walk.len() && (#[trigger] walk[k]).kind == WalkKind::Dir && is_temp_path(
                walk[k].path,
            ) implies after.queue.contains(walk[k].path) by {
            if k < walk.len() - 1 {
                assert(before[k] == walk[k]);
                let t = choose|t: int| 0 <= t < st.queue.len() && st.queue[t] == walk[k].path;
                assert(after.queue[t] == walk[k].path);
            }
        }
    }
}

proof fn lemma_second_pass_classifies(
    dirs: Seq<DirRecord>,
    queue: Seq<Seq<char>>,
    walks: Seq<Seq<WalkRecord>>,
    i: int,
)
    requires
        distinct_paths(dirs),
        0 <= i < dirs.len(),
    ensures
        second_pass_of(dirs, queue, walks).len() == dirs.len(),
        second_pass_of(dirs, queue, walks)[i].is_temp == (dirs[i].is_temp || queue.contains(
            dirs[i].path,
        )),
    decreases queue.len(),
{
    lemma_second_pass_keeps(dirs, queue, walks);
    if queue.len() > 0 {
        let short = queue.drop_last();
        lemma_second_pass_classifies(dirs, short, walks, i);
        lemma_second_pass_keeps(dirs, short, walks);
        lemma_second_pass_keeps_paths(dirs, short, walks, i);
        let before = second_pass_of(dirs, short, walks);
        let last = queue[queue.len() - 1];
        if short.contains(dirs[i].path) {
            let t = choose|t: int| 0 <= t < short.len() && short[t] == dirs[i].path;
            assert(queue[t] == dirs[i].path);
        }
        if queue.contains(dirs[i].path) && !short.contains(dirs[i].path) {
            let t = choose|t: int| 0 <= t < queue.len() && queue[t] == dirs[i].path;
            if t < short.len() {
                assert(short[t] == dirs[i].path);
            }
            assert(last == dirs[i].path);
        }
        if last == dirs[i].path {
            assert(queue[queue.len() - 1] == dirs[i].path);
            assert(before[i].path == last);
        }
    } else {
        assert(!queue.contains(dirs[i].path));
    }
}

/// Classification goes by the directory's own name alone: an entry is
/// that of a temporary directory only if the final component of its path
/// is a temporary name, and the entry of every directory that the walk
/// visited is one exactly if it is.
pub proof fn lemma_entries_are_classified_by_name(
    root: Seq<char>,
    walk: Seq<WalkRecord>,
    temp_walks: Seq<Seq<WalkRecord>>,
)
    ensures
        forall|i: int|
            0 <= i < scan_entries(root, walk, temp_walks).len() && (#[trigger] scan_entries(
                root,
                walk,
                temp_walks,
            )[i]).entry_type == EntryType::Temp ==> is_temp_path(
                scan_entries(root, walk, temp_walks)[i].path,
            ),
        forall|i: int, k: int|
            0 <= i < scan_entries(root, walk, temp_walks).len() && 0 <= k < walk.len()
                && (#[trigger] walk[k]).kind == WalkKind::Dir && (#[trigger] scan_entries(
                root,
                walk,
                temp_walks,
            )[i]).path == walk[k].path ==> scan_entries(root, walk, temp_walks)[i].entry_type
                == type_of(is_temp_path(walk[k].path)),
{
    let first = first_pass_of(walk, root);
    let all = scan_entries(root, walk, temp_walks);
    lemma_first_pass_keeps(walk, root);
    lemma_first_pass_classifies(walk, root);
    lemma_second_pass_keeps(first.dirs, first.queue, temp_walks);
    assert forall|i: int| 0 <= i < all.len() implies (#[trigger] all[i]).entry_type == type_of(
        first.dirs[i].is_temp || first.queue.contains(first.dirs[i].path),
    ) && all[i].path == first.dirs[i].path by {
        lemma_second_pass_classifies(first.dirs, first.queue, temp_walks, i);
        lemma_second_pass_keeps_paths(first.dirs, first.queue, temp_walks, i);
    }
    assert forall|i: int|
        0 <= i < all.len() && (#[trigger] all[i]).entry_type == EntryType::Temp implies is_temp_path(
        all[i].path,
    ) by {
        if !first.dirs[i].is_temp {
            let t = choose|t: int|
                0 <= t < first.queue.len() && first.queue[t] == first.dirs[i].path;
            assert(is_temp_path(first.queue[t]));
        }
    }
}

proof fn lemma_filter_keeps_unique_paths(s: Seq<EntryRecord>, keep: spec_fn(EntryRecord) -> bool)
    requires
        unique_paths(s),
    ensures
        unique_paths(s.filter(keep)),
    decreases s.len(),
{
    reveal(Seq::filter);
    if s.len() > 0 {
        let front = s.drop_last();
        lemma_filter_keeps_unique_paths(front, keep);
        let kept = front.filter(keep);
        let out = s.filter(keep);
        if keep(s.last()) {
            assert forall|i: int, j: int| 0 <= i < j < out.len() implies out[i].path
                != out[j].path by {
                if j == out.len() - 1 {
                    assert(kept.contains(kept[i]));
                    front.lemma_filter_contains_rev(keep, kept[i]);
                    let q = choose|q: int| 0 <= q < front.len() && front[q] == kept[i];
                    assert(s[q].path != s[s.len() - 1].path);
                } else {
                    assert(out[i] == kept[i] && out[j] == kept[j]);
                }
            }
        }
    }
}

proof fn lemma_ranked_keeps_unique_paths(s: Seq<EntryRecord>)
    requires
        unique_paths(s),
    ensures
        unique_paths(ranked(s)),
    decreases s.len(),
{
    if s.len() > 0 {
        lemma_first_largest(s, s.len() as int);
        let k = first_largest(s, s.len() as int);
        let rest = s.remove(k);
        assert(unique_paths(rest)) by {
            assert forall|i: int, j: int| 0 <= i < j < rest.len() implies rest[i].path
                != rest[j].path by {
                let a = if i < k {
                    i
                } else {
                    i + 1
                };
                let b = if j < k {
                    j
                } else {
                    j + 1
                };
                assert(rest[i] == s[a] && rest[j] == s[b]);
            }
        }
        lemma_ranked_keeps_unique_paths(rest);
        lemma_ranked_permutes(rest);
        let tail = ranked(rest);
        let out = ranked(s);
        assert(out =~= seq![s[k]] + tail);
        assert forall|i: int, j: int| 0 <= i < j < out.len() implies out[i].path
            != out[j].path by {
            if i == 0 {
                let x = tail[j - 1];
                assert(tail.contains(x));
                vstd::seq_lib::to_multiset_contains(tail, x);
                vstd::seq_lib::to_multiset_contains(rest, x);
                assert(rest.contains(x));
                let q = choose|q: int| 0 <= q < rest.len() && rest[q] == x;
                let a = if q < k {
                    q
                } else {
                    q + 1
                };
                assert(rest[q] == s[a]);
                if a < k {
                    assert(s[a].path != s[k].path);
                } else {
                    assert(s[k].path != s[a].path);
                }
            } else {
                assert(out[i] == tail[i - 1] && out[j] == tail[j - 1]);
            }
        }
    }
}

/// Of every scan: no path has two entries.
pub proof fn lemma_scan_paths_are_unique(
    root: Seq<char>,
    temp_only: bool,
    walk: Seq<WalkRecord>,
    temp_walks: Seq<Seq<WalkRecord>>,
)
    ensures
        unique_paths(scan_entries(root, walk, temp_walks)),
        unique_paths(scan_records(root, temp_only, walk, temp_walks)),
{
    let first = first_pass_of(walk, root);
    lemma_first_pass_keeps(walk, root);
    lemma_second_pass_keeps(first.dirs, first.queue, temp_walks);
    let dirs = second_pass_of(first.dirs, first.queue, temp_walks);
    let all = scan_entries(root, walk, temp_walks);
    assert forall|i: int, j: int| 0 <= i < j < all.len() implies all[i].path != all[j].path by {
        assert(dirs[i].path != dirs[j].path);
    }
    if temp_only {
        lemma_filter_keeps_unique_paths(all, temp_filter());
        lemma_ranked_keeps_unique_paths(all.filter(temp_filter()));
    } else {
        lemma_ranked_keeps_unique_paths(all);
    }
}

/// The walk entry is a file that counts for the directory `dir`: its
/// metadata could be read, `dir` is its immediate parent, and neither
/// `dir` nor a directory above it, below the root, is temporary.
pub open spec fn counts_for(e: WalkRecord, dir: Seq<char>, root: Seq<char>) -> bool {
    &&& e.kind == WalkKind::File
    &&& e.size.is_some()
    &&& parent_of(e.path) == Some(dir)
    &&& !under_temp(dir, root)
}

/// The number (or, with `bytes`, the total length) of the files of the
/// walk that count for the directory `dir`.
pub open spec fn attributed(walk: Seq<WalkRecord>, dir: Seq<char>, root: Seq<char>, bytes: bool) -> nat
    decreases walk.len(),
{
    if walk.len() == 0 {
        0
    } else {
        attributed(walk.drop_last(), dir, root, bytes) + if counts_for(walk.last(), dir, root) {
            entry_weight(walk.last(), bytes)
        } else {
            0
        }
    }
}

proof fn lemma_first_pass_step_keeps_registered(
    walk: Seq<WalkRecord>,
    root: Seq<char>,
    path: Seq<char>,
)
    requires
        walk.len() > 0,
        registered(first_pass_of(walk.drop_last(), root).dirs, path),
    ensures
        registered(first_pass_of(walk, root).dirs, path),
{
    lemma_first_pass_keeps(walk.drop_last(), root);
    let st = first_pass_of(walk.drop_last(), root);
    let e = walk.last();
    let after = first_pass_of(walk, root).dirs;
    let i = choose|i: int| 0 <= i < st.dirs.len() && #[trigger] st.dirs[i].path == path;
    match e.kind {
        WalkKind::Dir => {
            assert(after[i].path == path);
        },
        WalkKind::File => {
            match (e.size, parent_of(e.path)) {
                (Some(size), Some(parent)) => {
                    if !under_temp(parent, root) {
                        lemma_with_dir_keeps(st.dirs, parent, false);
                        let d = with_dir(st.dirs, parent, false);
                        assert(d[i].path == path);
                        assert(after[i].path == path);
                    }
                },
                _ => {},
            }
        },
        WalkKind::Other => {},
    }
}

proof fn lemma_unregistered_has_no_files(
    walk: Seq<WalkRecord>,
    root: Seq<char>,
    path: Seq<char>,
    bytes: bool,
)
    requires
        !registered(first_pass_of(walk, root).dirs, path),
    ensures
        attributed(walk, path, root, bytes) == 0,
    decreases walk.len(),
{
    if walk.len() > 0 {
        let st = first_pass_of(walk.drop_last(), root);
        if registered(st.dirs, path) {
            lemma_first_pass_step_keeps_registered(walk, root, path);
        }
        lemma_unregistered_has_no_files(walk.drop_last(), root, path, bytes);
        if counts_for(walk.last(), path, root) {
            lemma_first_pass_keeps(walk.drop_last(), root);
            lemma_with_dir_keeps(st.dirs, path, false);
            let d = with_dir(st.dirs, path, false);
            let i = choose|i: int| 0 <= i < d.len() && #[trigger] d[i].path == path;
            assert(first_pass_of(walk, root).dirs[i].path == path);
        }
    }
}

/// After the first pass the direct statistics of every directory are the
/// number and the total length of the files of the walk that count for
/// it.
pub proof fn lemma_direct_statistics(walk: Seq<WalkRecord>, root: Seq<char>, i: int, bytes: bool)
    requires
        0 <= i < first_pass_of(walk, root).dirs.len(),
    ensures
        dir_weights(first_pass_of(walk, root).dirs, bytes)[i] == attributed(
            walk,
            first_pass_of(walk, root).dirs[i].path,
            root,
            bytes,
        ),
    decreases walk.len(),
{
    if walk.len() > 0 {
        let before = walk.drop_last();
        lemma_first_pass_keeps(before, root);
        lemma_first_pass_keeps(walk, root);
        let st = first_pass_of(before, root);
        let after = first_pass_of(walk, root).dirs;
        let e = walk.last();
        let path = after[i].path;
        match e.kind {
            WalkKind::Dir => {
                lemma_with_dir_keeps(st.dirs, e.path, is_temp_path(e.path));
                if i < st.dirs.len() {
                    lemma_direct_statistics(before, root, i, bytes);
                } else {
                    lemma_unregistered_has_no_files(before, root, path, bytes);
                }
            },
            WalkKind::File => {
                match (e.size, parent_of(e.path)) {
                    (Some(size), Some(parent)) => {
                        if !under_temp(parent, root) {
                            lemma_with_dir_keeps(st.dirs, parent, false);
                            let d = with_dir(st.dirs, parent, false);
                            let at = index_of(d, parent);
                            assert(d[i].path == path);
                            if i < st.dirs.len() {
                                assert(d[i] == st.dirs[i]);
                                lemma_direct_statistics(before, root, i, bytes);
                            } else {
                                assert(path == parent);
                                lemma_unregistered_has_no_files(before, root, path, bytes);
                            }
                            if i == at {
                                assert(counts_for(e, path, root));
                            } else {
                                assert(d[at].path == parent);
                                assert(!counts_for(e, path, root));
                            }
                        } else {
                            lemma_direct_statistics(before, root, i, bytes);
                        }
                    },
                    _ => {
                        lemma_direct_statistics(before, root, i, bytes);
                    },
                }
            },
            WalkKind::Other => {
                lemma_direct_statistics(before, root, i, bytes);
            },
        }
    }
}

/// After the second pass a directory that was queued has, as its direct
/// statistics, what the walk made for its last place in the queue found
/// below it, and is temporary; a directory that was not queued is as the
/// first pass left it.
pub proof fn lemma_temp_statistics(
    dirs: Seq<DirRecord>,
    queue: Seq<Seq<char>>,
    walks: Seq<Seq<WalkRecord>>,
    i: int,
    bytes: bool,
)
    requires
        distinct_paths(dirs),
        0 <= i < dirs.len(),
    ensures
        second_pass_of(dirs, queue, walks).len() == dirs.len(),
        !queue.contains(dirs[i].path) ==> second_pass_of(dirs, queue, walks)[i] == dirs[i],
        forall|t: int|
            0 <= t < queue.len() && #[trigger] queue[t] == dirs[i].path && (forall|u: int|
                t < u < queue.len() ==> queue[u] != dirs[i].path) ==> second_pass_of(
                dirs,
                queue,
                walks,
            )[i].is_temp && dir_weights(second_pass_of(dirs, queue, walks), bytes)[i]
                == slot_weight(walks, t, bytes),
    decreases queue.len(),
{
    lemma_second_pass_keeps(dirs, queue, walks);
    if queue.len() > 0 {
        let short = queue.drop_last();
        let last = queue.len() - 1;
        lemma_temp_statistics(dirs, short, walks, i, bytes);
        lemma_second_pass_keeps(dirs, short, walks);
        lemma_second_pass_keeps_paths(dirs, short, walks, i);
        let before = second_pass_of(dirs, short, walks);
        let after = second_pass_of(dirs, queue, walks);
        if queue[last] == dirs[i].path {
            assert(before[i].path == queue[last]);
        } else {
            if registered(before, queue[last]) {
                assert(before[index_of(before, queue[last])].path != before[i].path);
            }
            assert(after[i] == before[i]);
        }
        if !queue.contains(dirs[i].path) {
            if short.contains(dirs[i].path) {
                let t = choose|t: int| 0 <= t < short.len() && short[t] == dirs[i].path;
                assert(queue[t] == dirs[i].path);
            }
        }
        assert forall|t: int|
            0 <= t < queue.len() && #[trigger] queue[t] == dirs[i].path && (forall|u: int|
                t < u < queue.len() ==> queue[u] != dirs[i].path) implies after[i].is_temp
            && dir_weights(after, bytes)[i] == slot_weight(walks, t, bytes) by {
            if t < last {
                assert(short[t] == dirs[i].path);
                assert forall|u: int| t < u < short.len() implies short[u] != dirs[i].path by {
                    assert(short[u] == queue[u]);
                }
            }
        }
    } else {
        assert(!queue.contains(dirs[i].path));
    }
}

} // verus!
