//! Bottom-up summation over a forest of directories.
//!
//! A forest is given by three parallel sequences: for each node the index
//! of its parent (if it has one among the nodes), its depth, and a weight
//! (a file count or a byte size). The subtree total of a node is its own
//! weight plus the subtree totals of its children.

use vstd::prelude::*;

verus! {

/// Every parent index names a node, and a parent lies strictly higher
/// than its child. Together with the lengths agreeing, this makes the
/// parent links a forest.
pub open spec fn forest_wf(parents: Seq<Option<usize>>, depths: Seq<usize>) -> bool {
    &&& parents.len() == depths.len()
    &&& forall|j: int|
        0 <= j < parents.len() ==> match #[trigger] parents[j] {
            Some(p) => p < parents.len() && depths[p as int] < depths[j],
            None => true,
        }
}

/// Node `j` is an immediate child of node `i`.
pub open spec fn is_child_of(
    parents: Seq<Option<usize>>,
    depths: Seq<usize>,
    j: int,
    i: int,
) -> bool {
    &&& 0 <= j < parents.len()
    &&& 0 <= i < parents.len()
    &&& parents[j] == Some(i as usize)
    &&& depths[j] > depths[i]
}

/// The weight of node `i` plus the subtree totals of all its children.
pub open spec fn subtree_total(
    parents: Seq<Option<usize>>,
    depths: Seq<usize>,
    weights: Seq<nat>,
    i: int,
) -> nat
    decreases usize::MAX - depths[i], parents.len() + 1,
{
    if 0 <= i < weights.len() {
        weights[i] + children_total(parents, depths, weights, i, parents.len() as int)
    } else {
        0
    }
}

/// The sum of the subtree totals of those children of `i` whose index is
/// below `n`.
pub open spec fn children_total(
    parents: Seq<Option<usize>>,
    depths: Seq<usize>,
    weights: Seq<nat>,
    i: int,
    n: int,
) -> nat
    decreases usize::MAX - depths[i], n,
{
    if n <= 0 || n > parents.len() {
        0
    } else {
        children_total(parents, depths, weights, i, n - 1) + if is_child_of(
            parents,
            depths,
            n - 1,
            i,
        ) {
            subtree_total(parents, depths, weights, n - 1)
        } else {
            0
        }
    }
}

/// The sum of all elements of `s`.
pub open spec fn total(s: Seq<nat>) -> nat
    decreases s.len(),
{
    if s.len() == 0 {
        0
    } else {
        total(s.drop_last()) + s.last()
    }
}

/// The weights as natural numbers.
pub open spec fn as_nats(weights: Seq<u64>) -> Seq<nat> {
    Seq::new(weights.len(), |i: int| weights[i] as nat)
}


/// Replacing one element changes the sum by the difference.
pub proof fn lemma_total_update(s: Seq<nat>, a: int, v: nat)
    requires
        0 <= a < s.len(),
    ensures
        total(s.update(a, v)) + s[a] == total(s) + v,
    decreases s.len(),
{
    let t = s.update(a, v);
    if a == s.len() - 1 {
        assert(t.drop_last() =~= s.drop_last());
    } else {
        lemma_total_update(s.drop_last(), a, v);
        assert(t.drop_last() =~= s.drop_last().update(a, v));
    }
}

/// No element exceeds the sum.
pub proof fn lemma_total_bounds_element(s: Seq<nat>, a: int)
    requires
        0 <= a < s.len(),
    ensures
        s[a] <= total(s),
    decreases s.len(),
{
    if a < s.len() - 1 {
        lemma_total_bounds_element(s.drop_last(), a);
    }
}

/// A stretch of a sequence sums to no more than the whole.
pub proof fn lemma_total_bounds_subrange(s: Seq<nat>, a: int, b: int)
    requires
        0 <= a <= b <= s.len(),
    ensures
        total(s.subrange(a, b)) <= total(s),
    decreases s.len(),
{
    if b < s.len() {
        assert(s.subrange(a, b) =~= s.drop_last().subrange(a, b));
        lemma_total_bounds_subrange(s.drop_last(), a, b);
    } else if a < b {
        assert(s.subrange(a, b).drop_last() =~= s.drop_last().subrange(a, b - 1));
        lemma_total_bounds_subrange(s.drop_last(), a, b - 1);
    }
}

proof fn lemma_total_bounds_pair(s: Seq<nat>, a: int, b: int)
    requires
        0 <= a < s.len(),
        0 <= b < s.len(),
        a != b,
    ensures
        s[a] + s[b] <= total(s),
{
    lemma_total_update(s, a, 0);
    lemma_total_bounds_element(s.update(a, 0), b);
}

/// The children of `i` below `n` that are already finished, summed.
spec fn finished_children_total(
    parents: Seq<Option<usize>>,
    depths: Seq<usize>,
    weights: Seq<nat>,
    done: Seq<bool>,
    i: int,
    n: int,
) -> nat
    decreases n,
{
    if n <= 0 || n > parents.len() {
        0
    } else {
        finished_children_total(parents, depths, weights, done, i, n - 1) + if is_child_of(
            parents,
            depths,
            n - 1,
            i,
        ) && done[n - 1] {
            subtree_total(parents, depths, weights, n - 1)
        } else {
            0
        }
    }
}

proof fn lemma_no_finished_children(
    parents: Seq<Option<usize>>,
    depths: Seq<usize>,
    weights: Seq<nat>,
    done: Seq<bool>,
    i: int,
    n: int,
)
    requires
        done.len() == parents.len(),
        forall|j: int| 0 <= j < done.len() ==> !done[j],
    ensures
        finished_children_total(parents, depths, weights, done, i, n) == 0,
    decreases n,
{
    if !(n <= 0 || n > parents.len()) {
        lemma_no_finished_children(parents, depths, weights, done, i, n - 1);
    }
}

proof fn lemma_all_children_finished(
    parents: Seq<Option<usize>>,
    depths: Seq<usize>,
    weights: Seq<nat>,
    done: Seq<bool>,
    i: int,
    n: int,
)
    requires
        done.len() == parents.len(),
        forall|j: int| is_child_of(parents, depths, j, i) ==> done[j],
    ensures
        finished_children_total(parents, depths, weights, done, i, n) == children_total(
            parents,
            depths,
            weights,
            i,
            n,
        ),
    decreases n,
{
    if !(n <= 0 || n > parents.len()) {
        lemma_all_children_finished(parents, depths, weights, done, i, n - 1);
    }
}

proof fn lemma_finish_one(
    parents: Seq<Option<usize>>,
    depths: Seq<usize>,
    weights: Seq<nat>,
    done: Seq<bool>,
    b: int,
    i: int,
    n: int,
)
    requires
        done.len() == parents.len(),
        0 <= b < done.len(),
        !done[b],
    ensures
        finished_children_total(parents, depths, weights, done.update(b, true), i, n)
            == finished_children_total(parents, depths, weights, done, i, n) + if b < n && n
            <= parents.len() && is_child_of(parents, depths, b, i) {
            subtree_total(parents, depths, weights, b)
        } else {
            0
        },
    decreases n,
{
    if !(n <= 0 || n > parents.len()) {
        lemma_finish_one(parents, depths, weights, done, b, i, n - 1);
    }
}

/// What each node still has to hand on: the running sum of an unfinished
/// node or of a finished root, and nothing for a finished inner node.
spec fn pending(acc: Seq<u64>, done: Seq<bool>, parents: Seq<Option<usize>>) -> Seq<nat> {
    Seq::new(
        acc.len(),
        |i: int|
            if !done[i] || parents[i].is_none() {
                acc[i] as nat
            } else {
                0
            },
    )
}

/// One for every unfinished node.
spec fn unfinished(done: Seq<bool>) -> Seq<nat> {
    Seq::new(
        done.len(),
        |i: int|
            if done[i] {
                0nat
            } else {
                1nat
            },
    )
}

/// The state of the summation between two steps.
spec fn sweep_inv(
    parents: Seq<Option<usize>>,
    depths: Seq<usize>,
    weights: Seq<nat>,
    acc: Seq<u64>,
    done: Seq<bool>,
) -> bool {
    &&& acc.len() == parents.len()
    &&& done.len() == parents.len()
    &&& weights.len() == parents.len()
    &&& forall|i: int, j: int|
        0 <= i < done.len() && 0 <= j < done.len() && done[i] && !done[j] ==> depths[i]
            >= depths[j]
    &&& forall|i: int|
        0 <= i < acc.len() ==> #[trigger] acc[i] as nat == weights[i]
            + finished_children_total(parents, depths, weights, done, i, parents.len() as int)
    &&& forall|i: int|
        0 <= i < acc.len() && done[i] ==> #[trigger] acc[i] as nat == subtree_total(
            parents,
            depths,
            weights,
            i,
        )
    &&& total(pending(acc, done, parents)) == total(weights)
}

/// The deepest node that is not finished yet, if there is one.
fn deepest_unfinished(depths: &Vec<usize>, done: &Vec<bool>) -> (r: Option<usize>)
    requires
        depths.len() == done.len(),
    ensures
        match r {
            Some(b) => b < done.len() && !done[b as int] && forall|j: int|
                0 <= j < done.len() && !done[j] ==> depths[j] <= depths[b as int],
            None => forall|j: int| 0 <= j < done.len() ==> done[j],
        },
{
    let mut best: Option<usize> = None;
    let mut i: usize = 0;
    while i < done.len()
        invariant
            i <= done.len(),
            depths.len() == done.len(),
            match best {
                Some(b) => b < i && !done[b as int] && forall|j: int|
                    0 <= j < i && !done[j] ==> depths[j] <= depths[b as int],
                None => forall|j: int| 0 <= j < i ==> done[j],
            },
        decreases done.len() - i,
    {
        if !done[i] {
            match best {
                Some(b) => {
                    if depths[i] > depths[b] {
                        best = Some(i);
                    }
                },
                None => {
                    best = Some(i);
                },
            }
        }
        i += 1;
    }
    best
}

/// Sums the weights bottom-up: the result holds, for every node, its
/// subtree total.
///
/// Nodes are finished deepest first. A node's running sum starts as its
/// own weight; when the node is finished, its sum is added to its
/// parent's, so every child is complete before its parent is.
pub fn accumulate(parents: &Vec<Option<usize>>, depths: &Vec<usize>, weights: &Vec<u64>) -> (acc:
    Vec<u64>)
    requires
        forest_wf(parents@, depths@),
        weights.len() == parents.len(),
        total(as_nats(weights@)) <= u64::MAX,
    ensures
        acc.len() == weights.len(),
        forall|i: int|
            0 <= i < acc.len() ==> #[trigger] acc[i] as nat == subtree_total(
                parents@,
                depths@,
                as_nats(weights@),
                i,
            ),
{
    let n = weights.len();
    let ghost w = as_nats(weights@);
    let mut acc: Vec<u64> = Vec::new();
    let mut done: Vec<bool> = Vec::new();
    let mut k: usize = 0;
    while k < n
        invariant
            k <= n,
            n == weights.len(),
            acc.len() == k,
            done.len() == k,
            forall|j: int| 0 <= j < k ==> acc[j] == weights[j],
            forall|j: int| 0 <= j < k ==> !done[j],
        decreases n - k,
    {
        acc.push(weights[k]);
        done.push(false);
        k += 1;
    }
    proof {
        assert(pending(acc@, done@, parents@) =~= w);
        assert forall|i: int| 0 <= i < acc.len() implies #[trigger] acc[i] as nat == weights[i]
            + finished_children_total(parents@, depths@, w, done@, i, n as int) by {
            lemma_no_finished_children(parents@, depths@, w, done@, i, n as int);
        }
    }
    loop
        invariant
            n == weights.len(),
            forest_wf(parents@, depths@),
            total(w) <= u64::MAX,
            w == as_nats(weights@),
            sweep_inv(parents@, depths@, w, acc@, done@),
        ensures
            sweep_inv(parents@, depths@, w, acc@, done@),
            forall|j: int| 0 <= j < done.len() ==> done[j],
        decreases total(unfinished(done@)),
    {
        let b = match deepest_unfinished(depths, &done) {
            Some(b) => b,
            None => {
                break ;
            },
        };
        let ghost acc0 = acc@;
        let ghost done0 = done@;
        let ghost pend0 = pending(acc0, done0, parents@);
        let sum_b = acc[b];
        proof {
            assert forall|j: int| is_child_of(parents@, depths@, j, b as int) implies done0[j] by {}
            lemma_all_children_finished(parents@, depths@, w, done0, b as int, n as int);
            lemma_total_update(unfinished(done0), b as int, 0);
            assert(unfinished(done0.update(b as int, true)) =~= unfinished(done0).update(
                b as int,
                0,
            ));
            assert forall|i: int| 0 <= i < n implies finished_children_total(
                parents@,
                depths@,
                w,
                done0.update(b as int, true),
                i,
                n as int,
            ) == finished_children_total(parents@, depths@, w, done0, i, n as int)
                + if is_child_of(parents@, depths@, b as int, i) {
                subtree_total(parents@, depths@, w, b as int)
            } else {
                0
            } by {
                lemma_finish_one(parents@, depths@, w, done0, b as int, i, n as int);
            }
        }
        done.set(b, true);
        match parents[b] {
            Some(p) => {
                proof {
                    assert(depths[p as int] < depths[b as int]);
                    assert(!done0[p as int]);
                    assert(pend0[p as int] == acc0[p as int] as nat);
                    assert(pend0[b as int] == acc0[b as int] as nat);
                    lemma_total_bounds_pair(pend0, p as int, b as int);
                }
                let sum_p = acc[p];
                acc.set(p, sum_p + sum_b);
                proof {
                    let mid = pend0.update(b as int, 0);
                    lemma_total_update(pend0, b as int, 0);
                    lemma_total_update(mid, p as int, (sum_p + sum_b) as nat);
                    assert(pending(acc@, done@, parents@) =~= mid.update(
                        p as int,
                        (sum_p + sum_b) as nat,
                    ));
                    assert forall|i: int| 0 <= i < n && i != p implies !is_child_of(
                        parents@,
                        depths@,
                        b as int,
                        i,
                    ) by {}
                    assert(is_child_of(parents@, depths@, b as int, p as int));
                }
            },
            None => {
                proof {
                    assert(pending(acc@, done@, parents@) =~= pend0);
                    assert forall|i: int| 0 <= i < n implies !is_child_of(
                        parents@,
                        depths@,
                        b as int,
                        i,
                    ) by {}
                }
            },
        }
    }
    acc
}

/// A subtree total is the node's own weight plus the subtree totals of
/// its children, and so is never below the node's own weight.
pub proof fn lemma_subtree_total_law(
    parents: Seq<Option<usize>>,
    depths: Seq<usize>,
    weights: Seq<nat>,
    i: int,
)
    requires
        0 <= i < weights.len(),
    ensures
        subtree_total(parents, depths, weights, i) == weights[i] + children_total(
            parents,
            depths,
            weights,
            i,
            parents.len() as int,
        ),
        subtree_total(parents, depths, weights, i) >= weights[i],
{
}

} // verus!
