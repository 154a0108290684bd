//! Paths: the route of sibling indices from the root of a template to one
//! of its nodes, and their order.

use vstd::prelude::*;

verus! {

/// The value of a path held as machine integers.
pub open spec fn path_view(p: Seq<usize>) -> Seq<int> {
    p.map_values(|x: usize| x as int)
}

/// `a` and `b` are equal on their first `k` steps.
pub open spec fn agree_before(a: Seq<int>, b: Seq<int>, k: int) -> bool {
    &&& 0 <= k <= a.len()
    &&& k <= b.len()
    &&& forall|i: int| 0 <= i < k ==> a[i] == b[i]
}

/// `a` and `b` take the same first `k` steps, and then `a` turns to an
/// earlier sibling than `b` does.
pub open spec fn turns_before(a: Seq<int>, b: Seq<int>, k: int) -> bool {
    &&& k < a.len()
    &&& k < b.len()
    &&& agree_before(a, b, k)
    &&& a[k] < b[k]
}

/// `a` stops at a node that `b` passes through.
pub open spec fn above(a: Seq<int>, b: Seq<int>) -> bool {
    a.len() < b.len() && agree_before(a, b, a.len() as int)
}

/// The lexicographic order of integer sequences: `a` is a proper prefix of
/// `b`, or at the first step where they differ `a` takes the smaller index.
/// This is the order in which a walk of the template in document order
/// meets the nodes.
pub open spec fn path_lt(a: Seq<int>, b: Seq<int>) -> bool {
    above(a, b) || exists|k: int| #[trigger] turns_before(a, b, k)
}

/// The paths come in strictly ascending lexicographic order.
pub open spec fn ascending(paths: Seq<Seq<int>>) -> bool {
    forall|i: int, j: int| 0 <= i < j < paths.len() ==> path_lt(paths[i], paths[j])
}

/// No two of the paths are the same.
pub open spec fn distinct(paths: Seq<Seq<int>>) -> bool {
    forall|i: int, j: int|
        0 <= i < paths.len() && 0 <= j < paths.len() && i != j ==> paths[i] != paths[j]
}

/// No path comes before itself.
pub proof fn lemma_lt_irreflexive(a: Seq<int>)
    ensures
        !path_lt(a, a),
{
    if path_lt(a, a) {
        let k = choose|k: int| #[trigger] turns_before(a, a, k);
        assert(turns_before(a, a, k));
    }
}

/// The order is transitive.
pub proof fn lemma_lt_transitive(a: Seq<int>, b: Seq<int>, c: Seq<int>)
    requires
        path_lt(a, b),
        path_lt(b, c),
    ensures
        path_lt(a, c),
{
    if above(a, b) {
        if above(b, c) {
            assert(above(a, c));
        } else {
            let k = choose|k: int| #[trigger] turns_before(b, c, k);
            if k < a.len() {
                assert(turns_before(a, c, k));
            } else {
                assert(above(a, c));
            }
        }
    } else {
        let j = choose|j: int| #[trigger] turns_before(a, b, j);
        if above(b, c) {
            assert(turns_before(a, c, j));
        } else {
            let k = choose|k: int| #[trigger] turns_before(b, c, k);
            if j <= k {
                assert(turns_before(a, c, j));
            } else {
                assert(turns_before(a, c, k));
            }
        }
    }
}

/// Of two different paths one comes before the other.
pub proof fn lemma_lt_total(a: Seq<int>, b: Seq<int>)
    ensures
        a == b || path_lt(a, b) || path_lt(b, a),
{
    if exists|k: int| 0 <= k < a.len() && k < b.len() && a[k] != b[k] {
        let k = first_difference(a, b, 0);
        lemma_first_difference(a, b, 0);
        if a[k] < b[k] {
            assert(turns_before(a, b, k));
        } else {
            assert(turns_before(b, a, k));
        }
    } else {
        if a.len() < b.len() {
            assert(above(a, b));
        } else if b.len() < a.len() {
            assert(above(b, a));
        } else {
            assert(a =~= b);
        }
    }
}

/// The first step at or after `from` at which `a` and `b` differ, or the
/// length of the shorter where there is none.
pub open spec fn first_difference(a: Seq<int>, b: Seq<int>, from: int) -> int
    decreases a.len() - from,
{
    if from < 0 || from >= a.len() || from >= b.len() || a[from] != b[from] {
        from
    } else {
        first_difference(a, b, from + 1)
    }
}

proof fn lemma_first_difference(a: Seq<int>, b: Seq<int>, from: int)
    requires
        0 <= from,
        agree_before(a, b, from),
        exists|k: int| 0 <= k < a.len() && k < b.len() && a[k] != b[k],
    ensures
        ({
            let k = first_difference(a, b, from);
            &&& from <= k < a.len()
            &&& k < b.len()
            &&& agree_before(a, b, k)
            &&& a[k] != b[k]
        }),
    decreases a.len() - from,
{
    let w = choose|k: int| 0 <= k < a.len() && k < b.len() && a[k] != b[k];
    if from < a.len() && from < b.len() && a[from] == b[from] {
        lemma_first_difference(a, b, from + 1);
    }
}

/// Ascending paths are pairwise different.
pub proof fn lemma_ascending_distinct(paths: Seq<Seq<int>>)
    requires
        ascending(paths),
    ensures
        distinct(paths),
{
    assert forall|i: int, j: int| 0 <= i < paths.len() && 0 <= j < paths.len() && i != j
        implies paths[i] != paths[j] by {
        if i < j {
            assert(path_lt(paths[i], paths[j]));
            lemma_lt_irreflexive(paths[i]);
        } else {
            assert(path_lt(paths[j], paths[i]));
            lemma_lt_irreflexive(paths[j]);
        }
    }
}

/// The path of the next sibling: the last step is one further.
pub open spec fn bump(c: Seq<int>) -> Seq<int>
    recommends
        c.len() > 0,
{
    c.update(c.len() - 1, c.last() + 1)
}

/// A node comes before its next sibling.
pub proof fn lemma_lt_next(c: Seq<int>)
    requires
        c.len() > 0,
    ensures
        path_lt(c, bump(c)),
{
    assert(turns_before(c, bump(c), c.len() - 1));
}

/// What comes before a node comes before its next sibling.
pub proof fn lemma_lt_bump(p: Seq<int>, c: Seq<int>)
    requires
        c.len() > 0,
        path_lt(p, c),
    ensures
        path_lt(p, bump(c)),
{
    lemma_lt_next(c);
    lemma_lt_transitive(p, c, bump(c));
}

/// What comes before a node comes before its children.
pub proof fn lemma_lt_push(p: Seq<int>, c: Seq<int>, x: int)
    requires
        path_lt(p, c),
    ensures
        path_lt(p, c.push(x)),
{
    assert(above(c, c.push(x)));
    lemma_lt_transitive(p, c, c.push(x));
}

/// What comes before a child comes before the parent's next sibling.
pub proof fn lemma_lt_close(p: Seq<int>, c: Seq<int>)
    requires
        c.len() >= 2,
        path_lt(p, c),
    ensures
        path_lt(p, bump(c.drop_last())),
{
    assert(turns_before(c, bump(c.drop_last()), c.len() - 2));
    lemma_lt_transitive(p, c, bump(c.drop_last()));
}

} // verus!
