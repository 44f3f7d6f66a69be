//! Breadth-first closure of a set of roots under a neighbour function whose
//! edges are fetched one node at a time.
use vstd::prelude::*;
use vstd::laws_eq::obeys_view_eq;

verus! {

/// The views of a sequence of nodes.
pub open spec fn node_views<T: View>(s: Seq<T>) -> Seq<T::V> {
    s.map_values(|t: T| t@)
}

/// Whether `v` is the view of some element of `s`.
pub open spec fn holds_view<T: View>(s: Seq<T>, v: T::V) -> bool {
    exists|i: int| 0 <= i < s.len() && #[trigger] s[i]@ == v
}

/// Every neighbour of some node lies within `universe`, as long as the node
/// does: the part of the graph reachable from such nodes is finite.
pub open spec fn stays_within<T: View, F: Fn(&T) -> Vec<T>>(f: F, universe: Set<T::V>) -> bool {
    &&& universe.finite()
    &&& forall|x: T, out: Vec<T>, k: int|
        #![trigger f.ensures((&x,), out), out[k]]
        universe.contains(x@) && f.ensures((&x,), out) && 0 <= k < out.len()
            ==> universe.contains(out[k]@)
}

/// `order` lists the nodes expanded by one traversal, and `outs[i]` is the
/// answer of the neighbour function for `order[i]`:
/// - each node was expanded once, with one query;
/// - every root is expanded;
/// - every neighbour of an expanded node is expanded;
/// - each expanded node is a root or a neighbour of a node expanded before it.
pub open spec fn is_closure_run<T: View, F: Fn(&T) -> Vec<T>>(
    f: F,
    roots: Seq<T>,
    order: Seq<T>,
    outs: Seq<Vec<T>>,
) -> bool {
    &&& outs.len() == order.len()
    &&& node_views(order).no_duplicates()
    &&& forall|i: int| 0 <= i < order.len() ==> f.ensures((&order[i],), #[trigger] outs[i])
    &&& forall|r: int| 0 <= r < roots.len() ==> holds_view(order, (#[trigger] roots[r])@)
    &&& forall|i: int, k: int|
        0 <= i < outs.len() && 0 <= k < outs[i].len() ==> holds_view(order, (#[trigger] outs[i][k])@)
    &&& forall|i: int|
        0 <= i < order.len() ==> holds_view(roots, (#[trigger] order[i])@) || exists|j: int, k: int|
            0 <= j < i && 0 <= k < outs[j].len() && #[trigger] outs[j][k]@ == order[i]@
}

/// Whether some element of `v` has the same view as `x`.
pub fn contains_node<T: View + PartialEq>(v: &Vec<T>, x: &T) -> (r: bool)
    requires
        obeys_view_eq::<T>(),
    ensures
        r == holds_view(v@, x@),
{
    let mut i: usize = 0;
    while i < v.len()
        invariant
            i <= v.len(),
            obeys_view_eq::<T>(),
            forall|j: int| 0 <= j < i ==> v@[j]@ != x@,
        decreases v.len() - i,
    {
        proof {
            reveal(obeys_view_eq);
        }
        if v[i] == *x {
            return true;
        }
        i += 1;
    }
    false
}

/// Appends to `queue`, in order, each node of `deps` whose view is in
/// neither `visited` nor `queue` yet.
fn enqueue_unvisited<T: View + PartialEq>(queue: &mut Vec<T>, visited: &Vec<T>, deps: Vec<T>)
    requires
        obeys_view_eq::<T>(),
    ensures
        final(queue).len() >= old(queue).len(),
        forall|i: int| 0 <= i < old(queue).len() ==> #[trigger] final(queue)@[i] == old(queue)@[i],
        forall|i: int|
            old(queue).len() <= i < final(queue).len() ==> holds_view(deps@, #[trigger] final(queue)@[i]@),
        forall|k: int|
            0 <= k < deps.len() ==> holds_view(visited@, #[trigger] deps@[k]@) || holds_view(
                final(queue)@,
                deps@[k]@,
            ),
{
    let ghost all = deps@;
    let ghost start = queue@;
    let mut rest = deps;
    let ghost mut done: int = 0;
    while rest.len() > 0
        invariant
            obeys_view_eq::<T>(),
            0 <= done,
            done + rest.len() == all.len(),
            rest@ == all.subrange(done, all.len() as int),
            queue.len() >= start.len(),
            forall|i: int| 0 <= i < start.len() ==> #[trigger] queue@[i] == start[i],
            forall|i: int| start.len() <= i < queue.len() ==> holds_view(all, #[trigger] queue@[i]@),
            forall|k: int|
                0 <= k < done ==> holds_view(visited@, #[trigger] all[k]@) || holds_view(
                    queue@,
                    all[k]@,
                ),
        decreases rest.len(),
    {
        let d = rest.remove(0);
        assert(d == all[done]);
        let ghost before = queue@;
        if !contains_node(visited, &d) && !contains_node(queue, &d) {
            queue.push(d);
            assert(queue@[queue.len() - 1] == d);
            assert forall|k: int| 0 <= k < done && holds_view(before, all[k]@) implies holds_view(
                queue@,
                #[trigger] all[k]@,
            ) by {
                let w = choose|w: int| 0 <= w < before.len() && #[trigger] before[w]@ == all[k]@;
                assert(queue@[w] == before[w]);
            }
        }
        assert(rest@ =~= all.subrange(done + 1, all.len() as int));
        proof {
            done = done + 1;
        }
    }
}

/// The closure of `roots` under `f`, computed breadth first: a node is
/// queried once, when it is first taken from the queue, and only the
/// neighbours not yet visited are queued. The first result lists the nodes
/// in the order they were visited; the second holds, for each of them, the
/// answer of `f`.
pub fn closure<T: View + PartialEq, F: Fn(&T) -> Vec<T>>(f: F, roots: Vec<T>) -> (r: (
    Vec<T>,
    Ghost<Seq<Vec<T>>>,
))
    requires
        obeys_view_eq::<T>(),
        forall|x: &T| f.requires((x,)),
        exists|u: Set<T::V>|
            stays_within(f, u) && forall|i: int| 0 <= i < roots.len() ==> u.contains(#[trigger] roots@[i]@),
    ensures
        is_closure_run(f, roots@, r.0@, r.1@),
{
    let ghost u = choose|u: Set<T::V>|
        stays_within(f, u) && forall|i: int| 0 <= i < roots.len() ==> u.contains(#[trigger] roots@[i]@);
    let ghost root_seq = roots@;
    let mut queue: Vec<T> = roots;
    let mut visited: Vec<T> = Vec::new();
    let ghost mut outs: Seq<Vec<T>> = Seq::empty();
    proof {
        assert forall|r: int| 0 <= r < root_seq.len() implies holds_view(queue@, #[trigger] root_seq[r]@) by {
            assert(queue@[r] == root_seq[r]);
        }
    }
    while queue.len() > 0
        invariant
            obeys_view_eq::<T>(),
            forall|x: &T| f.requires((x,)),
            stays_within(f, u),
            outs.len() == visited.len(),
            visited.len() <= u.len(),
            node_views(visited@).no_duplicates(),
            forall|i: int| 0 <= i < visited.len() ==> f.ensures((&visited@[i],), #[trigger] outs[i]),
            forall|i: int| 0 <= i < visited.len() ==> u.contains(#[trigger] visited@[i]@),
            forall|q: int| 0 <= q < queue.len() ==> u.contains(#[trigger] queue@[q]@),
            forall|r: int|
                0 <= r < root_seq.len() ==> holds_view(visited@, #[trigger] root_seq[r]@) || holds_view(
                    queue@,
                    root_seq[r]@,
                ),
            forall|i: int, k: int|
                0 <= i < outs.len() && 0 <= k < outs[i].len() ==> holds_view(
                    visited@,
                    #[trigger] outs[i][k]@,
                ) || holds_view(queue@, outs[i][k]@),
            forall|i: int|
                0 <= i < visited.len() ==> holds_view(root_seq, #[trigger] visited@[i]@) || exists|
                    j: int,
                    k: int,
                | 0 <= j < i && 0 <= k < outs[j].len() && #[trigger] outs[j][k]@ == visited@[i]@,
            forall|q: int|
                0 <= q < queue.len() ==> holds_view(root_seq, #[trigger] queue@[q]@) || exists|
                    j: int,
                    k: int,
                | 0 <= j < visited.len() && 0 <= k < outs[j].len() && #[trigger] outs[j][k]@
                    == queue@[q]@,
        decreases u.len() - visited.len(), queue.len(),
    {
        let ghost q0 = queue@;
        let p = queue.remove(0);
        assert(p == q0[0]);
        assert forall|v: T::V| holds_view(q0, v) implies v == p@ || holds_view(queue@, v) by {
            let w = choose|w: int| 0 <= w < q0.len() && #[trigger] q0[w]@ == v;
            if w > 0 {
                assert(queue@[w - 1] == q0[w]);
            }
        }
        assert forall|q: int| 0 <= q < queue.len() implies #[trigger] queue@[q] == q0[q + 1] by {}
        if !contains_node(&visited, &p) {
            let deps = f(&p);
            let ghost v0 = visited@;
            let ghost o0 = outs;
            visited.push(p);
            proof {
                outs = outs.push(deps);
                assert(node_views(visited@) =~= node_views(v0).push(p@));
                lemma_no_dup_push(node_views(v0), p@);
                lemma_fits(node_views(visited@), u);
                assert forall|i: int| 0 <= i < v0.len() implies #[trigger] visited@[i] == v0[i] by {}
                assert forall|v: T::V| holds_view(v0, v) implies holds_view(visited@, v) by {
                    let w = choose|w: int| 0 <= w < v0.len() && #[trigger] v0[w]@ == v;
                    assert(visited@[w] == v0[w]);
                }
                assert(holds_view(visited@, p@)) by {
                    assert(visited@[v0.len() as int] == p);
                }
            }
            let ghost q1 = queue@;
            enqueue_unvisited(&mut queue, &visited, deps);
            proof {
                assert forall|v: T::V| holds_view(q1, v) implies holds_view(queue@, v) by {
                    let w = choose|w: int| 0 <= w < q1.len() && #[trigger] q1[w]@ == v;
                    assert(queue@[w] == q1[w]);
                }
                assert forall|q: int| 0 <= q < queue.len() implies u.contains(#[trigger] queue@[q]@)
                    && (holds_view(root_seq, queue@[q]@) || exists|j: int, k: int|
                    0 <= j < visited.len() && 0 <= k < outs[j].len() && #[trigger] outs[j][k]@
                        == queue@[q]@) by {
                    if q < q1.len() {
                        assert(queue@[q] == q1[q]);
                        assert(queue@[q] == q0[q + 1]);
                        assert(u.contains(q0[q + 1]@));
                        if !holds_view(root_seq, q0[q + 1]@) {
                            let (j, k) = choose|j: int, k: int|
                                0 <= j < v0.len() && 0 <= k < o0[j].len() && #[trigger] o0[j][k]@
                                    == q0[q + 1]@;
                            assert(outs[j] == o0[j]);
                        }
                    } else {
                        assert(holds_view(deps@, queue@[q]@));
                        let w = choose|w: int| 0 <= w < deps@.len() && #[trigger] deps@[w]@ == queue@[q]@;
                        assert(u.contains(p@));
                        assert(f.ensures((&p,), deps));
                        assert(u.contains(deps@[w]@));
                        assert(outs[v0.len() as int] == deps);
                        assert(outs[v0.len() as int][w]@ == queue@[q]@);
                    }
                }
                assert forall|i: int| 0 <= i < visited.len() implies holds_view(root_seq, #[trigger] visited@[i]@)
                    || exists|j: int, k: int|
                    0 <= j < i && 0 <= k < outs[j].len() && #[trigger] outs[j][k]@ == visited@[i]@ by {
                    if i < v0.len() {
                        assert(visited@[i] == v0[i]);
                        if !holds_view(root_seq, v0[i]@) {
                            let (j, k) = choose|j: int, k: int|
                                0 <= j < i && 0 <= k < o0[j].len() && #[trigger] o0[j][k]@ == v0[i]@;
                            assert(outs[j] == o0[j]);
                        }
                    } else {
                        assert(q0[0] == p);
                        if !holds_view(root_seq, p@) {
                            let (j, k) = choose|j: int, k: int|
                                0 <= j < v0.len() && 0 <= k < o0[j].len() && #[trigger] o0[j][k]@ == q0[0]@;
                            assert(outs[j] == o0[j]);
                        }
                    }
                }
            }
        }
    }
    (visited, Ghost(outs))
}

proof fn lemma_no_dup_push<A>(s: Seq<A>, a: A)
    requires
        s.no_duplicates(),
        !s.contains(a),
    ensures
        s.push(a).no_duplicates(),
{
    assert forall|i: int, j: int| 0 <= i < j < s.push(a).len() implies s.push(a)[i] != s.push(a)[j] by {
        if j == s.len() {
            assert(s[i] == s.push(a)[i]);
        }
    }
}

/// A list without repetitions drawn from a finite set is no longer than it.
proof fn lemma_fits<A>(s: Seq<A>, u: Set<A>)
    requires
        s.no_duplicates(),
        u.finite(),
        forall|i: int| 0 <= i < s.len() ==> u.contains(#[trigger] s[i]),
    ensures
        s.len() <= u.len(),
{
    s.unique_seq_to_set();
    assert(s.to_set().subset_of(u));
    vstd::set_lib::lemma_len_subset(s.to_set(), u);
}

/// Nodes with the same view get answers that hold the same views.
pub open spec fn answers_agree<T: View, F: Fn(&T) -> Vec<T>>(f: F) -> bool {
    forall|x1: T, x2: T, o1: Vec<T>, o2: Vec<T>, k: int|
        #![trigger f.ensures((&x1,), o1), f.ensures((&x2,), o2), o1[k]]
        x1@ == x2@ && f.ensures((&x1,), o1) && f.ensures((&x2,), o2) && 0 <= k < o1.len()
            ==> holds_view(o2@, o1[k]@)
}

proof fn lemma_run_covered<T: View, F: Fn(&T) -> Vec<T>>(
    f: F,
    roots: Seq<T>,
    a: Seq<T>,
    outs_a: Seq<Vec<T>>,
    b: Seq<T>,
    outs_b: Seq<Vec<T>>,
    i: int,
)
    requires
        is_closure_run(f, roots, a, outs_a),
        is_closure_run(f, roots, b, outs_b),
        answers_agree(f),
        0 <= i < a.len(),
    ensures
        holds_view(b, a[i]@),
    decreases i,
{
    if holds_view(roots, a[i]@) {
        let r = choose|r: int| 0 <= r < roots.len() && #[trigger] roots[r]@ == a[i]@;
        assert(holds_view(b, roots[r]@));
    } else {
        let (j, k) = choose|j: int, k: int|
            0 <= j < i && 0 <= k < outs_a[j].len() && #[trigger] outs_a[j][k]@ == a[i]@;
        lemma_run_covered(f, roots, a, outs_a, b, outs_b, j);
        let m = choose|m: int| 0 <= m < b.len() && #[trigger] b[m]@ == a[j]@;
        assert(f.ensures((&a[j],), outs_a[j]));
        assert(f.ensures((&b[m],), outs_b[m]));
        assert(holds_view(outs_b[m]@, outs_a[j][k]@));
        let w = choose|w: int| 0 <= w < outs_b[m].len() && #[trigger] outs_b[m]@[w]@ == outs_a[j][k]@;
        assert(outs_b[m][w] == outs_b[m]@[w]);
        assert(holds_view(b, outs_b[m][w]@));
    }
}

/// The set of visited nodes does not depend on the order of the traversal:
/// two runs from the same roots under the same neighbour function, be it
/// breadth first, depth first or in any other order, visit the same nodes.
pub proof fn lemma_closure_set_order_independent<T: View, F: Fn(&T) -> Vec<T>>(
    f: F,
    roots: Seq<T>,
    a: Seq<T>,
    outs_a: Seq<Vec<T>>,
    b: Seq<T>,
    outs_b: Seq<Vec<T>>,
)
    requires
        is_closure_run(f, roots, a, outs_a),
        is_closure_run(f, roots, b, outs_b),
        answers_agree(f),
    ensures
        node_views(a).to_set() == node_views(b).to_set(),
{
    assert forall|v: T::V| #[trigger] node_views(a).to_set().contains(v) implies node_views(
        b,
    ).to_set().contains(v) by {
        let i = choose|i: int| 0 <= i < a.len() && node_views(a)[i] == v;
        lemma_run_covered(f, roots, a, outs_a, b, outs_b, i);
        let m = choose|m: int| 0 <= m < b.len() && #[trigger] b[m]@ == a[i]@;
        assert(node_views(b)[m] == v);
    }
    assert forall|v: T::V| #[trigger] node_views(b).to_set().contains(v) implies node_views(
        a,
    ).to_set().contains(v) by {
        let i = choose|i: int| 0 <= i < b.len() && node_views(b)[i] == v;
        lemma_run_covered(f, roots, b, outs_b, a, outs_a, i);
        let m = choose|m: int| 0 <= m < a.len() && #[trigger] a[m]@ == b[i]@;
        assert(node_views(a)[m] == v);
    }
    assert(node_views(a).to_set() =~= node_views(b).to_set());
}

} // verus!
