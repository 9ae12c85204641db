//! Trees of processes: in what order they are ended.
use vstd::prelude::*;

use crate::process::{contains, fresh, lemma_fresh_insert, lemma_fresh_monotone, lemma_fresh_step};

verus! {

// ---- Trees ----

/// A process and its parent.
pub type Process = (u32, u32);

/// The ids of the processes of a table.
pub open spec fn child_ids(ps: Seq<Process>) -> Seq<u32> {
    ps.map_values(|p: Process| p.0)
}

/// The order in which a tree is ended, after what was ended before: the children
/// of a process, each with its own tree, in the order of the table, and the
/// process after them. A process that was met before is passed over.
pub open spec fn tree(
    pid: u32,
    ps: Seq<Process>,
    seen: Set<u32>,
    order: Seq<u32>,
) -> (Set<u32>, Seq<u32>)
    decreases fresh(child_ids(ps), seen.insert(pid), 0), ps.len() + 1,
{
    if pid == 0 || seen.contains(pid) {
        (seen, order)
    } else {
        let below = subtrees(pid, ps, seen.insert(pid), order, 0);
        (below.0, below.1.push(pid))
    }
}

/// The trees of the children of a process, from row `i` on.
pub open spec fn subtrees(
    pid: u32,
    ps: Seq<Process>,
    seen: Set<u32>,
    order: Seq<u32>,
    i: int,
) -> (Set<u32>, Seq<u32>)
    decreases fresh(child_ids(ps), seen, 0), ps.len() - i,
{
    if i < 0 || i >= ps.len() {
        (seen, order)
    } else if ps[i].1 == pid && !seen.contains(ps[i].0) {
        proof {
            assert(child_ids(ps)[i] == ps[i].0);
            lemma_fresh_insert(child_ids(ps), seen, i, 0);
        }
        let child = tree(ps[i].0, ps, seen, order);
        proof {
            lemma_fresh_monotone(child_ids(ps), seen, seen.union(child.0), 0);
        }
        subtrees(pid, ps, seen.union(child.0), child.1, i + 1)
    } else {
        subtrees(pid, ps, seen, order, i + 1)
    }
}

/// The order in which the trees of several processes are ended.
pub open spec fn trees(
    roots: Seq<u32>,
    ps: Seq<Process>,
    seen: Set<u32>,
    order: Seq<u32>,
    i: int,
) -> Seq<u32>
    decreases roots.len() - i,
{
    if 0 <= i < roots.len() {
        let one = tree(roots[i], ps, seen, order);
        trees(roots, ps, one.0, one.1, i + 1)
    } else {
        order
    }
}

proof fn lemma_tree_grows(pid: u32, ps: Seq<Process>, seen: Set<u32>, order: Seq<u32>)
    ensures
        seen.subset_of(tree(pid, ps, seen, order).0),
{
    if !(pid == 0 || seen.contains(pid)) {
        lemma_subtrees_grow(pid, ps, seen.insert(pid), order, 0);
    }
}

proof fn lemma_subtrees_grow(
    pid: u32,
    ps: Seq<Process>,
    seen: Set<u32>,
    order: Seq<u32>,
    i: int,
)
    ensures
        seen.subset_of(subtrees(pid, ps, seen, order, i).0),
    decreases ps.len() - i,
{
    if 0 <= i < ps.len() {
        if ps[i].1 == pid && !seen.contains(ps[i].0) {
            let child = tree(ps[i].0, ps, seen, order);
            lemma_subtrees_grow(pid, ps, seen.union(child.0), child.1, i + 1);
        } else {
            lemma_subtrees_grow(pid, ps, seen, order, i + 1);
        }
    }
}

/// Adds the tree of a process to the list of what is to be ended.
fn kill_tree_from(pid: u32, processes: &[(u32, u32)], seen: &mut Vec<u32>, killed: &mut Vec<u32>)
    ensures
        final(seen)@.to_set() == tree(pid, processes@, old(seen)@.to_set(), old(killed)@).0,
        final(killed)@ == tree(pid, processes@, old(seen)@.to_set(), old(killed)@).1,
    decreases fresh(child_ids(processes@), old(seen)@.to_set().insert(pid), 0),
{
    if pid == 0 || contains(seen, pid) {
        return;
    }
    let ghost ids = child_ids(processes@);
    let ghost before = seen@.to_set();
    let ghost start = before.insert(pid);
    let ghost order = killed@;
    proof {
        seen@.lemma_push_to_set_commute(pid);
    }
    seen.push(pid);
    let n: usize = processes.len();
    let mut i: usize = 0;
    while i < n
        invariant
            n == processes@.len(),
            i <= n,
            ids == child_ids(processes@),
            start == old(seen)@.to_set().insert(pid),
            start.subset_of(seen@.to_set()),
            subtrees(pid, processes@, start, order, 0) == subtrees(
                pid,
                processes@,
                seen@.to_set(),
                killed@,
                i as int,
            ),
        decreases n - i,
    {
        let child: u32 = processes[i].0;
        let parent: u32 = processes[i].1;
        if parent == pid && !contains(seen, child) {
            let ghost now = seen@.to_set();
            let ghost now_order = killed@;
            proof {
                assert(ids[i as int] == child);
                lemma_fresh_step(ids, start, now, i as int);
                lemma_tree_grows(child, processes@, now, now_order);
            }
            kill_tree_from(child, processes, seen, killed);
            proof {
                assert(now.union(seen@.to_set()) =~= seen@.to_set());
            }
        }
        i += 1;
    }
    killed.push(pid);
}

/// The processes to end, in order, so that the trees of all roots are gone:
/// children before their parents.
pub fn kill_process_tree(roots: &[u32], processes: &[(u32, u32)]) -> (r: Vec<u32>)
    ensures
        r@ == trees(roots@, processes@, Set::empty(), Seq::empty(), 0),
{
    let mut seen: Vec<u32> = Vec::new();
    let mut killed: Vec<u32> = Vec::new();
    proof {
        assert(seen@.to_set() =~= Set::empty());
    }
    let n: usize = roots.len();
    let mut i: usize = 0;
    while i < n
        invariant
            n == roots@.len(),
            i <= n,
            trees(roots@, processes@, Set::empty(), Seq::empty(), 0) == trees(
                roots@,
                processes@,
                seen@.to_set(),
                killed@,
                i as int,
            ),
        decreases n - i,
    {
        kill_tree_from(roots[i], processes, &mut seen, &mut killed);
        i += 1;
    }
    killed
}

// ---- What the order of a tree promises ----

/// Whether the table has a row that makes one process the child of another.
pub open spec fn is_child(ps: Seq<Process>, parent: u32, child: u32) -> bool {
    exists|i: int| 0 <= i < ps.len() && #[trigger] ps[i] == (child, parent)
}

/// A way down the table: each process is a child of the one before it, and none is
/// process 0.
pub open spec fn is_way(ps: Seq<Process>, way: Seq<u32>) -> bool {
    &&& way.len() >= 1
    &&& forall|k: int| 0 <= k < way.len() ==> #[trigger] way[k] != 0
    &&& forall|k: int, l: int|
        0 <= k && l == k + 1 && l < way.len() ==> is_child(ps, #[trigger] way[k], #[trigger] way[l])
}

/// Whether a process is another one or below it in the table.
pub open spec fn reaches(ps: Seq<Process>, a: u32, b: u32) -> bool {
    exists|way: Seq<u32>| #[trigger] is_way(ps, way) && way[0] == a && way.last() == b
}

proof fn lemma_reaches_itself(ps: Seq<Process>, a: u32)
    requires
        a != 0,
    ensures
        reaches(ps, a, a),
{
    let way = seq![a];
    assert(is_way(ps, way));
}

proof fn lemma_reaches_child(ps: Seq<Process>, a: u32, b: u32, i: int)
    requires
        reaches(ps, a, b),
        0 <= i < ps.len(),
        ps[i].1 == b,
        ps[i].0 != 0,
    ensures
        reaches(ps, a, ps[i].0),
{
    let way = choose|way: Seq<u32>| #[trigger]
        is_way(ps, way) && way[0] == a && way.last() == b;
    let more = way.push(ps[i].0);
    assert(ps[i] == (ps[i].0, b));
    assert(is_child(ps, b, ps[i].0));
    assert forall|k: int, l: int| 0 <= k && l == k + 1 && l < more.len() implies is_child(
        ps,
        #[trigger] more[k],
        #[trigger] more[l],
    ) by {
        if l < way.len() {
            assert(is_child(ps, way[k], way[l]));
        }
    }
    assert(is_way(ps, more));
    assert(more[0] == a && more.last() == ps[i].0);
}

spec fn in_new(order: Seq<u32>, o: Seq<u32>, x: u32) -> bool {
    exists|k: int| order.len() <= k < o.len() && o[k] == x
}

spec fn all_children_in(ps: Seq<Process>, s: Set<u32>, x: u32) -> bool {
    forall|i: int|
        0 <= i < ps.len() && (#[trigger] ps[i]).1 == x && ps[i].0 != 0 ==> s.contains(ps[i].0)
}

spec fn stands_before(o: Seq<u32>, x: u32, k: int) -> bool {
    exists|m: int| 0 <= m < k && #[trigger] o[m] == x
}

spec fn after_children(ps: Seq<Process>, o: Seq<u32>, k: int) -> bool {
    forall|i: int|
        0 <= i < ps.len() && (#[trigger] ps[i]).1 == o[k] && ps[i].0 != 0 ==> stands_before(
            o,
            ps[i].0,
            k,
        ) || reaches(ps, ps[i].0, o[k])
}

spec fn good(
    ps: Seq<Process>,
    top: u32,
    seen: Set<u32>,
    s: Set<u32>,
    o: Seq<u32>,
    k: int,
) -> bool {
    &&& o[k] != 0
    &&& !seen.contains(o[k])
    &&& reaches(ps, top, o[k])
    &&& all_children_in(ps, s, o[k])
    &&& after_children(ps, o, k)
}

spec fn grown(
    ps: Seq<Process>,
    top: u32,
    seen: Set<u32>,
    order: Seq<u32>,
    s: Set<u32>,
    o: Seq<u32>,
) -> bool {
    &&& order.len() <= o.len()
    &&& forall|k: int| 0 <= k < order.len() ==> #[trigger] o[k] == order[k]
    &&& forall|x: u32| #[trigger] s.contains(x) <==> seen.contains(x) || in_new(order, o, x)
    &&& forall|k: int| order.len() <= k < o.len() ==> #[trigger] good(ps, top, seen, s, o, k)
    &&& forall|j: int, k: int|
        order.len() <= j < k < o.len() ==> #[trigger] o[j] != #[trigger] o[k]
}

spec fn above(ps: Seq<Process>, pid: u32, seen: Set<u32>, order: Seq<u32>) -> bool {
    forall|q: u32| #[trigger]
        seen.contains(q) ==> order.contains(q) || reaches(ps, q, pid)
}

proof fn lemma_grown_nothing(ps: Seq<Process>, top: u32, seen: Set<u32>, order: Seq<u32>)
    ensures
        grown(ps, top, seen, order, seen, order),
{
}

proof fn lemma_grown_trans(
    ps: Seq<Process>,
    top: u32,
    seen: Set<u32>,
    order: Seq<u32>,
    s1: Set<u32>,
    o1: Seq<u32>,
    s2: Set<u32>,
    o2: Seq<u32>,
)
    requires
        grown(ps, top, seen, order, s1, o1),
        grown(ps, top, s1, o1, s2, o2),
    ensures
        grown(ps, top, seen, order, s2, o2),
{
    assert forall|k: int| 0 <= k < order.len() implies #[trigger] o2[k] == order[k] by {
        assert(o1[k] == order[k]);
    }
    assert forall|x: u32| #[trigger] s2.contains(x) <==> seen.contains(x) || in_new(
        order,
        o2,
        x,
    ) by {
        if s2.contains(x) {
            if s1.contains(x) {
                if !seen.contains(x) {
                    let k = choose|k: int| order.len() <= k < o1.len() && o1[k] == x;
                    assert(o2[k] == x);
                }
            } else {
                let k = choose|k: int| o1.len() <= k < o2.len() && o2[k] == x;
                assert(o2[k] == x);
            }
        }
        if seen.contains(x) {
            assert(s1.contains(x));
        }
        if in_new(order, o2, x) {
            let k = choose|k: int| order.len() <= k < o2.len() && o2[k] == x;
            if k < o1.len() {
                assert(o1[k] == x);
                assert(in_new(order, o1, x));
                assert(s1.contains(x));
            } else {
                assert(in_new(o1, o2, x));
            }
        }
    }
    assert forall|k: int| order.len() <= k < o2.len() implies #[trigger] good(
        ps,
        top,
        seen,
        s2,
        o2,
        k,
    ) by {
        if k < o1.len() {
            assert(good(ps, top, seen, s1, o1, k));
            assert(o2[k] == o1[k]);
            assert forall|i: int|
                0 <= i < ps.len() && (#[trigger] ps[i]).1 == o2[k] && ps[i].0
                    != 0 implies s2.contains(ps[i].0) by {
                assert(s1.contains(ps[i].0));
            }
            assert forall|i: int|
                0 <= i < ps.len() && (#[trigger] ps[i]).1 == o2[k] && ps[i].0
                    != 0 implies stands_before(o2, ps[i].0, k) || reaches(ps, ps[i].0, o2[k]) by {
                if stands_before(o1, ps[i].0, k) {
                    let m = choose|m: int| 0 <= m < k && #[trigger] o1[m] == ps[i].0;
                    assert(o2[m] == ps[i].0);
                }
            }
        } else {
            assert(good(ps, top, s1, s2, o2, k));
            if seen.contains(o2[k]) {
                assert(s1.contains(o2[k]));
            }
        }
    }
    assert forall|j: int, k: int| order.len() <= j < k < o2.len() implies #[trigger] o2[j]
        != #[trigger] o2[k] by {
        if j < o1.len() {
            assert(o2[j] == o1[j]);
            if k < o1.len() {
                assert(o2[k] == o1[k]);
            } else {
                assert(in_new(order, o1, o1[j]));
                assert(s1.contains(o1[j]));
                assert(good(ps, top, s1, s2, o2, k));
            }
        }
    }
}

proof fn lemma_grown_top(
    ps: Seq<Process>,
    top: u32,
    i: int,
    seen: Set<u32>,
    order: Seq<u32>,
    s: Set<u32>,
    o: Seq<u32>,
)
    requires
        0 <= i < ps.len(),
        ps[i].1 == top,
        top != 0,
        ps[i].0 != 0,
        grown(ps, ps[i].0, seen, order, s, o),
    ensures
        grown(ps, top, seen, order, s, o),
{
    lemma_reaches_itself(ps, top);
    lemma_reaches_child(ps, top, top, i);
    assert forall|k: int| order.len() <= k < o.len() implies #[trigger] good(
        ps,
        top,
        seen,
        s,
        o,
        k,
    ) by {
        assert(good(ps, ps[i].0, seen, s, o, k));
        lemma_reaches_trans(ps, top, ps[i].0, o[k]);
    }
}

proof fn lemma_reaches_trans(ps: Seq<Process>, a: u32, b: u32, c: u32)
    requires
        reaches(ps, a, b),
        reaches(ps, b, c),
    ensures
        reaches(ps, a, c),
{
    let one = choose|way: Seq<u32>| #[trigger]
        is_way(ps, way) && way[0] == a && way.last() == b;
    let two = choose|way: Seq<u32>| #[trigger]
        is_way(ps, way) && way[0] == b && way.last() == c;
    let n = one.len() as int;
    let way = one + two.skip(1);
    assert forall|k: int, l: int| 0 <= k && l == k + 1 && l < way.len() implies is_child(
        ps,
        #[trigger] way[k],
        #[trigger] way[l],
    ) by {
        if l < n {
            assert(is_child(ps, one[k], one[l]));
        } else {
            assert(way[l] == two[l - n + 1]);
            assert(way[k] == two[k - n + 1]);
            assert(is_child(ps, two[k - n + 1], two[l - n + 1]));
        }
    }
    assert forall|k: int| 0 <= k < way.len() implies #[trigger] way[k] != 0 by {
        if k >= n {
            assert(way[k] == two[k - n + 1]);
        }
    }
    assert(is_way(ps, way));
    assert(way[0] == a);
    assert(way.last() == c);
}

proof fn lemma_tree(pid: u32, ps: Seq<Process>, seen: Set<u32>, order: Seq<u32>)
    requires
        above(ps, pid, seen, order),
    ensures
        grown(
            ps,
            pid,
            seen,
            order,
            tree(pid, ps, seen, order).0,
            tree(pid, ps, seen, order).1,
        ),
        pid != 0 ==> tree(pid, ps, seen, order).0.contains(pid),
    decreases fresh(child_ids(ps), seen.insert(pid), 0), ps.len() + 1,
{
    if pid == 0 || seen.contains(pid) {
        lemma_grown_nothing(ps, pid, seen, order);
    } else {
        let inner = seen.insert(pid);
        lemma_reaches_itself(ps, pid);
        lemma_subtrees(pid, ps, inner, order, 0);
        let (s, o1) = subtrees(pid, ps, inner, order, 0);
        let o = o1.push(pid);
        let last = o1.len() as int;
        assert(s.contains(pid));
        assert forall|x: u32| #[trigger] s.contains(x) <==> seen.contains(x) || in_new(
            order,
            o,
            x,
        ) by {
            if s.contains(x) && !inner.contains(x) {
                let k = choose|k: int| order.len() <= k < o1.len() && o1[k] == x;
                assert(o[k] == x);
            }
            if x == pid {
                assert(o[last] == x);
            }
            if in_new(order, o, x) {
                let k = choose|k: int| order.len() <= k < o.len() && o[k] == x;
                if k < last {
                    assert(o1[k] == x);
                    assert(in_new(order, o1, x));
                }
            }
        }
        assert forall|k: int| order.len() <= k < o.len() implies #[trigger] good(
            ps,
            pid,
            seen,
            s,
            o,
            k,
        ) by {
            if k < last {
                assert(good(ps, pid, inner, s, o1, k));
                assert(o[k] == o1[k]);
                assert forall|i: int|
                    0 <= i < ps.len() && (#[trigger] ps[i]).1 == o[k] && ps[i].0
                        != 0 implies stands_before(o, ps[i].0, k) || reaches(
                    ps,
                    ps[i].0,
                    o[k],
                ) by {
                    if stands_before(o1, ps[i].0, k) {
                        let m = choose|m: int| 0 <= m < k && #[trigger] o1[m] == ps[i].0;
                        assert(o[m] == ps[i].0);
                    }
                }
            } else {
                assert forall|i: int|
                    0 <= i < ps.len() && (#[trigger] ps[i]).1 == o[k] && ps[i].0
                        != 0 implies stands_before(o, ps[i].0, k) || reaches(
                    ps,
                    ps[i].0,
                    o[k],
                ) by {
                    let c = ps[i].0;
                    assert(s.contains(c));
                    if inner.contains(c) {
                        if c != pid && order.contains(c) {
                            let m = choose|m: int| 0 <= m < order.len() && order[m] == c;
                            assert(o1[m] == c);
                            assert(o[m] == c);
                        }
                    } else {
                        let m = choose|m: int| order.len() <= m < o1.len() && o1[m] == c;
                        assert(o[m] == c);
                    }
                }
            }
        }
        assert forall|j: int, k: int| order.len() <= j < k < o.len() implies #[trigger] o[j]
            != #[trigger] o[k] by {
            assert(o[j] == o1[j]);
            if k == last {
                assert(good(ps, pid, inner, s, o1, j));
            } else {
                assert(o[k] == o1[k]);
            }
        }
        assert forall|k: int| 0 <= k < order.len() implies #[trigger] o[k] == order[k] by {
            assert(o1[k] == order[k]);
        }
    }
}

proof fn lemma_subtrees(pid: u32, ps: Seq<Process>, seen: Set<u32>, order: Seq<u32>, i: int)
    requires
        0 <= i <= ps.len(),
        pid != 0,
        above(ps, pid, seen, order),
    ensures
        grown(
            ps,
            pid,
            seen,
            order,
            subtrees(pid, ps, seen, order, i).0,
            subtrees(pid, ps, seen, order, i).1,
        ),
        forall|j: int|
            i <= j < ps.len() && (#[trigger] ps[j]).1 == pid && ps[j].0 != 0 ==> subtrees(
                pid,
                ps,
                seen,
                order,
                i,
            ).0.contains(ps[j].0),
    decreases fresh(child_ids(ps), seen, 0), ps.len() - i,
{
    if i >= ps.len() {
        lemma_grown_nothing(ps, pid, seen, order);
    } else if ps[i].1 == pid && !seen.contains(ps[i].0) {
        let c = ps[i].0;
        assert(child_ids(ps)[i] == c);
        lemma_fresh_insert(child_ids(ps), seen, i, 0);
        let (s1, o1) = tree(c, ps, seen, order);
        lemma_tree_grows(c, ps, seen, order);
        assert(seen.union(s1) =~= s1);
        lemma_fresh_monotone(child_ids(ps), seen, s1, 0);
        if c == 0 {
            lemma_grown_nothing(ps, pid, seen, order);
        } else {
            assert forall|q: u32| #[trigger] seen.contains(q) implies order.contains(q) || reaches(
                ps,
                q,
                c,
            ) by {
                if !order.contains(q) {
                    lemma_reaches_child(ps, q, pid, i);
                }
            }
            lemma_tree(c, ps, seen, order);
            lemma_grown_top(ps, pid, i, seen, order, s1, o1);
        }
        assert(above(ps, pid, s1, o1)) by {
            assert forall|q: u32| #[trigger] s1.contains(q) implies o1.contains(q) || reaches(
                ps,
                q,
                pid,
            ) by {
                if seen.contains(q) {
                    if order.contains(q) {
                        let m = choose|m: int| 0 <= m < order.len() && order[m] == q;
                        assert(o1[m] == q);
                    }
                } else {
                    let k = choose|k: int| order.len() <= k < o1.len() && o1[k] == q;
                    assert(o1[k] == q);
                }
            }
        }
        lemma_subtrees(pid, ps, s1, o1, i + 1);
        let (s2, o2) = subtrees(pid, ps, s1, o1, i + 1);
        lemma_grown_trans(ps, pid, seen, order, s1, o1, s2, o2);
        assert forall|j: int|
            i <= j < ps.len() && (#[trigger] ps[j]).1 == pid && ps[j].0 != 0 implies s2.contains(
            ps[j].0,
        ) by {
            if j == i {
                assert(s1.contains(c));
            }
        }
    } else {
        lemma_subtrees(pid, ps, seen, order, i + 1);
        let (s2, o2) = subtrees(pid, ps, seen, order, i + 1);
        assert forall|j: int|
            i <= j < ps.len() && (#[trigger] ps[j]).1 == pid && ps[j].0 != 0 implies s2.contains(
            ps[j].0,
        ) by {
            if j == i {
                assert(seen.contains(ps[j].0));
            }
        }
    }
}

spec fn from_a_root(ps: Seq<Process>, roots: Seq<u32>, x: u32) -> bool {
    exists|r: int| 0 <= r < roots.len() && reaches(ps, #[trigger] roots[r], x)
}

spec fn all_done(
    roots: Seq<u32>,
    ps: Seq<Process>,
    seen: Set<u32>,
    order: Seq<u32>,
    i: int,
) -> bool {
    &&& order.no_duplicates()
    &&& forall|x: u32| #[trigger] seen.contains(x) <==> order.contains(x)
    &&& forall|k: int|
        0 <= k < order.len() ==> {
            &&& #[trigger] order[k] != 0
            &&& from_a_root(ps, roots, order[k])
            &&& all_children_in(ps, seen, order[k])
            &&& after_children(ps, order, k)
        }
    &&& forall|r: int|
        0 <= r < i && r < roots.len() && #[trigger] roots[r] != 0 ==> seen.contains(roots[r])
}

proof fn lemma_trees(
    roots: Seq<u32>,
    ps: Seq<Process>,
    seen: Set<u32>,
    order: Seq<u32>,
    i: int,
)
    requires
        0 <= i <= roots.len(),
        all_done(roots, ps, seen, order, i),
    ensures
        exists|all: Set<u32>| #[trigger]
            all_done(roots, ps, all, trees(roots, ps, seen, order, i), roots.len() as int),
    decreases roots.len() - i,
{
    if i < roots.len() {
        let root = roots[i];
        let (s, o) = tree(root, ps, seen, order);
        lemma_tree(root, ps, seen, order);
        assert forall|x: u32| #[trigger] s.contains(x) <==> o.contains(x) by {
            if s.contains(x) {
                if seen.contains(x) {
                    let m = choose|m: int| 0 <= m < order.len() && order[m] == x;
                    assert(o[m] == x);
                } else {
                    let k = choose|k: int| order.len() <= k < o.len() && o[k] == x;
                    assert(o[k] == x);
                }
            }
            if o.contains(x) {
                let k = choose|k: int| 0 <= k < o.len() && o[k] == x;
                if k < order.len() {
                    assert(order[k] == x);
                    assert(seen.contains(x));
                } else {
                    assert(in_new(order, o, x));
                }
            }
        }
        assert forall|j: int, k: int| 0 <= j < o.len() && 0 <= k < o.len() && j != k implies o[j]
            != o[k] by {
            if j < order.len() && k < order.len() {
                assert(order[j] != order[k]);
                assert(o[j] == order[j] && o[k] == order[k]);
            } else if j < order.len() {
                assert(o[j] == order[j]);
                assert(seen.contains(o[j]));
                assert(good(ps, root, seen, s, o, k));
            } else if k < order.len() {
                assert(o[k] == order[k]);
                assert(seen.contains(o[k]));
                assert(good(ps, root, seen, s, o, j));
            }
        }
        assert forall|k: int| 0 <= k < o.len() implies {
            &&& #[trigger] o[k] != 0
            &&& from_a_root(ps, roots, o[k])
            &&& all_children_in(ps, s, o[k])
            &&& after_children(ps, o, k)
        } by {
            if k < order.len() {
                assert(o[k] == order[k]);
                assert(all_children_in(ps, seen, order[k]));
                assert forall|j: int|
                    0 <= j < ps.len() && (#[trigger] ps[j]).1 == o[k] && ps[j].0
                        != 0 implies s.contains(ps[j].0) by {
                    assert(seen.contains(ps[j].0));
                }
                assert(after_children(ps, order, k));
                assert forall|j: int|
                    0 <= j < ps.len() && (#[trigger] ps[j]).1 == o[k] && ps[j].0
                        != 0 implies stands_before(o, ps[j].0, k) || reaches(
                    ps,
                    ps[j].0,
                    o[k],
                ) by {
                    if stands_before(order, ps[j].0, k) {
                        let m = choose|m: int| 0 <= m < k && #[trigger] order[m] == ps[j].0;
                        assert(o[m] == ps[j].0);
                    }
                }
            } else {
                assert(good(ps, root, seen, s, o, k));
                assert(reaches(ps, roots[i], o[k]));
            }
        }
        assert forall|r: int|
            0 <= r < i + 1 && r < roots.len() && #[trigger] roots[r] != 0 implies s.contains(
            roots[r],
        ) by {
            if r < i {
                assert(seen.contains(roots[r]));
            }
        }
        assert(all_done(roots, ps, s, o, i + 1));
        lemma_trees(roots, ps, s, o, i + 1);
        assert(trees(roots, ps, seen, order, i) == trees(roots, ps, s, o, i + 1));
    } else {
        assert(all_done(roots, ps, seen, trees(roots, ps, seen, order, i), roots.len() as int));
    }
}

proof fn lemma_way_stays(ps: Seq<Process>, s: Set<u32>, way: Seq<u32>, k: int)
    requires
        is_way(ps, way),
        0 <= k < way.len(),
        s.contains(way[0]),
        forall|x: u32| #[trigger] s.contains(x) ==> all_children_in(ps, s, x),
    ensures
        s.contains(way[k]),
    decreases k,
{
    if k > 0 {
        lemma_way_stays(ps, s, way, k - 1);
        assert(is_child(ps, way[k - 1], way[k]));
        assert(all_children_in(ps, s, way[k - 1]));
        let i = choose|i: int| 0 <= i < ps.len() && #[trigger] ps[i] == (way[k], way[k - 1]);
        assert(ps[i].1 == way[k - 1] && ps[i].0 != 0);
    }
}

/// What is ended to clear away the trees of some processes: no process twice; the
/// processes themselves and all below them, process 0 excepted, and no other; and
/// each after its children, but for a child that it is itself below.
pub proof fn law_kill_process_tree(roots: Seq<u32>, ps: Seq<Process>)
    ensures
        ({
            let order = trees(roots, ps, Set::empty(), Seq::empty(), 0);
            &&& order.no_duplicates()
            &&& forall|x: u32| #[trigger]
                order.contains(x) <==> exists|r: int|
                    0 <= r < roots.len() && reaches(ps, #[trigger] roots[r], x)
            &&& forall|k: int, i: int|
                0 <= k < order.len() && 0 <= i < ps.len() && (#[trigger] ps[i]).1
                    == #[trigger] order[k] && ps[i].0 != 0 ==> (exists|m: int|
                    0 <= m < k && #[trigger] order[m] == ps[i].0) || reaches(
                    ps,
                    ps[i].0,
                    order[k],
                )
        }),
{
    let order = trees(roots, ps, Set::empty(), Seq::empty(), 0);
    lemma_trees(roots, ps, Set::empty(), Seq::empty(), 0);
    let all = choose|all: Set<u32>| #[trigger]
        all_done(roots, ps, all, order, roots.len() as int);
    assert forall|x: u32| #[trigger] all.contains(x) implies all_children_in(ps, all, x) by {
        let k = choose|k: int| 0 <= k < order.len() && order[k] == x;
        assert(all_children_in(ps, all, order[k]));
    }
    assert forall|x: u32| #[trigger] order.contains(x) <==> exists|r: int|
        0 <= r < roots.len() && reaches(ps, #[trigger] roots[r], x) by {
        if order.contains(x) {
            let k = choose|k: int| 0 <= k < order.len() && order[k] == x;
            assert(from_a_root(ps, roots, order[k]));
        }
        if exists|r: int| 0 <= r < roots.len() && reaches(ps, #[trigger] roots[r], x) {
            let r = choose|r: int| 0 <= r < roots.len() && reaches(ps, #[trigger] roots[r], x);
            let way = choose|way: Seq<u32>| #[trigger]
                is_way(ps, way) && way[0] == roots[r] && way.last() == x;
            assert(roots[r] != 0);
            lemma_way_stays(ps, all, way, way.len() - 1);
        }
    }
    assert forall|k: int, i: int|
        0 <= k < order.len() && 0 <= i < ps.len() && (#[trigger] ps[i]).1 == #[trigger] order[k]
            && ps[i].0 != 0 implies (exists|m: int|
        0 <= m < k && #[trigger] order[m] == ps[i].0) || reaches(ps, ps[i].0, order[k]) by {
        assert(after_children(ps, order, k));
    }
}

/// The trees are ended root by root: what is ended for the first roots does not
/// depend on the roots that follow.
pub proof fn law_trees_root_by_root(roots: Seq<u32>, more: Seq<u32>, ps: Seq<Process>)
    ensures
        trees(roots, ps, Set::empty(), Seq::empty(), 0).is_prefix_of(
            trees(roots + more, ps, Set::empty(), Seq::empty(), 0),
        ),
        trees(Seq::empty(), ps, Set::empty(), Seq::empty(), 0) == Seq::<u32>::empty(),
{
    lemma_trees_prefix(roots, more, ps, Set::empty(), Seq::empty(), 0);
}

proof fn lemma_trees_prefix(
    roots: Seq<u32>,
    more: Seq<u32>,
    ps: Seq<Process>,
    seen: Set<u32>,
    order: Seq<u32>,
    i: int,
)
    requires
        0 <= i <= roots.len(),
    ensures
        trees(roots, ps, seen, order, i).is_prefix_of(trees(roots + more, ps, seen, order, i)),
    decreases roots.len() - i,
{
    if i < roots.len() {
        let one = tree(roots[i], ps, seen, order);
        assert((roots + more)[i] == roots[i]);
        lemma_trees_prefix(roots, more, ps, one.0, one.1, i + 1);
    } else {
        lemma_trees_grow(roots + more, ps, seen, order, i);
    }
}

proof fn lemma_trees_grow(
    roots: Seq<u32>,
    ps: Seq<Process>,
    seen: Set<u32>,
    order: Seq<u32>,
    i: int,
)
    requires
        0 <= i <= roots.len(),
    ensures
        order.is_prefix_of(trees(roots, ps, seen, order, i)),
    decreases roots.len() - i,
{
    if i < roots.len() {
        let one = tree(roots[i], ps, seen, order);
        lemma_tree_order_grows(roots[i], ps, seen, order);
        lemma_trees_grow(roots, ps, one.0, one.1, i + 1);
        lemma_prefix_of_prefix(order, one.1, trees(roots, ps, one.0, one.1, i + 1));
    } else {
        assert(order.subrange(0, order.len() as int) =~= order);
    }
}

proof fn lemma_prefix_of_prefix(a: Seq<u32>, b: Seq<u32>, c: Seq<u32>)
    requires
        a.is_prefix_of(b),
        b.is_prefix_of(c),
    ensures
        a.is_prefix_of(c),
{
    assert(c.subrange(0, a.len() as int) =~= b.subrange(0, a.len() as int));
}

proof fn lemma_tree_order_grows(pid: u32, ps: Seq<Process>, seen: Set<u32>, order: Seq<u32>)
    ensures
        order.is_prefix_of(tree(pid, ps, seen, order).1),
    decreases fresh(child_ids(ps), seen.insert(pid), 0), ps.len() + 1,
{
    if pid == 0 || seen.contains(pid) {
        assert(order.subrange(0, order.len() as int) =~= order);
    } else {
        let below = subtrees(pid, ps, seen.insert(pid), order, 0);
        lemma_subtrees_order_grow(pid, ps, seen.insert(pid), order, 0);
        assert(below.1.is_prefix_of(below.1.push(pid))) by {
            assert(below.1.push(pid).subrange(0, below.1.len() as int) =~= below.1);
        }
        lemma_prefix_of_prefix(order, below.1, below.1.push(pid));
    }
}

proof fn lemma_subtrees_order_grow(pid: u32, ps: Seq<Process>, seen: Set<u32>, order: Seq<u32>, i: int)
    ensures
        order.is_prefix_of(subtrees(pid, ps, seen, order, i).1),
    decreases fresh(child_ids(ps), seen, 0), ps.len() - i,
{
    if i < 0 || i >= ps.len() {
        assert(order.subrange(0, order.len() as int) =~= order);
    } else if ps[i].1 == pid && !seen.contains(ps[i].0) {
        assert(child_ids(ps)[i] == ps[i].0);
        lemma_fresh_insert(child_ids(ps), seen, i, 0);
        lemma_tree_order_grows(ps[i].0, ps, seen, order);
        let child = tree(ps[i].0, ps, seen, order);
        let all = seen.union(child.0);
        lemma_fresh_monotone(child_ids(ps), seen, all, 0);
        lemma_subtrees_order_grow(pid, ps, all, child.1, i + 1);
        lemma_prefix_of_prefix(order, child.1, subtrees(pid, ps, all, child.1, i + 1).1);
    } else {
        lemma_subtrees_order_grow(pid, ps, seen, order, i + 1);
    }
}

/// The children of a process are ended in the order of the table, and the process
/// after them.
pub proof fn law_children_in_order(pid: u32, ps: Seq<Process>)
    requires
        pid != 0,
        forall|i: int|
            0 <= i < ps.len() ==> (#[trigger] ps[i]).1 == pid && ps[i].0 != pid && ps[i].0 != 0,
        child_ids(ps).no_duplicates(),
    ensures
        trees(seq![pid], ps, Set::empty(), Seq::empty(), 0) == child_ids(ps).push(pid),
{
    let seen = Set::<u32>::empty().insert(pid);
    lemma_leaves_in_order(pid, ps, seen, Seq::empty(), 0);
    assert(Seq::<u32>::empty() + child_ids(ps).skip(0) =~= child_ids(ps));
    let one = tree(pid, ps, Set::empty(), Seq::empty());
    assert(one.1 == child_ids(ps).push(pid));
    assert(trees(seq![pid], ps, one.0, one.1, 1) == one.1);
}

proof fn lemma_leaves_in_order(
    pid: u32,
    ps: Seq<Process>,
    seen: Set<u32>,
    order: Seq<u32>,
    i: int,
)
    requires
        pid != 0,
        0 <= i <= ps.len(),
        seen.contains(pid),
        forall|k: int|
            0 <= k < ps.len() ==> (#[trigger] ps[k]).1 == pid && ps[k].0 != pid && ps[k].0 != 0,
        child_ids(ps).no_duplicates(),
        forall|k: int| i <= k < ps.len() ==> !seen.contains((#[trigger] ps[k]).0),
    ensures
        subtrees(pid, ps, seen, order, i).1 == order + child_ids(ps).skip(i),
    decreases ps.len() - i,
{
    let ids = child_ids(ps);
    if i < ps.len() {
        let c = ps[i].0;
        assert(ids[i] == c);
        lemma_leaf(c, pid, ps, seen.insert(c), order, 0);
        let child = tree(c, ps, seen, order);
        assert(child.0 == seen.insert(c));
        assert(child.1 == order.push(c));
        let all = seen.union(child.0);
        assert(all =~= seen.insert(c));
        assert forall|k: int| i + 1 <= k < ps.len() implies !all.contains(
            (#[trigger] ps[k]).0,
        ) by {
            assert(ids[k] == ps[k].0);
        }
        lemma_leaves_in_order(pid, ps, all, child.1, i + 1);
        assert(order.push(c) + ids.skip(i + 1) =~= order + ids.skip(i));
    } else {
        assert(order + ids.skip(i) =~= order);
    }
}

proof fn lemma_leaf(c: u32, pid: u32, ps: Seq<Process>, seen: Set<u32>, order: Seq<u32>, i: int)
    requires
        0 <= i <= ps.len(),
        c != pid,
        forall|k: int| 0 <= k < ps.len() ==> (#[trigger] ps[k]).1 == pid,
    ensures
        subtrees(c, ps, seen, order, i) == (seen, order),
    decreases ps.len() - i,
{
    if i < ps.len() {
        assert(ps[i].1 == pid);
        lemma_leaf(c, pid, ps, seen, order, i + 1);
    }
}

} // verus!
