//! Reachability in a finite graph whose nodes are numbered: which nodes can
//! be reached from a set of roots by following edges. The lockfile uses it to
//! find the packages that depend, directly or not, on an entrypoint.

use vstd::prelude::*;

verus! {

/// Whether every edge of `g` leads to a node of `g`.
pub open spec fn graph_wf(g: Seq<Vec<usize>>) -> bool {
    forall|i: int, k: int|
        0 <= i < g.len() && 0 <= k < g[i]@.len() ==> #[trigger] g[i]@[k] < g.len()
}

/// Whether `g` has an edge from `a` to `b`.
pub open spec fn has_edge(g: Seq<Vec<usize>>, a: int, b: int) -> bool {
    0 <= a < g.len() && exists|k: int| 0 <= k < g[a]@.len() && #[trigger] g[a]@[k] == b
}

/// Whether `p` is a walk along edges of `g` from `from` to `to`.
pub open spec fn connects(g: Seq<Vec<usize>>, from: int, to: int, p: Seq<int>) -> bool {
    &&& p.len() > 0
    &&& p[0] == from
    &&& p.last() == to
    &&& 0 <= from < g.len()
    &&& forall|i: int| 0 <= i < p.len() - 1 ==> has_edge(g, #[trigger] p[i], p[i + 1])
}

/// Whether `node` is reached from one of `roots` along edges of `g`; each
/// root that is a node of `g` reaches itself.
pub open spec fn reachable(g: Seq<Vec<usize>>, roots: Seq<usize>, node: int) -> bool {
    exists|r: int, p: Seq<int>|
        0 <= r < roots.len() && #[trigger] connects(g, roots[r] as int, node, p)
}

/// How many entries of `s` are true.
pub open spec fn count_true(s: Seq<bool>) -> nat
    decreases s.len(),
{
    if s.len() == 0 {
        0
    } else {
        count_true(s.drop_last()) + if s.last() {
            1nat
        } else {
            0nat
        }
    }
}

/// No more entries are true than there are entries.
pub proof fn lemma_count_true_bound(s: Seq<bool>)
    ensures
        count_true(s) <= s.len(),
    decreases s.len(),
{
    if s.len() > 0 {
        lemma_count_true_bound(s.drop_last());
    }
}

/// Setting a false entry to true adds one to the count.
pub proof fn lemma_count_true_set(s: Seq<bool>, i: int)
    requires
        0 <= i < s.len(),
        !s[i],
    ensures
        count_true(s.update(i, true)) == count_true(s) + 1,
    decreases s.len(),
{
    let t = s.update(i, true);
    if i == s.len() - 1 {
        assert(t.drop_last() =~= s.drop_last());
    } else {
        lemma_count_true_set(s.drop_last(), i);
        assert(t.drop_last() =~= s.drop_last().update(i, true));
    }
}

/// A node of the graph reaches itself.
pub proof fn lemma_connects_self(g: Seq<Vec<usize>>, a: int)
    requires
        0 <= a < g.len(),
    ensures
        connects(g, a, a, seq![a]),
{
}

/// A walk that reaches `b`, followed by an edge from `b`, is a walk to where
/// the edge leads.
pub proof fn lemma_connects_extend(g: Seq<Vec<usize>>, a: int, b: int, c: int, p: Seq<int>)
    requires
        connects(g, a, b, p),
        has_edge(g, b, c),
    ensures
        connects(g, a, c, p.push(c)),
{
    let q = p.push(c);
    assert forall|i: int| 0 <= i < q.len() - 1 implies has_edge(g, #[trigger] q[i], q[i + 1]) by {
        if i < p.len() - 1 {
            assert(q[i] == p[i]);
            assert(q[i + 1] == p[i + 1]);
        } else {
            assert(q[i] == b);
            assert(q[i + 1] == c);
        }
    }
}

/// A set of nodes that no edge leaves holds every node of a walk that starts
/// in it.
pub proof fn lemma_closed_holds_walk(g: Seq<Vec<usize>>, marks: Seq<bool>, p: Seq<int>, i: int)
    requires
        marks.len() == g.len(),
        graph_wf(g),
        forall|a: int, k: int|
            0 <= a < g.len() && marks[a] && 0 <= k < g[a]@.len() ==> marks[#[trigger] g[a]@[k] as int],
        p.len() > 0,
        connects(g, p[0], p.last(), p),
        marks[p[0]],
        0 <= i < p.len(),
    ensures
        0 <= p[i] < g.len(),
        marks[p[i]],
    decreases i,
{
    if i > 0 {
        lemma_closed_holds_walk(g, marks, p, i - 1);
        assert(has_edge(g, p[i - 1], p[i - 1 + 1]));
        let k = choose|k: int| 0 <= k < g[p[i - 1]]@.len() && #[trigger] g[p[i - 1]]@[k] == p[i];
        assert(marks[g[p[i - 1]]@[k] as int]);
    }
}

/// A vector of `n` entries, all false.
fn all_false(n: usize) -> (marks: Vec<bool>)
    ensures
        marks@.len() == n,
        forall|i: int| 0 <= i < n ==> !marks@[i],
        count_true(marks@) == 0,
{
    let mut marks: Vec<bool> = Vec::new();
    let mut i: usize = 0;
    while i < n
        invariant
            i <= n,
            marks@.len() == i,
            forall|j: int| 0 <= j < i ==> !marks@[j],
            count_true(marks@) == 0,
        decreases n - i,
    {
        let ghost before = marks@;
        marks.push(false);
        proof {
            assert(marks@.drop_last() =~= before);
        }
        i = i + 1;
    }
    marks
}

/// What holds of the marks and of the nodes still to be visited while
/// `mark_reachable` runs: only reachable nodes are marked, the nodes to be
/// visited are marked, and an edge from a marked node leads to a marked node
/// unless its start is still to be visited or is `current`.
pub open spec fn marking(
    g: Seq<Vec<usize>>,
    roots: Seq<usize>,
    marks: Seq<bool>,
    stack: Seq<usize>,
    current: int,
) -> bool {
    &&& marks.len() == g.len()
    &&& count_true(marks) <= g.len()
    &&& forall|i: int| 0 <= i < g.len() && #[trigger] marks[i] ==> reachable(g, roots, i)
    &&& forall|s: int|
        0 <= s < stack.len() ==> #[trigger] stack[s] < g.len() && marks[stack[s] as int]
    &&& forall|i: int, k: int|
        0 <= i < g.len() && i != current && marks[i] && 0 <= k < g[i]@.len() ==> marks[#[trigger] g[i]@[k] as int]
            || stack.contains(i as usize)
}

/// Marking an unmarked node that is reachable, and noting it for a visit,
/// keeps what `marking` says.
proof fn lemma_mark_keeps(
    g: Seq<Vec<usize>>,
    roots: Seq<usize>,
    marks: Seq<bool>,
    stack: Seq<usize>,
    current: int,
    v: usize,
)
    requires
        graph_wf(g),
        marking(g, roots, marks, stack, current),
        v < g.len(),
        !marks[v as int],
        reachable(g, roots, v as int),
    ensures
        marking(g, roots, marks.update(v as int, true), stack.push(v), current),
        count_true(marks.update(v as int, true)) == count_true(marks) + 1,
{
    let m2 = marks.update(v as int, true);
    let s2 = stack.push(v);
    lemma_count_true_set(marks, v as int);
    lemma_count_true_bound(m2);
    assert forall|s: int| 0 <= s < s2.len() implies #[trigger] s2[s] < g.len() && m2[s2[s] as int] by {
        if s < stack.len() {
            assert(s2[s] == stack[s]);
        }
    }
    assert forall|i: int, k: int|
        0 <= i < g.len() && i != current && m2[i] && 0 <= k < g[i]@.len() implies m2[#[trigger] g[i]@[k] as int]
        || s2.contains(i as usize) by {
        if i == v {
            assert(s2[stack.len() as int] == v);
        } else if !marks[g[i]@[k] as int] {
            assert(stack.contains(i as usize));
            let s = choose|s: int| 0 <= s < stack.len() && stack[s] == i as usize;
            assert(s2[s] == i as usize);
        }
    }
}

/// Marks the nodes of `g` that are reached from `roots`: the roots
/// themselves, and every node to which an edge leads from a marked node.
pub fn mark_reachable(g: &Vec<Vec<usize>>, roots: &Vec<usize>) -> (marks: Vec<bool>)
    requires
        graph_wf(g@),
        forall|r: int| 0 <= r < roots@.len() ==> roots@[r] < g@.len(),
    ensures
        marks@.len() == g@.len(),
        forall|i: int| 0 <= i < g@.len() ==> marks@[i] == reachable(g@, roots@, i),
{
    let n = g.len();
    let mut marks = all_false(n);
    let mut stack: Vec<usize> = Vec::new();
    let mut r: usize = 0;
    while r < roots.len()
        invariant
            r <= roots@.len(),
            n == g@.len(),
            graph_wf(g@),
            forall|x: int| 0 <= x < roots@.len() ==> roots@[x] < n,
            forall|x: int| 0 <= x < r ==> marks@[roots@[x] as int],
            marking(g@, roots@, marks@, stack@, -1),
            forall|i: int| 0 <= i < n && marks@[i] ==> stack@.contains(i as usize),
        decreases roots@.len() - r,
    {
        let root = roots[r];
        if !marks[root] {
            let ghost old_marks = marks@;
            let ghost old_stack = stack@;
            marks.set(root, true);
            stack.push(root);
            proof {
                lemma_connects_self(g@, root as int);
                assert(connects(g@, roots@[r as int] as int, root as int, seq![root as int]));
                lemma_mark_keeps(g@, roots@, old_marks, old_stack, -1, root);
                assert forall|i: int| 0 <= i < n && marks@[i] implies stack@.contains(
                    i as usize,
                ) by {
                    if i == root {
                        assert(stack@[old_stack.len() as int] == root);
                    } else {
                        let s = choose|s: int|
                            0 <= s < old_stack.len() && old_stack[s] == i as usize;
                        assert(stack@[s] == i as usize);
                    }
                }
            }
        }
        r = r + 1;
    }
    while stack.len() > 0
        invariant
            n == g@.len(),
            graph_wf(g@),
            forall|x: int| 0 <= x < roots@.len() ==> roots@[x] < n && marks@[roots@[x] as int],
            marking(g@, roots@, marks@, stack@, -1),
        decreases 2 * (n - count_true(marks@)) + stack@.len(),
    {
        let ghost measure = 2 * (n - count_true(marks@)) + stack@.len();
        let ghost prev_stack = stack@;
        let u = stack.pop().unwrap();
        proof {
            assert(u == prev_stack[prev_stack.len() - 1]);
            assert forall|i: int, j: int|
                0 <= i < n && i != u && marks@[i] && 0 <= j < g@[i]@.len() implies marks@[#[trigger] g@[i]@[j] as int]
                || stack@.contains(i as usize) by {
                if !marks@[g@[i]@[j] as int] {
                    assert(prev_stack.contains(i as usize));
                    let s = choose|s: int|
                        0 <= s < prev_stack.len() && prev_stack[s] == i as usize;
                    assert(stack@[s] == i as usize);
                }
            }
            assert forall|s: int| 0 <= s < stack@.len() implies #[trigger] stack@[s] < n
                && marks@[stack@[s] as int] by {
                assert(stack@[s] == prev_stack[s]);
            }
        }
        let mut k: usize = 0;
        while k < g[u].len()
            invariant
                n == g@.len(),
                graph_wf(g@),
                u < n,
                marks@[u as int],
                k <= g@[u as int]@.len(),
                forall|x: int| 0 <= x < roots@.len() ==> roots@[x] < n && marks@[roots@[x] as int],
                marking(g@, roots@, marks@, stack@, u as int),
                forall|j: int| 0 <= j < k ==> marks@[#[trigger] g@[u as int]@[j] as int],
                2 * (n - count_true(marks@)) + stack@.len() < measure,
            decreases g@[u as int]@.len() - k,
        {
            let v = g[u][k];
            if !marks[v] {
                let ghost old_marks = marks@;
                let ghost old_stack = stack@;
                marks.set(v, true);
                stack.push(v);
                proof {
                    assert(reachable(g@, roots@, v as int)) by {
                        let (r0, p) = choose|r0: int, p: Seq<int>|
                            0 <= r0 < roots@.len() && #[trigger] connects(
                                g@,
                                roots@[r0] as int,
                                u as int,
                                p,
                            );
                        assert(g@[u as int]@[k as int] == v);
                        lemma_connects_extend(g@, roots@[r0] as int, u as int, v as int, p);
                    }
                    lemma_mark_keeps(g@, roots@, old_marks, old_stack, u as int, v);
                }
            }
            k = k + 1;
        }
    }
    proof {
        assert forall|i: int| 0 <= i < g@.len() implies marks@[i] == reachable(g@, roots@, i) by {
            if reachable(g@, roots@, i) {
                let (r0, p) = choose|r0: int, p: Seq<int>|
                    0 <= r0 < roots@.len() && #[trigger] connects(g@, roots@[r0] as int, i, p);
                lemma_closed_holds_walk(g@, marks@, p, p.len() - 1);
            }
        }
    }
    marks
}

} // verus!
