//! Reconciling declared dependencies with a lockfile: which dependencies
//! have to be installed, and which installed packages have to go. Nothing is
//! installed or removed here.

use crate::closure::{connects, graph_wf, has_edge, mark_reachable, reachable};
use crate::lock::{entries_view, lemma_get_at, lemma_position_unique, LocalPackageLock, LockView};
use crate::lockfile::{
    constraint_matches, ids_view, LocalPackage, LocalPackageView, LuaDependencySpec,
    LuaDependencySpecView,
};
use crate::query::{last_equally_constrained, packages_view};
use vstd::prelude::*;

verus! {

/// What a sync has to do: the dependencies to install and the packages to
/// remove.
#[derive(Debug, PartialEq, Eq)]
pub struct PackageSyncSpec {
    pub to_add: Vec<LuaDependencySpec>,
    pub to_remove: Vec<LocalPackage>,
}

/// The views of a sequence of declared dependencies.
pub open spec fn deps_view(deps: Seq<LuaDependencySpec>) -> Seq<LuaDependencySpecView> {
    deps.map_values(|d: LuaDependencySpec| d@)
}

/// Whether the package `p` was installed under a constraint that equals the
/// requirement of one of the declared dependencies.
pub open spec fn is_declared(declared: Seq<LuaDependencySpecView>, p: LocalPackageView) -> bool {
    exists|k: int|
        0 <= k < declared.len() && constraint_matches(
            p.spec.lock_constraint(),
            (#[trigger] declared[k]).package_req.version_req,
        )
}

/// Whether `id` is an entrypoint that stays: it is an entrypoint, and its
/// package was installed under a constraint that is still declared.
pub open spec fn keeps_entrypoint(
    lock: LockView,
    declared: Seq<LuaDependencySpecView>,
    id: Seq<char>,
) -> bool {
    lock.is_entrypoint(id) && lock.has(id) && is_declared(declared, lock.get(id)->0)
}

/// Whether the package kept under `a` names `b`, the identifier of a package
/// of the lockfile, among its direct dependencies.
pub open spec fn depends_on(lock: LockView, a: Seq<char>, b: Seq<char>) -> bool {
    lock.has(a) && lock.has(b) && lock.get(a)->0.spec.dependencies.contains(b)
}

/// Whether `walk` leads from package to package of the lockfile, each one a
/// direct dependency of the one before.
pub open spec fn dependency_walk(lock: LockView, walk: Seq<Seq<char>>) -> bool {
    &&& walk.len() > 0
    &&& lock.has(walk[0])
    &&& forall|i: int| 0 <= i < walk.len() - 1 ==> depends_on(lock, #[trigger] walk[i], walk[i + 1])
}

/// Whether `walk` shows that `id` stays: it starts at an entrypoint that
/// stays and leads to `id`.
pub open spec fn keeps_by(
    lock: LockView,
    declared: Seq<LuaDependencySpecView>,
    id: Seq<char>,
    walk: Seq<Seq<char>>,
) -> bool {
    dependency_walk(lock, walk) && keeps_entrypoint(lock, declared, walk[0]) && walk.last() == id
}

/// Whether the package kept under `id` stays: it is an entrypoint that
/// stays, or one of them depends on it, directly or through other packages.
pub open spec fn is_kept(lock: LockView, declared: Seq<LuaDependencySpecView>, id: Seq<char>)
    -> bool {
    exists|walk: Seq<Seq<char>>| #[trigger] keeps_by(lock, declared, id, walk)
}

/// The packages to remove among the first `n` of the lockfile: those that do
/// not stay, in the order of the lockfile.
pub open spec fn removed_upto(lock: LockView, declared: Seq<LuaDependencySpecView>, n: nat) -> Seq<
    LocalPackageView,
>
    decreases n,
{
    if n == 0 || n > lock.rocks.len() {
        Seq::<LocalPackageView>::empty()
    } else if is_kept(lock, declared, lock.rocks[n - 1].0) {
        removed_upto(lock, declared, (n - 1) as nat)
    } else {
        removed_upto(lock, declared, (n - 1) as nat).push(lock.rocks[n - 1].1)
    }
}

/// The packages to remove: all installed packages that do not stay.
pub open spec fn to_remove_spec(lock: LockView, declared: Seq<LuaDependencySpecView>) -> Seq<
    LocalPackageView,
> {
    removed_upto(lock, declared, lock.rocks.len())
}

/// The dependencies to install among the first `n` declared ones: those for
/// which the lockfile holds no package of their name under an equal
/// constraint, in the order in which they are declared.
pub open spec fn added_upto(lock: LockView, declared: Seq<LuaDependencySpecView>, n: nat) -> Seq<
    LuaDependencySpecView,
>
    decreases n,
{
    if n == 0 || n > declared.len() {
        Seq::<LuaDependencySpecView>::empty()
    } else if last_equally_constrained(lock.rocks, declared[n - 1]) is Some {
        added_upto(lock, declared, (n - 1) as nat)
    } else {
        added_upto(lock, declared, (n - 1) as nat).push(declared[n - 1])
    }
}

/// The dependencies to install.
pub open spec fn to_add_spec(lock: LockView, declared: Seq<LuaDependencySpecView>) -> Seq<
    LuaDependencySpecView,
> {
    added_upto(lock, declared, declared.len())
}

/// Whether the graph `g` is the graph of the dependencies of the lockfile:
/// its nodes are the places of the packages, and it has an edge from one
/// place to another exactly where the package at the one names the
/// identifier at the other among its direct dependencies.
pub open spec fn graph_matches(lock: LockView, g: Seq<Vec<usize>>) -> bool {
    &&& g.len() == lock.rocks.len()
    &&& graph_wf(g)
    &&& forall|a: int, b: int|
        0 <= a < g.len() && 0 <= b < g.len() ==> (#[trigger] has_edge(g, a, b)
            <==> lock.rocks[a].1.spec.dependencies.contains(lock.rocks[b].0))
}

/// Whether the package at the place `i` is an entrypoint that stays.
pub open spec fn keeps_place(lock: LockView, declared: Seq<LuaDependencySpecView>, i: int) -> bool {
    keeps_entrypoint(lock, declared, lock.rocks[i].0)
}

/// Whether `roots` are the places of the entrypoints that stay.
#[verifier::opaque]
pub open spec fn roots_match(
    lock: LockView,
    declared: Seq<LuaDependencySpecView>,
    roots: Seq<usize>,
) -> bool {
    &&& forall|r: int|
        0 <= r < roots.len() ==> #[trigger] roots[r] < lock.rocks.len() && keeps_entrypoint(
            lock,
            declared,
            lock.rocks[roots[r] as int].0,
        )
    &&& forall|i: int|
        0 <= i < lock.rocks.len() && #[trigger] keeps_place(lock, declared, i) ==> roots.contains(
            i as usize,
        )
}

/// A root is the place of an entrypoint that stays.
proof fn lemma_root_keeps(
    lock: LockView,
    declared: Seq<LuaDependencySpecView>,
    roots: Seq<usize>,
    r: int,
)
    requires
        roots_match(lock, declared, roots),
        0 <= r < roots.len(),
    ensures
        roots[r] < lock.rocks.len(),
        keeps_entrypoint(lock, declared, lock.rocks[roots[r] as int].0),
{
    reveal(roots_match);
}

/// The place of an entrypoint that stays is a root.
proof fn lemma_keeper_is_root(
    lock: LockView,
    declared: Seq<LuaDependencySpecView>,
    roots: Seq<usize>,
    i: int,
)
    requires
        roots_match(lock, declared, roots),
        0 <= i < lock.rocks.len() <= usize::MAX,
        keeps_entrypoint(lock, declared, lock.rocks[i].0),
    ensures
        exists|r: int| 0 <= r < roots.len() && roots[r] == i,
{
    reveal(roots_match);
    assert(keeps_place(lock, declared, i));
    assert(roots.contains(i as usize));
    let r = choose|r: int| 0 <= r < roots.len() && roots[r] == i as usize;
    assert(roots[r] == i);
}

/// Every place on a walk through the graph of a lockfile is a place of the
/// lockfile.
proof fn lemma_walk_in_range(g: Seq<Vec<usize>>, from: int, to: int, p: Seq<int>, i: int)
    requires
        graph_wf(g),
        connects(g, from, to, p),
        0 <= i < p.len(),
    ensures
        0 <= p[i] < g.len(),
    decreases i,
{
    if i > 0 {
        lemma_walk_in_range(g, from, to, p, i - 1);
        assert(has_edge(g, p[i - 1], p[i - 1 + 1]));
    }
}

/// A walk through the graph of a lockfile is a walk from package to
/// dependency.
proof fn lemma_walk_to_ids(lock: LockView, g: Seq<Vec<usize>>, from: int, to: int, p: Seq<int>)
    requires
        lock.sorted(),
        graph_matches(lock, g),
        connects(g, from, to, p),
    ensures
        dependency_walk(lock, Seq::new(p.len(), |i: int| lock.rocks[p[i]].0)),
        0 <= to < g.len(),
{
    let walk = Seq::new(p.len(), |i: int| lock.rocks[p[i]].0);
    lemma_walk_in_range(g, from, to, p, 0);
    lemma_walk_in_range(g, from, to, p, p.len() - 1);
    lemma_get_at(lock, p[0]);
    assert forall|i: int| 0 <= i < walk.len() - 1 implies depends_on(
        lock,
        #[trigger] walk[i],
        walk[i + 1],
    ) by {
        lemma_walk_in_range(g, from, to, p, i);
        lemma_walk_in_range(g, from, to, p, i + 1);
        assert(has_edge(g, p[i], p[i + 1]));
        lemma_get_at(lock, p[i]);
        lemma_get_at(lock, p[i + 1]);
    }
}

/// A walk from package to dependency is a walk through the graph of the
/// lockfile.
proof fn lemma_ids_to_walk(lock: LockView, g: Seq<Vec<usize>>, walk: Seq<Seq<char>>)
    requires
        lock.sorted(),
        graph_matches(lock, g),
        dependency_walk(lock, walk),
    ensures
        connects(
            g,
            lock.position(walk[0]),
            lock.position(walk.last()),
            Seq::new(walk.len(), |i: int| lock.position(walk[i])),
        ),
{
    let p = Seq::new(walk.len(), |i: int| lock.position(walk[i]));
    assert forall|i: int| 0 <= i < walk.len() implies lock.has(#[trigger] walk[i]) by {
        if i > 0 {
            assert(depends_on(lock, walk[i - 1], walk[i - 1 + 1]));
        }
    }
    assert forall|i: int| 0 <= i < p.len() - 1 implies has_edge(g, #[trigger] p[i], p[i + 1]) by {
        assert(depends_on(lock, walk[i], walk[i + 1]));
        assert(lock.has(walk[i]));
        assert(lock.has(walk[i + 1]));
        let a = lock.position(walk[i]);
        let b = lock.position(walk[i + 1]);
        lemma_get_at(lock, a);
        lemma_get_at(lock, b);
        assert(has_edge(g, a, b) <==> lock.rocks[a].1.spec.dependencies.contains(lock.rocks[b].0));
    }
    assert(lock.has(walk[0]));
}

/// A place that is reached in the graph of a lockfile from the place of an
/// entrypoint that stays holds a package that stays.
proof fn lemma_reached_is_kept(
    lock: LockView,
    declared: Seq<LuaDependencySpecView>,
    g: Seq<Vec<usize>>,
    root: int,
    i: int,
    p: Seq<int>,
)
    requires
        lock.sorted(),
        graph_matches(lock, g),
        0 <= root < lock.rocks.len(),
        keeps_entrypoint(lock, declared, lock.rocks[root].0),
        connects(g, root, i, p),
    ensures
        0 <= i < lock.rocks.len(),
        is_kept(lock, declared, lock.rocks[i].0),
{
    lemma_walk_to_ids(lock, g, root, i, p);
    let walk = Seq::new(p.len(), |k: int| lock.rocks[p[k]].0);
    assert(walk[0] == lock.rocks[root].0);
    assert(walk.last() == lock.rocks[i].0);
    assert(keeps_by(lock, declared, lock.rocks[i].0, walk));
}

/// The place of a package that stays is reached, in the graph of the
/// lockfile, from the place of the entrypoint at which the walk starts that
/// shows that it stays.
proof fn lemma_kept_is_walked(
    lock: LockView,
    declared: Seq<LuaDependencySpecView>,
    g: Seq<Vec<usize>>,
    i: int,
    walk: Seq<Seq<char>>,
)
    requires
        lock.sorted(),
        graph_matches(lock, g),
        0 <= i < lock.rocks.len(),
        keeps_by(lock, declared, lock.rocks[i].0, walk),
    ensures
        0 <= lock.position(walk[0]) < lock.rocks.len(),
        lock.rocks[lock.position(walk[0])].0 == walk[0],
        connects(
            g,
            lock.position(walk[0]),
            i,
            Seq::new(walk.len(), |k: int| lock.position(walk[k])),
        ),
{
    lemma_ids_to_walk(lock, g, walk);
    assert(lock.has(walk[0]));
    lemma_get_at(lock, i);
}

/// In the graph of a lockfile a place is reached from the places of the
/// entrypoints that stay exactly where its package stays.
pub proof fn lemma_marks_are_kept(
    lock: LockView,
    declared: Seq<LuaDependencySpecView>,
    g: Seq<Vec<usize>>,
    roots: Seq<usize>,
    i: int,
)
    requires
        lock.sorted(),
        graph_matches(lock, g),
        roots_match(lock, declared, roots),
        0 <= i < lock.rocks.len() <= usize::MAX,
    ensures
        reachable(g, roots, i) == is_kept(lock, declared, lock.rocks[i].0),
{
    let id = lock.rocks[i].0;
    if reachable(g, roots, i) {
        let (r, p) = choose|r: int, p: Seq<int>|
            0 <= r < roots.len() && #[trigger] connects(g, roots[r] as int, i, p);
        lemma_root_keeps(lock, declared, roots, r);
        lemma_reached_is_kept(lock, declared, g, roots[r] as int, i, p);
    }
    if is_kept(lock, declared, id) {
        let walk = choose|walk: Seq<Seq<char>>| #[trigger] keeps_by(lock, declared, id, walk);
        lemma_kept_is_walked(lock, declared, g, i, walk);
        let start = lock.position(walk[0]);
        lemma_keeper_is_root(lock, declared, roots, start);
        let r = choose|r: int| 0 <= r < roots.len() && roots[r] == start;
        let p = Seq::new(walk.len(), |k: int| lock.position(walk[k]));
        assert(connects(g, roots[r] as int, i, p));
    }
}

/// Whether the `j`-th of the identifiers `wanted` is the one at the place
/// `b` of the lockfile.
pub open spec fn names_place(lock: LockView, wanted: Seq<Seq<char>>, j: int, b: int) -> bool {
    wanted[j] == lock.rocks[b].0
}

/// Whether the edges `row` are those of the place `a`: they lead to places
/// of the lockfile, and to a place exactly where the package at `a` names
/// the identifier at that place among its direct dependencies.
pub open spec fn row_matches(lock: LockView, a: int, row: Seq<usize>) -> bool {
    &&& forall|x: int| 0 <= x < row.len() ==> #[trigger] row[x] < lock.rocks.len()
    &&& forall|b: int|
        0 <= b < lock.rocks.len() ==> (row.contains(b as usize) <==> lock.rocks[a].1.spec.dependencies.contains(
            (#[trigger] lock.rocks[b]).0,
        ))
}

/// A graph whose rows are the edges of the places of a lockfile is the graph
/// of its dependencies.
proof fn lemma_rows_make_graph(lock: LockView, g: Seq<Vec<usize>>)
    requires
        g.len() == lock.rocks.len(),
        lock.rocks.len() <= usize::MAX,
        forall|a: int| 0 <= a < g.len() ==> row_matches(lock, a, (#[trigger] g[a])@),
    ensures
        graph_matches(lock, g),
{
    assert forall|i: int, k: int| 0 <= i < g.len() && 0 <= k < g[i]@.len() implies #[trigger] g[i]@[k]
        < g.len() by {
        assert(row_matches(lock, i, g[i]@));
    }
    assert forall|a: int, b: int| 0 <= a < g.len() && 0 <= b < g.len() implies (#[trigger] has_edge(
        g,
        a,
        b,
    ) <==> lock.rocks[a].1.spec.dependencies.contains(lock.rocks[b].0)) by {
        assert(row_matches(lock, a, g[a]@));
        let row = g[a]@;
        if has_edge(g, a, b) {
            let k = choose|k: int| 0 <= k < g[a]@.len() && #[trigger] g[a]@[k] == b;
            assert(row[k] == b as usize);
            assert(row.contains(b as usize));
        }
        if lock.rocks[a].1.spec.dependencies.contains(lock.rocks[b].0) {
            assert(row.contains(b as usize));
            let k = choose|k: int| 0 <= k < row.len() && row[k] == b as usize;
            assert(g[a]@[k] == b);
        }
    }
}

/// Whether `p` was installed under a constraint that equals the requirement
/// of one of `packages`.
fn declared_matches(p: &LocalPackage, packages: &[LuaDependencySpec]) -> (r: bool)
    ensures
        r == is_declared(deps_view(packages@), p@),
{
    let constraint = p.constraint();
    let mut k: usize = 0;
    while k < packages.len()
        invariant
            k <= packages.len(),
            constraint@ == p@.spec.lock_constraint(),
            forall|j: int|
                0 <= j < k ==> !constraint_matches(
                    p@.spec.lock_constraint(),
                    (#[trigger] deps_view(packages@)[j]).package_req.version_req,
                ),
        decreases packages.len() - k,
    {
        proof {
            assert(deps_view(packages@)[k as int] == packages@[k as int]@);
        }
        if constraint.matches_version_req(packages[k].version_req()) {
            return true;
        }
        k = k + 1;
    }
    false
}

impl LocalPackageLock {
    /// The places of the entrypoints that stay when `packages` are the
    /// declared dependencies.
    fn kept_roots(&self, packages: &[LuaDependencySpec]) -> (roots: Vec<usize>)
        requires
            self@.wf(),
        ensures
            roots_match(self@, deps_view(packages@), roots@),
    {
        let rocks = self.rocks();
        let entrypoints = self.entrypoints();
        let ghost declared = deps_view(packages@);
        let mut roots: Vec<usize> = Vec::new();
        let mut e: usize = 0;
        while e < entrypoints.len()
            invariant
                e <= entrypoints.len(),
                self@.wf(),
                declared == deps_view(packages@),
                entries_view(rocks@) == self@.rocks,
                ids_view(entrypoints@) == self@.entrypoints,
                forall|r: int|
                    0 <= r < roots@.len() ==> #[trigger] roots@[r] < self@.rocks.len()
                        && keeps_entrypoint(self@, declared, self@.rocks[roots@[r] as int].0),
                forall|x: int|
                    0 <= x < e && keeps_entrypoint(self@, declared, #[trigger] self@.entrypoints[x])
                        ==> roots@.contains(self@.position(self@.entrypoints[x]) as usize),
            decreases entrypoints.len() - e,
        {
            proof {
                assert(self@.entrypoints[e as int] == entrypoints@[e as int]@);
                assert(self@.has(self@.entrypoints[e as int]));
            }
            match self.position_of(&entrypoints[e]) {
                Some(i) => {
                    proof {
                        assert(self@.rocks[i as int].1 == rocks@[i as int].package@);
                        lemma_get_at(self@, i as int);
                        assert(self@.entrypoints.contains(self@.entrypoints[e as int]));
                    }
                    if declared_matches(&rocks[i].package, packages) {
                        let ghost before = roots@;
                        roots.push(i);
                        proof {
                            assert(roots@[before.len() as int] == i);
                            assert forall|x: int|
                                0 <= x < e + 1 && keeps_entrypoint(
                                    self@,
                                    declared,
                                    #[trigger] self@.entrypoints[x],
                                ) implies roots@.contains(
                                self@.position(self@.entrypoints[x]) as usize,
                            ) by {
                                if x < e {
                                    let w = choose|w: int|
                                        0 <= w < before.len() && before[w] == self@.position(
                                            self@.entrypoints[x],
                                        ) as usize;
                                    assert(roots@[w] == before[w]);
                                }
                            }
                        }
                    }
                },
                None => {},
            }
            e = e + 1;
        }
        proof {
            reveal(roots_match);
            assert forall|i: int|
                0 <= i < self@.rocks.len() && #[trigger] keeps_place(
                    self@,
                    declared,
                    i,
                ) implies roots@.contains(i as usize) by {
                let id = self@.rocks[i].0;
                lemma_get_at(self@, i);
                let x = choose|x: int|
                    0 <= x < self@.entrypoints.len() && self@.entrypoints[x] == id;
                assert(keeps_entrypoint(self@, declared, self@.entrypoints[x]));
            }
        }
        roots
    }

    /// The places to which the dependencies of the package at the place `a`
    /// lead.
    fn dependency_row(&self, a: usize) -> (row: Vec<usize>)
        requires
            self@.sorted(),
            a < self@.rocks.len(),
        ensures
            row_matches(self@, a as int, row@),
    {
        let rocks = self.rocks();
        let n = rocks.len();
        let deps = rocks[a].package.dependencies();
        proof {
            assert(self@.rocks[a as int].1 == rocks@[a as int].package@);
        }
        let ghost wanted = self@.rocks[a as int].1.spec.dependencies;
        let mut row: Vec<usize> = Vec::new();
        let mut k: usize = 0;
        while k < deps.len()
            invariant
                k <= deps.len(),
                self@.sorted(),
                ids_view(deps@) == wanted,
                wanted == self@.rocks[a as int].1.spec.dependencies,
                forall|x: int|
                    0 <= x < row@.len() ==> #[trigger] row@[x] < self@.rocks.len()
                        && wanted.contains(self@.rocks[row@[x] as int].0),
                forall|j: int, b: int|
                    0 <= j < k && 0 <= b < self@.rocks.len() && #[trigger] names_place(
                        self@,
                        wanted,
                        j,
                        b,
                    ) ==> row@.contains(b as usize),
            decreases deps.len() - k,
        {
            proof {
                assert(wanted[k as int] == deps@[k as int]@);
            }
            match self.position_of(&deps[k]) {
                Some(b) => {
                    let ghost before = row@;
                    row.push(b);
                    proof {
                        assert(row@[before.len() as int] == b);
                        assert(wanted.contains(wanted[k as int]));
                        assert forall|j: int, c: int|
                            0 <= j < k + 1 && 0 <= c < self@.rocks.len() && #[trigger] names_place(
                                self@,
                                wanted,
                                j,
                                c,
                            ) implies row@.contains(c as usize) by {
                            if j < k {
                                assert(before.contains(c as usize));
                                let w = choose|w: int| 0 <= w < before.len() && before[w] == c as usize;
                                assert(row@[w] == c as usize);
                            } else {
                                lemma_position_unique(self@, c, b as int);
                            }
                        }
                    }
                },
                None => {},
            }
            k = k + 1;
        }
        proof {
            assert(self@.rocks.len() == n);
            assert forall|b: int| 0 <= b < self@.rocks.len() implies (row@.contains(b as usize)
                <==> wanted.contains((#[trigger] self@.rocks[b]).0)) by {
                if row@.contains(b as usize) {
                    let x = choose|x: int| 0 <= x < row@.len() && row@[x] == b as usize;
                    assert(wanted.contains(self@.rocks[row@[x] as int].0));
                    assert(row@[x] as int == b);
                    assert(wanted.contains(self@.rocks[b].0));
                }
                if wanted.contains(self@.rocks[b].0) {
                    let j = choose|j: int| 0 <= j < wanted.len() && wanted[j] == self@.rocks[b].0;
                    assert(k == deps@.len());
                    assert(wanted.len() == deps@.len());
                    assert(names_place(self@, wanted, j, b));
                    assert(row@.contains(b as usize));
                }
            }
        }
        row
    }

    /// The graph of the dependencies of the lockfile.
    fn dependency_graph(&self) -> (g: Vec<Vec<usize>>)
        requires
            self@.sorted(),
        ensures
            graph_matches(self@, g@),
    {
        let n = self.len();
        let mut g: Vec<Vec<usize>> = Vec::new();
        let mut a: usize = 0;
        while a < n
            invariant
                a <= n,
                n == self@.rocks.len(),
                self@.sorted(),
                g@.len() == a,
                forall|x: int| 0 <= x < a ==> row_matches(self@, x, (#[trigger] g@[x])@),
            decreases n - a,
        {
            let row = self.dependency_row(a);
            g.push(row);
            a = a + 1;
        }
        proof {
            lemma_rows_make_graph(self@, g@);
        }
        g
    }

    /// What a sync with the declared dependencies `packages` has to do.
    /// The entrypoints that stay are those whose package was installed
    /// under a constraint equal to the requirement of a declared dependency;
    /// the packages that stay are these and whatever they depend on,
    /// directly or not. Every other installed package is to be removed, and
    /// every declared dependency of which no package is installed under an
    /// equal constraint is to be installed. The packages are installed by
    /// the caller, since a package has to be installed before it is recorded.
    pub fn package_sync_spec(&self, packages: &[LuaDependencySpec]) -> (r: PackageSyncSpec)
        requires
            self@.wf(),
        ensures
            deps_view(r.to_add@) == to_add_spec(self@, deps_view(packages@)),
            packages_view(r.to_remove@) == to_remove_spec(self@, deps_view(packages@)),
    {
        let ghost declared = deps_view(packages@);
        let roots = self.kept_roots(packages);
        let g = self.dependency_graph();
        proof {
            assert forall|r: int| 0 <= r < roots@.len() implies roots@[r] < g@.len() by {
                lemma_root_keeps(self@, declared, roots@, r);
            }
        }
        let marks = mark_reachable(&g, &roots);
        let mut to_add: Vec<LuaDependencySpec> = Vec::new();
        let mut k: usize = 0;
        while k < packages.len()
            invariant
                k <= packages.len(),
                declared == deps_view(packages@),
                deps_view(to_add@) == added_upto(self@, declared, k as nat),
            decreases packages.len() - k,
        {
            proof {
                assert(declared[k as int] == packages@[k as int]@);
            }
            if self.has_rock_with_equal_constraint(&packages[k]).is_none() {
                let ghost before = to_add@;
                let d = packages[k].clone();
                to_add.push(d);
                proof {
                    assert(deps_view(before.push(d)) =~= deps_view(before).push(d@));
                }
            }
            k = k + 1;
        }
        let rocks = self.rocks();
        let mut to_remove: Vec<LocalPackage> = Vec::new();
        let mut i: usize = 0;
        while i < rocks.len()
            invariant
                i <= rocks.len(),
                self@.wf(),
                entries_view(rocks@) == self@.rocks,
                marks@.len() == rocks@.len(),
                graph_matches(self@, g@),
                roots_match(self@, declared, roots@),
                forall|x: int| 0 <= x < g@.len() ==> marks@[x] == reachable(g@, roots@, x),
                packages_view(to_remove@) == removed_upto(self@, declared, i as nat),
            decreases rocks.len() - i,
        {
            proof {
                lemma_marks_are_kept(self@, declared, g@, roots@, i as int);
                assert(self@.rocks[i as int].1 == rocks@[i as int].package@);
            }
            if !marks[i] {
                let ghost before = to_remove@;
                let p = rocks[i].package.clone();
                to_remove.push(p);
                proof {
                    assert(packages_view(before.push(p)) =~= packages_view(before).push(p@));
                }
            }
            i = i + 1;
        }
        PackageSyncSpec { to_add, to_remove }
    }
}

/// What stays holds what it depends on: a package of the lockfile that a
/// package that stays names among its direct dependencies stays too, so
/// that a sync takes away no package that one that stays depends on.
pub proof fn lemma_kept_holds_its_dependencies(
    lock: LockView,
    declared: Seq<LuaDependencySpecView>,
    x: Seq<char>,
    d: Seq<char>,
)
    requires
        is_kept(lock, declared, x),
        depends_on(lock, x, d),
    ensures
        is_kept(lock, declared, d),
{
    let walk = choose|walk: Seq<Seq<char>>| #[trigger] keeps_by(lock, declared, x, walk);
    let longer = walk.push(d);
    assert(longer[0] == walk[0]);
    assert forall|i: int| 0 <= i < longer.len() - 1 implies depends_on(
        lock,
        #[trigger] longer[i],
        longer[i + 1],
    ) by {
        if i < walk.len() - 1 {
            assert(depends_on(lock, walk[i], walk[i + 1]));
        } else {
            assert(longer[i] == walk.last());
        }
    }
    assert(keeps_by(lock, declared, d, longer));
}

/// A package stays only for one of two reasons: it is an entrypoint that
/// stays, or a package that stays names it among its direct dependencies.
pub proof fn lemma_kept_has_a_reason(lock: LockView, declared: Seq<LuaDependencySpecView>, id: Seq<char>)
    requires
        is_kept(lock, declared, id),
    ensures
        keeps_entrypoint(lock, declared, id) || exists|x: Seq<char>|
            is_kept(lock, declared, x) && #[trigger] depends_on(lock, x, id),
{
    let walk = choose|walk: Seq<Seq<char>>| #[trigger] keeps_by(lock, declared, id, walk);
    if walk.len() > 1 {
        let shorter = walk.drop_last();
        let x = shorter.last();
        assert(shorter[0] == walk[0]);
        assert forall|i: int| 0 <= i < shorter.len() - 1 implies depends_on(
            lock,
            #[trigger] shorter[i],
            shorter[i + 1],
        ) by {
            assert(depends_on(lock, walk[i], walk[i + 1]));
        }
        assert(keeps_by(lock, declared, x, shorter));
        assert(depends_on(lock, walk[walk.len() - 2], walk[walk.len() - 2 + 1]));
        assert(depends_on(lock, x, id));
    }
}

/// An installed package that is no entrypoint that stays, and that no
/// package that stays depends on, is removed: so is an entrypoint that was
/// installed under a constraint that is no longer declared, unless a
/// package that stays needs it.
pub proof fn lemma_without_reason_is_removed(
    lock: LockView,
    declared: Seq<LuaDependencySpecView>,
    i: int,
)
    requires
        0 <= i < lock.rocks.len(),
        !keeps_entrypoint(lock, declared, lock.rocks[i].0),
        forall|x: Seq<char>|
            is_kept(lock, declared, x) ==> !#[trigger] depends_on(lock, x, lock.rocks[i].0),
    ensures
        to_remove_spec(lock, declared).contains(lock.rocks[i].1),
{
    if is_kept(lock, declared, lock.rocks[i].0) {
        lemma_kept_has_a_reason(lock, declared, lock.rocks[i].0);
    }
    lemma_unkept_are_removed(lock, declared, lock.rocks.len(), i);
}

/// Where no entrypoint stays, no package stays.
pub proof fn lemma_no_entrypoint_keeps_nothing(
    lock: LockView,
    declared: Seq<LuaDependencySpecView>,
    id: Seq<char>,
)
    requires
        forall|e: Seq<char>| !#[trigger] keeps_entrypoint(lock, declared, e),
    ensures
        !is_kept(lock, declared, id),
{
    if is_kept(lock, declared, id) {
        let walk = choose|walk: Seq<Seq<char>>| #[trigger] keeps_by(lock, declared, id, walk);
        assert(keeps_entrypoint(lock, declared, walk[0]));
    }
}

/// A package that stays is not among the packages to remove.
pub proof fn lemma_kept_are_not_removed(
    lock: LockView,
    declared: Seq<LuaDependencySpecView>,
    i: int,
)
    requires
        lock.wf(),
        0 <= i < lock.rocks.len(),
        is_kept(lock, declared, lock.rocks[i].0),
    ensures
        !to_remove_spec(lock, declared).contains(lock.rocks[i].1),
{
    let removed = to_remove_spec(lock, declared);
    if removed.contains(lock.rocks[i].1) {
        let k = choose|k: int| 0 <= k < removed.len() && removed[k] == lock.rocks[i].1;
        lemma_removed_are_not_kept(lock, declared, lock.rocks.len(), k);
        let j = choose|j: int|
            0 <= j < lock.rocks.len() && !is_kept(lock, declared, (#[trigger] lock.rocks[j]).0)
                && lock.rocks[j].1 == removed[k];
        assert(lock.rocks[j].0 == lock.rocks[j].1.spec.id());
        assert(lock.rocks[i].0 == lock.rocks[i].1.spec.id());
    }
}

/// A declared dependency for which no package of its name is installed
/// under an equal constraint is among the dependencies to install.
pub proof fn lemma_absent_is_added(
    lock: LockView,
    declared: Seq<LuaDependencySpecView>,
    n: nat,
    i: int,
)
    requires
        0 <= i < n <= declared.len(),
        last_equally_constrained(lock.rocks, declared[i]) is None,
    ensures
        added_upto(lock, declared, n).contains(declared[i]),
    decreases n,
{
    let upto = added_upto(lock, declared, n);
    if i == n - 1 {
        assert(upto.last() == declared[i]);
    } else {
        lemma_absent_is_added(lock, declared, (n - 1) as nat, i);
        let before = added_upto(lock, declared, (n - 1) as nat);
        let k = choose|k: int| 0 <= k < before.len() && before[k] == declared[i];
        assert(upto[k] == declared[i]);
    }
}

/// Where nothing is declared, no package stays.
pub proof fn lemma_nothing_declared_keeps_nothing(lock: LockView, id: Seq<char>)
    ensures
        !is_kept(lock, Seq::<LuaDependencySpecView>::empty(), id),
{
    let declared = Seq::<LuaDependencySpecView>::empty();
    if is_kept(lock, declared, id) {
        let walk = choose|walk: Seq<Seq<char>>| #[trigger] keeps_by(lock, declared, id, walk);
        assert(keeps_entrypoint(lock, declared, walk[0]));
        assert(false);
    }
}

/// A sync against no declared dependency installs nothing and removes
/// every installed package.
pub proof fn lemma_empty_sync_removes_all(lock: LockView, n: nat)
    requires
        n <= lock.rocks.len(),
    ensures
        to_add_spec(lock, Seq::<LuaDependencySpecView>::empty()).len() == 0,
        removed_upto(lock, Seq::<LuaDependencySpecView>::empty(), n) == lock.rocks.take(
            n as int,
        ).map_values(|e: (Seq<char>, LocalPackageView)| e.1),
    decreases n,
{
    let declared = Seq::<LuaDependencySpecView>::empty();
    if n > 0 {
        lemma_empty_sync_removes_all(lock, (n - 1) as nat);
        lemma_nothing_declared_keeps_nothing(lock, lock.rocks[n - 1].0);
        assert(lock.rocks.take(n as int - 1).map_values(|e: (Seq<char>, LocalPackageView)| e.1).push(
            lock.rocks[n - 1].1,
        ) =~= lock.rocks.take(n as int).map_values(|e: (Seq<char>, LocalPackageView)| e.1));
    } else {
        assert(lock.rocks.take(0).map_values(|e: (Seq<char>, LocalPackageView)| e.1)
            =~= Seq::<LocalPackageView>::empty());
    }
}

/// Every installed package either stays or is removed, never both: the
/// packages to remove are as many as the installed packages that do not
/// stay, and each of them is an installed package that does not stay.
pub proof fn lemma_removed_are_not_kept(
    lock: LockView,
    declared: Seq<LuaDependencySpecView>,
    n: nat,
    k: int,
)
    requires
        n <= lock.rocks.len(),
        0 <= k < removed_upto(lock, declared, n).len(),
    ensures
        exists|i: int|
            0 <= i < n && !is_kept(lock, declared, (#[trigger] lock.rocks[i]).0) && lock.rocks[i].1
                == removed_upto(lock, declared, n)[k],
    decreases n,
{
    if n > 0 {
        let rest = removed_upto(lock, declared, (n - 1) as nat);
        if !is_kept(lock, declared, lock.rocks[n - 1].0) && k == rest.len() {
            assert(lock.rocks[n - 1].1 == removed_upto(lock, declared, n)[k]);
        } else {
            lemma_removed_are_not_kept(lock, declared, (n - 1) as nat, k);
        }
    }
}

/// An installed package that does not stay is among the packages to
/// remove.
pub proof fn lemma_unkept_are_removed(
    lock: LockView,
    declared: Seq<LuaDependencySpecView>,
    n: nat,
    i: int,
)
    requires
        n <= lock.rocks.len(),
        0 <= i < n,
        !is_kept(lock, declared, lock.rocks[i].0),
    ensures
        removed_upto(lock, declared, n).contains(lock.rocks[i].1),
    decreases n,
{
    let rest = removed_upto(lock, declared, (n - 1) as nat);
    if i == n - 1 {
        assert(removed_upto(lock, declared, n)[rest.len() as int] == lock.rocks[i].1);
    } else {
        lemma_unkept_are_removed(lock, declared, (n - 1) as nat, i);
        let k = choose|k: int| 0 <= k < rest.len() && rest[k] == lock.rocks[i].1;
        assert(removed_upto(lock, declared, n)[k] == lock.rocks[i].1);
    }
}

/// A package that stays is reached from an entrypoint that stays: there is
/// a walk from package to dependency that starts at such an entrypoint and
/// ends at the package.
pub proof fn lemma_kept_is_reached(lock: LockView, declared: Seq<LuaDependencySpecView>, id: Seq<
    char,
>) -> (walk: Seq<Seq<char>>)
    requires
        is_kept(lock, declared, id),
    ensures
        dependency_walk(lock, walk),
        keeps_entrypoint(lock, declared, walk[0]),
        walk.last() == id,
        lock.has(id),
{
    let walk = choose|walk: Seq<Seq<char>>| #[trigger] keeps_by(lock, declared, id, walk);
    if walk.len() > 1 {
        assert(depends_on(lock, walk[walk.len() - 2], walk[walk.len() - 2 + 1]));
    }
    walk
}

/// A declared dependency whose package is installed under an equal
/// constraint is not installed again.
pub proof fn lemma_present_is_not_added(
    lock: LockView,
    declared: Seq<LuaDependencySpecView>,
    n: nat,
    k: int,
)
    requires
        n <= declared.len(),
        0 <= k < added_upto(lock, declared, n).len(),
    ensures
        last_equally_constrained(lock.rocks, added_upto(lock, declared, n)[k]) is None,
        exists|i: int| 0 <= i < n && declared[i] == added_upto(lock, declared, n)[k],
    decreases n,
{
    if n > 0 {
        let rest = added_upto(lock, declared, (n - 1) as nat);
        if last_equally_constrained(lock.rocks, declared[n - 1]) is None && k == rest.len() {
            assert(declared[n - 1] == added_upto(lock, declared, n)[k]);
        } else {
            lemma_present_is_not_added(lock, declared, (n - 1) as nat, k);
            let i = choose|i: int| 0 <= i < n - 1 && declared[i] == rest[k];
            assert(declared[i] == added_upto(lock, declared, n)[k]);
        }
    }
}

} // verus!
