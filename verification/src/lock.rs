//! The body of a lockfile: the installed packages, kept in the order of
//! their identifiers, and the identifiers of the entrypoints.

use crate::lockfile::{ids_view, LocalPackage, LocalPackageId, LocalPackageView};
use crate::text::{lemma_lex_irreflexive, lemma_lex_total, lemma_lex_transitive, lex_less};
use vstd::prelude::*;

verus! {

/// One entry of a lockfile: a package under the identifier that it is kept
/// by.
#[derive(Debug, PartialEq, Eq, Hash)]
pub struct LockEntry {
    pub id: LocalPackageId,
    pub package: LocalPackage,
}

impl View for LockEntry {
    type V = (Seq<char>, LocalPackageView);

    open spec fn view(&self) -> (Seq<char>, LocalPackageView) {
        (self.id@, self.package@)
    }
}

impl Clone for LockEntry {
    fn clone(&self) -> (r: Self)
        ensures
            r@ == self@,
    {
        LockEntry { id: self.id.clone(), package: self.package.clone() }
    }
}

/// The packages of a lockfile and its entrypoints.
#[derive(Debug, PartialEq, Eq, Hash)]
pub struct LocalPackageLock {
    rocks: Vec<LockEntry>,
    entrypoints: Vec<LocalPackageId>,
}

/// The body of a lockfile as plain values: the packages by identifier, in
/// the order in which they are kept, and the entrypoints in the order in
/// which they were added.
pub struct LockView {
    pub rocks: Seq<(Seq<char>, LocalPackageView)>,
    pub entrypoints: Seq<Seq<char>>,
}

/// The views of a sequence of entries.
pub open spec fn entries_view(entries: Seq<LockEntry>) -> Seq<(Seq<char>, LocalPackageView)> {
    entries.map_values(|e: LockEntry| e@)
}

impl View for LocalPackageLock {
    type V = LockView;

    closed spec fn view(&self) -> LockView {
        LockView { rocks: entries_view(self.rocks@), entrypoints: ids_view(self.entrypoints@) }
    }
}

impl LockView {
    /// Whether a package is kept under `id`.
    pub open spec fn has(self, id: Seq<char>) -> bool {
        exists|i: int| 0 <= i < self.rocks.len() && #[trigger] self.rocks[i].0 == id
    }

    /// The place of the package that is kept under `id`.
    pub open spec fn position(self, id: Seq<char>) -> int {
        choose|i: int| 0 <= i < self.rocks.len() && #[trigger] self.rocks[i].0 == id
    }

    /// The package that is kept under `id`, if there is one.
    pub open spec fn get(self, id: Seq<char>) -> Option<LocalPackageView> {
        if self.has(id) {
            Some(self.rocks[self.position(id)].1)
        } else {
            None
        }
    }

    /// Whether the packages stand in the strict order of their identifiers.
    pub open spec fn sorted(self) -> bool {
        forall|i: int, j: int|
            0 <= i < j < self.rocks.len() ==> lex_less(
                #[trigger] self.rocks[i].0,
                #[trigger] self.rocks[j].0,
            )
    }

    /// Whether `id` is among the entrypoints.
    pub open spec fn is_entrypoint(self, id: Seq<char>) -> bool {
        self.entrypoints.contains(id)
    }

    /// Whether some package names `id` among its direct dependencies.
    pub open spec fn is_dependency(self, id: Seq<char>) -> bool {
        exists|i: int|
            0 <= i < self.rocks.len() && (#[trigger] self.rocks[i]).1.spec.dependencies.contains(
                id,
            )
    }

    /// Whether every package is kept under its own identifier.
    pub open spec fn keyed(self) -> bool {
        forall|i: int|
            0 <= i < self.rocks.len() ==> (#[trigger] self.rocks[i]).0 == self.rocks[i].1.spec.id()
    }

    /// What holds of every lockfile: its packages stand in the strict order
    /// of their identifiers, so that no identifier occurs twice, each under
    /// its own identifier, and every entrypoint is the identifier of one of
    /// its packages.
    pub open spec fn wf(self) -> bool {
        &&& self.sorted()
        &&& self.keyed()
        &&& forall|e: int|
            0 <= e < self.entrypoints.len() ==> self.has(#[trigger] self.entrypoints[e])
    }

    /// Whether every identifier that `p` names among its direct
    /// dependencies is the identifier of a package of the lockfile.
    pub open spec fn knows_dependencies_of(self, p: LocalPackageView) -> bool {
        forall|d: Seq<char>| #[trigger] p.spec.dependencies.contains(d) ==> self.has(d)
    }

    /// Whether the lockfile holds every package that one of its packages
    /// names among its direct dependencies.
    pub open spec fn closed(self) -> bool {
        forall|i: int|
            0 <= i < self.rocks.len() ==> self.knows_dependencies_of((#[trigger] self.rocks[i]).1)
    }

    /// Whether every identifier under which `self` keeps a package is one
    /// under which `other` keeps a package.
    pub open spec fn ids_within(self, other: LockView) -> bool {
        forall|id: Seq<char>| self.has(id) ==> other.has(id)
    }
}

/// In a sorted lockfile an identifier stands at one place only.
pub proof fn lemma_position_unique(lock: LockView, i: int, j: int)
    requires
        lock.sorted(),
        0 <= i < lock.rocks.len(),
        0 <= j < lock.rocks.len(),
        lock.rocks[i].0 == lock.rocks[j].0,
    ensures
        i == j,
{
    lemma_lex_irreflexive(lock.rocks[i].0);
    if i < j {
        assert(lex_less(lock.rocks[i].0, lock.rocks[j].0));
    } else if j < i {
        assert(lex_less(lock.rocks[j].0, lock.rocks[i].0));
    }
}

/// In a sorted lockfile the package at a place is the package that is kept
/// under the identifier at that place.
pub proof fn lemma_get_at(lock: LockView, i: int)
    requires
        lock.sorted(),
        0 <= i < lock.rocks.len(),
    ensures
        lock.has(lock.rocks[i].0),
        lock.position(lock.rocks[i].0) == i,
        lock.get(lock.rocks[i].0) == Some(lock.rocks[i].1),
{
    let id = lock.rocks[i].0;
    assert(lock.has(id));
    lemma_position_unique(lock, i, lock.position(id));
}

/// A lockfile that holds every dependency of its packages still does so
/// after a change that takes no package away, leaves every package but the
/// one under `t` and the one under `u` as it was, and leaves those two
/// with dependencies that it holds.
pub proof fn lemma_closed_stays(before: LockView, after: LockView, t: Seq<char>, u: Seq<char>)
    requires
        before.sorted(),
        after.sorted(),
        before.closed(),
        before.ids_within(after),
        forall|id: Seq<char>| id != t && id != u ==> #[trigger] after.get(id) == before.get(id),
        after.get(t) matches Some(p) ==> after.knows_dependencies_of(p),
        after.get(u) matches Some(p) ==> after.knows_dependencies_of(p),
    ensures
        after.closed(),
{
    assert forall|i: int| 0 <= i < after.rocks.len() implies after.knows_dependencies_of(
        (#[trigger] after.rocks[i]).1,
    ) by {
        let x = after.rocks[i].0;
        let p = after.rocks[i].1;
        lemma_get_at(after, i);
        if x != t && x != u {
            assert(after.get(x) == before.get(x));
            let j = before.position(x);
            assert(before.knows_dependencies_of(before.rocks[j].1));
            assert forall|d: Seq<char>| #[trigger] p.spec.dependencies.contains(d) implies after.has(
                d,
            ) by {
                assert(before.has(d));
            }
        }
    }
}

/// What a lockfile knows of the dependencies of a package that it keeps
/// or of `fresh`, it still knows after a change that takes no package
/// away, where afterwards under `t` the package is kept that was kept
/// there, or `fresh`.
pub proof fn lemma_known_stay(before: LockView, after: LockView, t: Seq<char>, fresh: LocalPackageView)
    requires
        before.sorted(),
        before.closed(),
        before.ids_within(after),
        before.knows_dependencies_of(fresh),
        after.get(t) == before.get(t) || after.get(t) == Some(fresh),
    ensures
        after.get(t) matches Some(p) ==> after.knows_dependencies_of(p),
{
    if after.get(t) is Some {
        let p = after.get(t)->0;
        if after.get(t) == before.get(t) {
            let j = before.position(t);
            assert(before.knows_dependencies_of(before.rocks[j].1));
        }
        assert forall|d: Seq<char>| #[trigger] p.spec.dependencies.contains(d) implies after.has(
            d,
        ) by {
            assert(before.has(d));
        }
    }
}

/// A lockfile that knows the dependencies of a package and holds a package
/// under `d` knows the dependencies of the package with `d` appended to
/// them.
pub proof fn lemma_knows_one_more(lock: LockView, p: LocalPackageView, d: Seq<char>)
    requires
        lock.knows_dependencies_of(p),
        lock.has(d),
    ensures
        lock.knows_dependencies_of(with_dependency(p, d)),
{
    let w = with_dependency(p, d).spec.dependencies;
    assert forall|y: Seq<char>| #[trigger] w.contains(y) implies lock.has(y) by {
        let i = choose|i: int| 0 <= i < w.len() && w[i] == y;
        if i < p.spec.dependencies.len() {
            assert(p.spec.dependencies[i] == y);
            assert(p.spec.dependencies.contains(y));
        }
    }
}

/// After a change that takes no package away, the lockfile knows the
/// dependencies of `q`, which is the package that was kept under `t` or
/// else a package whose dependencies it knew.
pub proof fn lemma_target_is_known(before: LockView, after: LockView, t: Seq<char>, fresh: LocalPackageView)
    requires
        before.sorted(),
        before.closed(),
        before.ids_within(after),
        before.knows_dependencies_of(fresh),
    ensures
        after.knows_dependencies_of(
            match before.get(t) {
                Some(p) => p,
                None => fresh,
            },
        ),
{
    let q = match before.get(t) {
        Some(p) => p,
        None => fresh,
    };
    if before.get(t) is Some {
        let j = before.position(t);
        assert(before.knows_dependencies_of(before.rocks[j].1));
    }
    assert forall|d: Seq<char>| #[trigger] q.spec.dependencies.contains(d) implies after.has(d) by {
        assert(before.has(d));
    }
}

/// Whether `a` and `b` keep the same package under every identifier.
pub open spec fn same_packages(a: LockView, b: LockView) -> bool {
    forall|id: Seq<char>| #[trigger] a.get(id) == b.get(id)
}

/// Two sorted lockfiles that keep the same packages agree on their first
/// `n` places.
proof fn lemma_prefix_agrees(a: LockView, b: LockView, n: int)
    requires
        a.sorted(),
        b.sorted(),
        same_packages(a, b),
        0 <= n <= a.rocks.len(),
        n <= b.rocks.len(),
    ensures
        forall|k: int| 0 <= k < n ==> a.rocks[k] == b.rocks[k],
    decreases n,
{
    if n > 0 {
        let i = n - 1;
        lemma_prefix_agrees(a, b, i);
        let ka = a.rocks[i].0;
        let kb = b.rocks[i].0;
        lemma_get_at(a, i);
        lemma_get_at(b, i);
        assert(a.get(ka) == b.get(ka));
        assert(a.get(kb) == b.get(kb));
        let p = b.position(ka);
        let q = a.position(kb);
        lemma_get_at(b, p);
        lemma_get_at(a, q);
        if p < i {
            lemma_position_unique(a, p, i);
        }
        if q < i {
            lemma_position_unique(b, q, i);
        }
        if p > i {
            assert(lex_less(b.rocks[i].0, b.rocks[p].0));
            if q > i {
                assert(lex_less(a.rocks[i].0, a.rocks[q].0));
                lemma_lex_transitive(ka, kb, ka);
            }
            lemma_lex_irreflexive(ka);
        }
    }
}

/// Two sorted lockfiles that keep the same packages hold them in the same
/// order.
pub proof fn lemma_same_packages_same_order(a: LockView, b: LockView)
    requires
        a.sorted(),
        b.sorted(),
        same_packages(a, b),
    ensures
        a.rocks == b.rocks,
{
    let n = if a.rocks.len() <= b.rocks.len() {
        a.rocks.len() as int
    } else {
        b.rocks.len() as int
    };
    lemma_prefix_agrees(a, b, n);
    if a.rocks.len() > n {
        let k = a.rocks[n].0;
        lemma_get_at(a, n);
        assert(a.get(k) == b.get(k));
        let p = b.position(k);
        lemma_position_unique(a, p, n);
    }
    if b.rocks.len() > n {
        let k = b.rocks[n].0;
        lemma_get_at(b, n);
        assert(a.get(k) == b.get(k));
        let p = a.position(k);
        lemma_position_unique(b, p, n);
    }
    assert(a.rocks =~= b.rocks);
}

/// The result of looking for an identifier: the place where it stands, or
/// the place where it would have to be put.
enum Place {
    Found(usize),
    Missing(usize),
}

impl Clone for LocalPackageLock {
    fn clone(&self) -> (r: Self)
        ensures
            r@ == self@,
    {
        let mut rocks: Vec<LockEntry> = Vec::new();
        let mut i: usize = 0;
        while i < self.rocks.len()
            invariant
                i <= self.rocks.len(),
                entries_view(rocks@) == entries_view(self.rocks@).take(i as int),
            decreases self.rocks.len() - i,
        {
            let ghost before = rocks@;
            let e = self.rocks[i].clone();
            rocks.push(e);
            proof {
                assert(entries_view(before.push(e)) =~= entries_view(before).push(e@));
                assert(entries_view(self.rocks@).take(i as int).push(self.rocks@[i as int]@)
                    =~= entries_view(self.rocks@).take(i as int + 1));
            }
            i = i + 1;
        }
        proof {
            assert(entries_view(self.rocks@).take(self.rocks.len() as int) =~= entries_view(
                self.rocks@,
            ));
        }
        LocalPackageLock { rocks, entrypoints: crate::lockfile::clone_ids(&self.entrypoints) }
    }
}

impl Default for LocalPackageLock {
    fn default() -> (r: Self)
        ensures
            r@.rocks.len() == 0,
            r@.entrypoints.len() == 0,
            r@.wf(),
    {
        LocalPackageLock { rocks: Vec::new(), entrypoints: Vec::new() }
    }
}

impl LocalPackageLock {
    /// The place of `id` among the packages, or the place where it belongs.
    fn locate(&self, id: &LocalPackageId) -> (r: Place)
        requires
            self@.sorted(),
        ensures
            match r {
                Place::Found(i) => i < self@.rocks.len() && self@.rocks[i as int].0 == id@
                    && self@.has(id@) && self@.position(id@) == i,
                Place::Missing(i) => {
                    &&& i <= self@.rocks.len()
                    &&& !self@.has(id@)
                    &&& forall|j: int| 0 <= j < i ==> lex_less(#[trigger] self@.rocks[j].0, id@)
                    &&& forall|j: int|
                        i <= j < self@.rocks.len() ==> lex_less(id@, #[trigger] self@.rocks[j].0)
                },
            },
    {
        let mut i: usize = 0;
        while i < self.rocks.len()
            invariant
                i <= self.rocks.len(),
                self@.sorted(),
                forall|j: int| 0 <= j < i ==> lex_less(#[trigger] self@.rocks[j].0, id@),
            decreases self.rocks.len() - i,
        {
            proof {
                assert(self@.rocks[i as int].0 == self.rocks@[i as int].id@);
            }
            if self.rocks[i].id.same_as(id) {
                proof {
                    lemma_get_at(self@, i as int);
                }
                return Place::Found(i);
            }
            if !self.rocks[i].id.comes_before(id) {
                proof {
                    let here = self@.rocks[i as int].0;
                    lemma_lex_total(here, id@);
                    assert(lex_less(id@, here));
                    assert forall|j: int| i <= j < self@.rocks.len() implies lex_less(
                        id@,
                        #[trigger] self@.rocks[j].0,
                    ) by {
                        if j > i {
                            lemma_lex_transitive(id@, here, self@.rocks[j].0);
                        }
                    }
                    assert forall|j: int| 0 <= j < self@.rocks.len() implies self@.rocks[j].0
                        != id@ by {
                        lemma_lex_irreflexive(id@);
                    }
                }
                return Place::Missing(i);
            }
            i = i + 1;
        }
        proof {
            assert forall|j: int| 0 <= j < self@.rocks.len() implies self@.rocks[j].0 != id@ by {
                lemma_lex_irreflexive(id@);
            }
        }
        Place::Missing(i)
    }

    /// Whether the lockfile is as every lockfile has to be: the packages in
    /// the strict order of their identifiers, and every entrypoint the
    /// identifier of one of them.
    pub fn is_well_formed(&self) -> (r: bool)
        ensures
            r == self@.wf(),
    {
        let n = self.rocks.len();
        let mut i: usize = 1;
        while i < n
            invariant
                1 <= i,
                n == self.rocks.len(),
                forall|a: int, b: int|
                    0 <= a < b < i && b < n ==> lex_less(
                        #[trigger] self@.rocks[a].0,
                        #[trigger] self@.rocks[b].0,
                    ),
            decreases n - i,
        {
            proof {
                assert(self@.rocks[i - 1].0 == self.rocks@[i - 1].id@);
                assert(self@.rocks[i as int].0 == self.rocks@[i as int].id@);
            }
            if !self.rocks[i - 1].id.comes_before(&self.rocks[i].id) {
                proof {
                    assert(!lex_less(self@.rocks[i - 1].0, self@.rocks[i as int].0));
                }
                return false;
            }
            proof {
                assert forall|a: int, b: int| 0 <= a < b < i + 1 && b < n implies lex_less(
                    #[trigger] self@.rocks[a].0,
                    #[trigger] self@.rocks[b].0,
                ) by {
                    if b == i && a < i - 1 {
                        lemma_lex_transitive(
                            self@.rocks[a].0,
                            self@.rocks[i - 1].0,
                            self@.rocks[i as int].0,
                        );
                    }
                }
            }
            i = i + 1;
        }
        let mut k: usize = 0;
        while k < n
            invariant
                k <= n,
                n == self.rocks.len(),
                forall|a: int|
                    0 <= a < k ==> (#[trigger] self@.rocks[a]).0 == self@.rocks[a].1.spec.id(),
            decreases n - k,
        {
            proof {
                assert(self@.rocks[k as int] == self.rocks@[k as int]@);
            }
            let own = self.rocks[k].package.id();
            if !self.rocks[k].id.same_as(&own) {
                return false;
            }
            k = k + 1;
        }
        let mut e: usize = 0;
        while e < self.entrypoints.len()
            invariant
                e <= self.entrypoints.len(),
                self@.sorted(),
                self@.keyed(),
                forall|j: int| 0 <= j < e ==> self@.has(#[trigger] self@.entrypoints[j]),
            decreases self.entrypoints.len() - e,
        {
            proof {
                assert(self@.entrypoints[e as int] == self.entrypoints@[e as int]@);
            }
            match self.locate(&self.entrypoints[e]) {
                Place::Found(_) => {},
                Place::Missing(_) => {
                    return false;
                },
            }
            e = e + 1;
        }
        true
    }

    /// The place of the package that is kept under `id`.
    pub fn position_of(&self, id: &LocalPackageId) -> (r: Option<usize>)
        requires
            self@.sorted(),
        ensures
            match r {
                Some(i) => i < self@.rocks.len() && self@.rocks[i as int].0 == id@ && self@.has(
                    id@,
                ) && self@.position(id@) == i,
                None => !self@.has(id@),
            },
    {
        match self.locate(id) {
            Place::Found(i) => Some(i),
            Place::Missing(_) => None,
        }
    }

    /// The package that is kept under `id`.
    pub fn get(&self, id: &LocalPackageId) -> (r: Option<&LocalPackage>)
        requires
            self@.sorted(),
        ensures
            match r {
                Some(p) => self@.get(id@) == Some(p@),
                None => self@.get(id@) is None,
            },
    {
        match self.locate(id) {
            Place::Found(i) => {
                proof {
                    assert(self@.rocks[i as int].1 == self.rocks@[i as int].package@);
                }
                Some(&self.rocks[i].package)
            },
            Place::Missing(_) => None,
        }
    }

    /// Whether the lockfile holds no package.
    pub fn is_empty(&self) -> (r: bool)
        ensures
            r == (self@.rocks.len() == 0),
    {
        self.rocks.len() == 0
    }

    /// How many packages the lockfile holds.
    pub fn len(&self) -> (r: usize)
        ensures
            r == self@.rocks.len(),
    {
        self.rocks.len()
    }

    /// The packages with the identifiers under which they are kept, in the
    /// order of the identifiers.
    pub fn rocks(&self) -> (r: &Vec<LockEntry>)
        ensures
            entries_view(r@) == self@.rocks,
    {
        &self.rocks
    }

    /// The identifiers of the entrypoints.
    pub fn entrypoints(&self) -> (r: &Vec<LocalPackageId>)
        ensures
            ids_view(r@) == self@.entrypoints,
    {
        &self.entrypoints
    }

    /// Whether `package` is among the entrypoints.
    pub fn is_entrypoint(&self, package: &LocalPackageId) -> (r: bool)
        ensures
            r == self@.is_entrypoint(package@),
    {
        let mut i: usize = 0;
        while i < self.entrypoints.len()
            invariant
                i <= self.entrypoints.len(),
                forall|j: int| 0 <= j < i ==> self@.entrypoints[j] != package@,
            decreases self.entrypoints.len() - i,
        {
            proof {
                assert(self@.entrypoints[i as int] == self.entrypoints@[i as int]@);
            }
            if self.entrypoints[i].same_as(package) {
                return true;
            }
            i = i + 1;
        }
        false
    }

    /// Whether some package names `package` among its direct dependencies.
    pub fn is_dependency(&self, package: &LocalPackageId) -> (r: bool)
        ensures
            r == self@.is_dependency(package@),
    {
        let mut i: usize = 0;
        while i < self.rocks.len()
            invariant
                i <= self.rocks.len(),
                forall|j: int|
                    0 <= j < i ==> !(#[trigger] self@.rocks[j]).1.spec.dependencies.contains(
                        package@,
                    ),
            decreases self.rocks.len() - i,
        {
            let deps = self.rocks[i].package.dependencies();
            proof {
                assert(self@.rocks[i as int].1 == self.rocks@[i as int].package@);
            }
            let mut k: usize = 0;
            while k < deps.len()
                invariant
                    k <= deps.len(),
                    i < self.rocks.len(),
                    ids_view(deps@) == self@.rocks[i as int].1.spec.dependencies,
                    forall|j: int| 0 <= j < k ==> ids_view(deps@)[j] != package@,
                decreases deps.len() - k,
            {
                proof {
                    assert(ids_view(deps@)[k as int] == deps@[k as int]@);
                }
                if deps[k].same_as(package) {
                    proof {
                        assert(self@.rocks[i as int].1.spec.dependencies[k as int] == package@);
                    }
                    return true;
                }
                k = k + 1;
            }
            i = i + 1;
        }
        false
    }

    /// Records `rock` under its identifier unless a package is already kept
    /// under it: entries may have gained dependencies since they were added,
    /// so the one that is there stays.
    pub fn add(&mut self, rock: &LocalPackage)
        requires
            old(self)@.wf(),
        ensures
            final(self)@.wf(),
            final(self)@.entrypoints == old(self)@.entrypoints,
            old(self)@.ids_within(final(self)@),
            final(self)@.get(rock@.spec.id()) == if old(self)@.has(rock@.spec.id()) {
                old(self)@.get(rock@.spec.id())
            } else {
                Some(rock@)
            },
            forall|id: Seq<char>|
                id != rock@.spec.id() ==> final(self)@.get(id) == old(self)@.get(id),
            old(self)@.has(rock@.spec.id()) ==> final(self)@ == old(self)@,
            old(self)@.closed() && old(self)@.knows_dependencies_of(rock@) ==> final(self)@.closed(),
    {
        let id = rock.id();
        self.insert_at_id(id, rock);
        proof {
            if old(self)@.closed() && old(self)@.knows_dependencies_of(rock@) {
                lemma_known_stay(old(self)@, self@, rock@.spec.id(), rock@);
                lemma_closed_stays(old(self)@, self@, rock@.spec.id(), rock@.spec.id());
            }
        }
    }

    /// Records `rock` under `id` unless a package is already kept under it.
    fn insert_at_id(&mut self, id: LocalPackageId, rock: &LocalPackage)
        requires
            old(self)@.wf(),
            id@ == rock@.spec.id(),
        ensures
            final(self)@.wf(),
            final(self)@.entrypoints == old(self)@.entrypoints,
            old(self)@.ids_within(final(self)@),
            final(self)@.has(id@),
            final(self)@.get(id@) == if old(self)@.has(id@) {
                old(self)@.get(id@)
            } else {
                Some(rock@)
            },
            forall|other: Seq<char>| other != id@ ==> final(self)@.get(other) == old(self)@.get(other),
            old(self)@.has(id@) ==> final(self)@ == old(self)@,
    {
        match self.locate(&id) {
            Place::Found(_) => {},
            Place::Missing(i) => {
                let ghost before = self@;
                let ghost old_rocks = self.rocks@;
                let entry = LockEntry { id, package: rock.clone() };
                self.rocks.insert(i, entry);
                proof {
                    assert(self.rocks@ == old_rocks.insert(i as int, entry));
                    assert(entries_view(old_rocks.insert(i as int, entry)) =~= entries_view(
                        old_rocks,
                    ).insert(i as int, entry@));
                    lemma_insert_keeps(before, self@, i as int, entry@);
                }
            },
        }
    }

    /// Records `rock` and makes it an entrypoint.
    pub fn add_entrypoint(&mut self, rock: &LocalPackage)
        requires
            old(self)@.wf(),
        ensures
            final(self)@.wf(),
            final(self)@.entrypoints == old(self)@.entrypoints.push(rock@.spec.id()),
            old(self)@.ids_within(final(self)@),
            final(self)@.get(rock@.spec.id()) == if old(self)@.has(rock@.spec.id()) {
                old(self)@.get(rock@.spec.id())
            } else {
                Some(rock@)
            },
            forall|id: Seq<char>|
                id != rock@.spec.id() ==> final(self)@.get(id) == old(self)@.get(id),
            final(self)@.is_entrypoint(rock@.spec.id()),
            old(self)@.closed() && old(self)@.knows_dependencies_of(rock@) ==> final(self)@.closed(),
    {
        self.add(rock);
        let ghost mid = self@;
        let ghost old_entrypoints = self.entrypoints@;
        let id = rock.id();
        self.entrypoints.push(id);
        proof {
            assert(ids_view(old_entrypoints.push(id)) =~= ids_view(old_entrypoints).push(id@));
            assert(self@.rocks == mid.rocks);
            assert(mid.has(id@));
            assert forall|e: int| 0 <= e < self@.entrypoints.len() implies self@.has(
                #[trigger] self@.entrypoints[e],
            ) by {
                if e < mid.entrypoints.len() {
                    assert(mid.has(mid.entrypoints[e]));
                }
                lemma_has_same_rocks(mid, self@, self@.entrypoints[e]);
            }
            assert(self@.entrypoints[mid.entrypoints.len() as int] == id@);
            assert forall|x: Seq<char>| mid.has(x) implies self@.has(x) by {
                lemma_has_same_rocks(mid, self@, x);
            }
            assert forall|x: Seq<char>| self@.get(x) == mid.get(x) by {
                lemma_has_same_rocks(mid, self@, x);
            }
        }
    }

    /// Takes the first occurrence of `rock`'s identifier off the entrypoints.
    /// The package itself stays.
    pub fn remove_entrypoint(&mut self, rock: &LocalPackage)
        requires
            old(self)@.wf(),
        ensures
            final(self)@.wf(),
            final(self)@.rocks == old(self)@.rocks,
            final(self)@.entrypoints == match old(self)@.entrypoints.index_of_first(
                rock@.spec.id(),
            ) {
                Some(i) => old(self)@.entrypoints.remove(i),
                None => old(self)@.entrypoints,
            },
    {
        let id = rock.id();
        let ghost before = self@;
        let mut i: usize = 0;
        while i < self.entrypoints.len()
            invariant
                i <= self.entrypoints.len(),
                self@ == before,
                before == old(self)@,
                id@ == rock@.spec.id(),
                before.wf(),
                forall|j: int| 0 <= j < i ==> before.entrypoints[j] != id@,
            decreases self.entrypoints.len() - i,
        {
            proof {
                assert(self@.entrypoints[i as int] == self.entrypoints@[i as int]@);
            }
            if self.entrypoints[i].same_as(&id) {
                let ghost old_entrypoints = self.entrypoints@;
                self.entrypoints.remove(i);
                proof {
                    assert(ids_view(old_entrypoints.remove(i as int)) =~= ids_view(
                        old_entrypoints,
                    ).remove(i as int));
                    assert(before.entrypoints[i as int] == id@);
                    assert(before.entrypoints.contains(id@));
                    before.entrypoints.index_of_first_ensures(id@);
                    assert(before.entrypoints.index_of_first(id@) == Some(i as int));
                    assert(self@.rocks == before.rocks);
                    assert(self@.entrypoints == before.entrypoints.remove(i as int));
                    assert forall|e: int| 0 <= e < self@.entrypoints.len() implies self@.has(
                        #[trigger] self@.entrypoints[e],
                    ) by {
                        let src = if e < i {
                            e
                        } else {
                            e + 1
                        };
                        assert(self@.entrypoints[e] == before.entrypoints[src]);
                        assert(before.has(before.entrypoints[src]));
                        lemma_has_same_rocks(before, self@, self@.entrypoints[e]);
                    }
                }
                return ;
            }
            i = i + 1;
        }
        proof {
            before.entrypoints.index_of_first_ensures(id@);
        }
    }

    /// Takes the package that is kept under `target` out of the lockfile,
    /// and every occurrence of `target` off the entrypoints.
    pub fn remove_by_id(&mut self, target: &LocalPackageId)
        requires
            old(self)@.wf(),
        ensures
            final(self)@.wf(),
            !final(self)@.has(target@),
            final(self)@.ids_within(old(self)@),
            forall|id: Seq<char>| id != target@ ==> final(self)@.get(id) == old(self)@.get(id),
            final(self)@.entrypoints == without(old(self)@.entrypoints, target@),
    {
        let ghost before = self@;
        match self.locate(target) {
            Place::Found(i) => {
                let ghost old_rocks = self.rocks@;
                self.rocks.remove(i);
                proof {
                    assert(entries_view(old_rocks.remove(i as int)) =~= entries_view(
                        old_rocks,
                    ).remove(i as int));
                }
            },
            Place::Missing(_) => {},
        }
        let ghost mid_rocks = self@.rocks;
        proof {
            lemma_remove_keeps(before, self@.rocks, target@);
        }
        let mut kept: Vec<LocalPackageId> = Vec::new();
        let mut k: usize = 0;
        while k < self.entrypoints.len()
            invariant
                k <= self.entrypoints.len(),
                self@.rocks == mid_rocks,
                self@.entrypoints == before.entrypoints,
                ids_view(kept@) == without(before.entrypoints.take(k as int), target@),
            decreases self.entrypoints.len() - k,
        {
            proof {
                assert(self@.entrypoints[k as int] == self.entrypoints@[k as int]@);
                assert(before.entrypoints.take(k as int + 1).drop_last()
                    =~= before.entrypoints.take(k as int));
            }
            if !self.entrypoints[k].same_as(target) {
                let ghost old_kept = kept@;
                let id = self.entrypoints[k].clone();
                kept.push(id);
                proof {
                    assert(ids_view(old_kept.push(id)) =~= ids_view(old_kept).push(id@));
                }
            }
            k = k + 1;
        }
        proof {
            assert(before.entrypoints.take(before.entrypoints.len() as int)
                =~= before.entrypoints);
        }
        self.entrypoints = kept;
        proof {
            let after = self@;
            assert(after.rocks == mid_rocks);
            let shrunk = LockView { rocks: mid_rocks, entrypoints: before.entrypoints };
            assert forall|id: Seq<char>| after.has(id) == shrunk.has(id) && after.get(id)
                == shrunk.get(id) by {
                lemma_has_same_rocks(shrunk, after, id);
            }
            assert forall|e: int| 0 <= e < after.entrypoints.len() implies after.has(
                #[trigger] after.entrypoints[e],
            ) by {
                let x = after.entrypoints[e];
                lemma_without(before.entrypoints, target@, e);
                let src = choose|src: int|
                    0 <= src < before.entrypoints.len() && before.entrypoints[src] == x;
                assert(before.has(before.entrypoints[src]));
                assert(shrunk.get(x) == before.get(x));
            }
        }
    }

    /// Notes that `target` depends on the package that is kept under
    /// `dependency`: the identifier is appended to the dependencies of the
    /// package that is kept under the identifier of `target` (which is
    /// `target` itself where none was kept).
    pub fn add_dependency_id(&mut self, target: &LocalPackage, dependency: &LocalPackageId)
        requires
            old(self)@.wf(),
        ensures
            final(self)@.wf(),
            final(self)@.entrypoints == old(self)@.entrypoints,
            old(self)@.ids_within(final(self)@),
            final(self)@.get(target@.spec.id()) == Some(
                with_dependency(
                    match old(self)@.get(target@.spec.id()) {
                        Some(p) => p,
                        None => target@,
                    },
                    dependency@,
                ),
            ),
            forall|id: Seq<char>|
                id != target@.spec.id() ==> final(self)@.get(id) == old(self)@.get(id),
            old(self)@.closed() && old(self)@.knows_dependencies_of(target@) && (old(self)@.has(
                dependency@,
            ) || dependency@ == target@.spec.id()) ==> final(self)@.closed(),
    {
        let target_id = target.id();
        self.insert_at_id(target_id.clone(), target);
        let ghost mid = self@;
        match self.locate(&target_id) {
            Place::Found(i) => {
                let ghost old_rocks = self.rocks@;
                let mut entry = self.rocks.remove(i);
                let ghost old_deps = entry.package.spec.dependencies@;
                let ghost old_entry = entry@;
                let id = dependency.clone();
                entry.package.spec.dependencies.push(id);
                proof {
                    assert(ids_view(old_deps.push(id)) =~= ids_view(old_deps).push(id@));
                    assert(entry@.1 == with_dependency(old_entry.1, dependency@));
                }
                self.rocks.insert(i, entry);
                proof {
                    assert(self.rocks@ =~= old_rocks.update(i as int, entry));
                    assert(entries_view(old_rocks.update(i as int, entry)) =~= entries_view(
                        old_rocks,
                    ).update(i as int, entry@));
                    lemma_get_at(mid, i as int);
                    lemma_update_keeps(mid, self@, i as int, entry@.1);
                }
            },
            Place::Missing(_) => {},
        }
        proof {
            let before = old(self)@;
            let tid = target@.spec.id();
            if before.closed() && before.knows_dependencies_of(target@) && (before.has(dependency@)
                || dependency@ == tid) {
                lemma_target_is_known(before, self@, tid, target@);
                let q = match before.get(tid) {
                    Some(p) => p,
                    None => target@,
                };
                assert(self@.has(tid));
                lemma_knows_one_more(self@, q, dependency@);
                lemma_closed_stays(before, self@, tid, tid);
            }
        }
    }

    /// Notes that `target` depends on `dependency`: the identifier of
    /// `dependency` is appended to the dependencies of the package that is
    /// kept under the identifier of `target` (which is `target` itself where
    /// none was kept), and `dependency` is recorded unless it already is.
    pub fn add_dependency(&mut self, target: &LocalPackage, dependency: &LocalPackage)
        requires
            old(self)@.wf(),
        ensures
            final(self)@.wf(),
            final(self)@.entrypoints == old(self)@.entrypoints,
            old(self)@.ids_within(final(self)@),
            final(self)@.get(target@.spec.id()) == Some(
                with_dependency(
                    match old(self)@.get(target@.spec.id()) {
                        Some(p) => p,
                        None => target@,
                    },
                    dependency@.spec.id(),
                ),
            ),
            final(self)@.has(dependency@.spec.id()),
            dependency@.spec.id() != target@.spec.id() ==> final(self)@.get(dependency@.spec.id())
                == if old(self)@.has(dependency@.spec.id()) {
                old(self)@.get(dependency@.spec.id())
            } else {
                Some(dependency@)
            },
            forall|id: Seq<char>|
                id != target@.spec.id() && id != dependency@.spec.id() ==> final(self)@.get(id)
                    == old(self)@.get(id),
            old(self)@.closed() && old(self)@.knows_dependencies_of(target@)
                && old(self)@.knows_dependencies_of(dependency@) ==> final(self)@.closed(),
    {
        let target_id = target.id();
        let dependency_id = dependency.id();
        self.insert_at_id(target_id.clone(), target);
        let ghost mid = self@;
        match self.locate(&target_id) {
            Place::Found(i) => {
                let ghost old_rocks = self.rocks@;
                let mut entry = self.rocks.remove(i);
                let ghost old_deps = entry.package.spec.dependencies@;
                let ghost old_entry = entry@;
                entry.package.spec.dependencies.push(dependency_id);
                proof {
                    assert(ids_view(old_deps.push(dependency_id)) =~= ids_view(old_deps).push(
                        dependency_id@,
                    ));
                    assert(entry@.1 == with_dependency(old_entry.1, dependency_id@));
                }
                self.rocks.insert(i, entry);
                proof {
                    assert(self.rocks@ =~= old_rocks.update(i as int, entry));
                    assert(entries_view(old_rocks.update(i as int, entry)) =~= entries_view(
                        old_rocks,
                    ).update(i as int, entry@));
                    lemma_get_at(mid, i as int);
                    lemma_update_keeps(mid, self@, i as int, entry@.1);
                }
            },
            Place::Missing(_) => {},
        }
        self.add(dependency);
        proof {
            let before = old(self)@;
            let tid = target@.spec.id();
            let did = dependency@.spec.id();
            if before.closed() && before.knows_dependencies_of(target@)
                && before.knows_dependencies_of(dependency@) {
                lemma_target_is_known(before, self@, tid, target@);
                let q = match before.get(tid) {
                    Some(p) => p,
                    None => target@,
                };
                lemma_knows_one_more(self@, q, did);
                if did != tid {
                    lemma_target_is_known(before, self@, did, dependency@);
                }
                lemma_closed_stays(before, self@, tid, did);
            }
        }
    }

    /// Replaces the content of the lockfile by that of `lock`.
    pub fn sync(&mut self, lock: &LocalPackageLock)
        ensures
            final(self)@ == lock@,
    {
        *self = lock.clone();
    }

    /// The lockfile that holds `entries` and has the given entrypoints. Of
    /// several entries with one identifier the first is kept. There is no
    /// such lockfile where an entry stands under an identifier that is not
    /// that of its package, or an entrypoint is the identifier of no entry.
    pub fn from_entries(entries: &Vec<LockEntry>, entrypoints: Vec<LocalPackageId>) -> (r:
        Option<Self>)
        ensures
            match r {
                Some(lock) => {
                    &&& lock@.wf()
                    &&& lock@.entrypoints == ids_view(entrypoints@)
                    &&& forall|i: int|
                        0 <= i < entries@.len() ==> lock@.has(#[trigger] entries@[i].id@)
                    &&& forall|id: Seq<char>|
                        lock@.has(id) ==> exists|i: int|
                            0 <= i < entries@.len() && (#[trigger] entries@[i])@ == (
                                id,
                                lock@.get(id)->0,
                            )
                    &&& in_order(entries@) ==> lock@.rocks == entries_view(entries@)
                    &&& forall|i: int| 0 <= i < entries@.len() ==> own_key(#[trigger] entries@[i])
                },
                None => (exists|i: int| 0 <= i < entries@.len() && !own_key(#[trigger] entries@[i]))
                    || (exists|e: int|
                    0 <= e < entrypoints@.len() && !id_among(entries@, #[trigger] entrypoints@[e]@)),
            },
    {
        let mut lock = LocalPackageLock { rocks: Vec::new(), entrypoints: Vec::new() };
        let mut i: usize = 0;
        while i < entries.len()
            invariant
                i <= entries.len(),
                lock@.wf(),
                forall|j: int| 0 <= j < i ==> own_key(#[trigger] entries@[j]),
                lock@.entrypoints.len() == 0,
                forall|j: int| 0 <= j < i ==> lock@.has(#[trigger] entries@[j].id@),
                forall|id: Seq<char>|
                    lock@.has(id) ==> exists|j: int|
                        0 <= j < i && (#[trigger] entries@[j])@ == (id, lock@.get(id)->0),
            decreases entries.len() - i,
        {
            let ghost before = lock@;
            let id = entries[i].id.clone();
            let own = entries[i].package.id();
            if !id.same_as(&own) {
                return None;
            }
            lock.insert_at_id(id, &entries[i].package);
            proof {
                let key = entries@[i as int].id@;
                assert forall|x: Seq<char>| lock@.has(x) implies exists|j: int|
                    0 <= j < i + 1 && (#[trigger] entries@[j])@ == (x, lock@.get(x)->0) by {
                    if x == key && !before.has(key) {
                        assert(entries@[i as int]@ == (x, lock@.get(x)->0));
                    } else {
                        if x != key {
                            assert(lock@.get(x) == before.get(x));
                        }
                        assert(before.has(x));
                        let j = choose|j: int|
                            0 <= j < i && (#[trigger] entries@[j])@ == (x, before.get(x)->0);
                        assert(entries@[j]@ == (x, lock@.get(x)->0));
                    }
                }
            }
            i = i + 1;
        }
        let mut e: usize = 0;
        while e < entrypoints.len()
            invariant
                e <= entrypoints.len(),
                lock@.wf(),
                forall|j: int| 0 <= j < e ==> lock@.has(#[trigger] entrypoints@[j]@),
                forall|j: int| 0 <= j < entries@.len() ==> lock@.has(#[trigger] entries@[j].id@),
                forall|id: Seq<char>|
                    lock@.has(id) ==> exists|j: int|
                        0 <= j < entries@.len() && (#[trigger] entries@[j])@ == (
                            id,
                            lock@.get(id)->0,
                        ),
            decreases entrypoints.len() - e,
        {
            match lock.locate(&entrypoints[e]) {
                Place::Found(_) => {},
                Place::Missing(_) => {
                    proof {
                        if id_among(entries@, entrypoints@[e as int]@) {
                            let j = choose|j: int|
                                0 <= j < entries@.len() && (#[trigger] entries@[j]).id@
                                    == entrypoints@[e as int]@;
                            assert(lock@.has(entries@[j].id@));
                        }
                    }
                    return None;
                },
            }
            e = e + 1;
        }
        let ghost filled = lock@;
        lock.entrypoints = entrypoints;
        proof {
            assert(lock@.rocks == filled.rocks);
            assert forall|x: Seq<char>| lock@.has(x) == filled.has(x) && lock@.get(x)
                == filled.get(x) by {
                lemma_has_same_rocks(filled, lock@, x);
            }
            assert forall|j: int| 0 <= j < lock@.entrypoints.len() implies lock@.has(
                #[trigger] lock@.entrypoints[j],
            ) by {
                assert(lock@.entrypoints[j] == entrypoints@[j]@);
                assert(filled.has(entrypoints@[j]@));
            }
            assert forall|id: Seq<char>| lock@.has(id) implies exists|j: int|
                0 <= j < entries@.len() && (#[trigger] entries@[j])@ == (id, lock@.get(id)->0) by {
                lemma_has_same_rocks(filled, lock@, id);
                assert(filled.has(id));
                let j = choose|j: int|
                    0 <= j < entries@.len() && (#[trigger] entries@[j])@ == (
                        id,
                        filled.get(id)->0,
                    );
                assert(entries@[j]@ == (id, lock@.get(id)->0));
            }
            if in_order(entries@) {
                lemma_rebuilt_in_order(entries@, lock@);
            }
        }
        Some(lock)
    }

    /// Takes `target` out of the lockfile.
    pub fn remove(&mut self, target: &LocalPackage)
        requires
            old(self)@.wf(),
        ensures
            final(self)@.wf(),
            !final(self)@.has(target@.spec.id()),
            final(self)@.ids_within(old(self)@),
            forall|id: Seq<char>|
                id != target@.spec.id() ==> final(self)@.get(id) == old(self)@.get(id),
            final(self)@.entrypoints == without(old(self)@.entrypoints, target@.spec.id()),
    {
        let id = target.id();
        self.remove_by_id(&id)
    }
}

/// Whether one of `entries` stands under `id`.
pub open spec fn id_among(entries: Seq<LockEntry>, id: Seq<char>) -> bool {
    exists|i: int| 0 <= i < entries.len() && (#[trigger] entries[i]).id@ == id
}

/// Whether the entry stands under the identifier of its package.
pub open spec fn own_key(entry: LockEntry) -> bool {
    entry.id@ == entry.package@.spec.id()
}

/// Whether `entries` stand in the strict order of their identifiers, as the
/// packages of a lockfile do.
pub open spec fn in_order(entries: Seq<LockEntry>) -> bool {
    (LockView { rocks: entries_view(entries), entrypoints: Seq::empty() }).sorted()
}

/// A sorted lockfile that keeps the entries `entries`, which stand in
/// order, and nothing else, holds them as they stand.
pub proof fn lemma_rebuilt_in_order(entries: Seq<LockEntry>, lock: LockView)
    requires
        lock.sorted(),
        in_order(entries),
        forall|i: int| 0 <= i < entries.len() ==> lock.has(#[trigger] entries[i].id@),
        forall|id: Seq<char>|
            lock.has(id) ==> exists|i: int|
                0 <= i < entries.len() && (#[trigger] entries[i])@ == (id, lock.get(id)->0),
    ensures
        lock.rocks == entries_view(entries),
{
    let given = LockView { rocks: entries_view(entries), entrypoints: Seq::empty() };
    assert forall|id: Seq<char>| #[trigger] lock.get(id) == given.get(id) by {
        if given.has(id) {
            let i = given.position(id);
            lemma_get_at(given, i);
            assert(given.rocks[i] == entries[i]@);
            assert(lock.has(entries[i].id@));
            let j = choose|j: int|
                0 <= j < entries.len() && (#[trigger] entries[j])@ == (id, lock.get(id)->0);
            assert(given.rocks[j] == entries[j]@);
            lemma_position_unique(given, i, j);
        } else if lock.has(id) {
            let j = choose|j: int|
                0 <= j < entries.len() && (#[trigger] entries[j])@ == (id, lock.get(id)->0);
            assert(given.rocks[j] == entries[j]@);
            assert(given.has(id));
        }
    }
    lemma_same_packages_same_order(lock, given);
}

/// The package `p` with `dep` appended to its direct dependencies.
pub open spec fn with_dependency(p: LocalPackageView, dep: Seq<char>) -> LocalPackageView {
    LocalPackageView {
        spec: crate::lockfile::LocalPackageSpecView {
            dependencies: p.spec.dependencies.push(dep),
            ..p.spec
        },
        ..p
    }
}

/// Replacing the package at a place, under the same identifier, keeps the
/// lockfile in order and every other package as it was.
pub proof fn lemma_update_keeps(before: LockView, after: LockView, i: int, package: LocalPackageView)
    requires
        before.wf(),
        0 <= i < before.rocks.len(),
        package.spec.id() == before.rocks[i].0,
        after.rocks == before.rocks.update(i, (before.rocks[i].0, package)),
        after.entrypoints == before.entrypoints,
    ensures
        after.wf(),
        before.ids_within(after),
        after.ids_within(before),
        after.get(before.rocks[i].0) == Some(package),
        forall|id: Seq<char>| id != before.rocks[i].0 ==> after.get(id) == before.get(id),
{
    assert forall|a: int| 0 <= a < after.rocks.len() implies (#[trigger] after.rocks[a]).0
        == after.rocks[a].1.spec.id() by {
        if a != i {
            assert(after.rocks[a] == before.rocks[a]);
        }
    }
    assert forall|a: int, b: int| 0 <= a < b < after.rocks.len() implies lex_less(
        #[trigger] after.rocks[a].0,
        #[trigger] after.rocks[b].0,
    ) by {
        assert(after.rocks[a].0 == before.rocks[a].0);
        assert(after.rocks[b].0 == before.rocks[b].0);
    }
    lemma_get_at(after, i);
    assert forall|id: Seq<char>| before.has(id) == after.has(id) && (id != before.rocks[i].0
        ==> after.get(id) == before.get(id)) by {
        if before.has(id) {
            let p = before.position(id);
            assert(after.rocks[p].0 == id);
            lemma_get_at(before, p);
            lemma_get_at(after, p);
        }
        if after.has(id) {
            let p = after.position(id);
            assert(before.rocks[p].0 == id);
            lemma_get_at(before, p);
            lemma_get_at(after, p);
        }
    }
    assert forall|e: int| 0 <= e < after.entrypoints.len() implies after.has(
        #[trigger] after.entrypoints[e],
    ) by {
        assert(before.has(before.entrypoints[e]));
    }
}

/// `s` without the occurrences of `x`.
pub open spec fn without(s: Seq<Seq<char>>, x: Seq<char>) -> Seq<Seq<char>>
    decreases s.len(),
{
    if s.len() == 0 {
        s
    } else if s.last() == x {
        without(s.drop_last(), x)
    } else {
        without(s.drop_last(), x).push(s.last())
    }
}

/// What is left of `s` without `x` is of `s`, and is not `x`.
pub proof fn lemma_without(s: Seq<Seq<char>>, x: Seq<char>, i: int)
    requires
        0 <= i < without(s, x).len(),
    ensures
        without(s, x)[i] != x,
        exists|j: int| 0 <= j < s.len() && s[j] == without(s, x)[i],
    decreases s.len(),
{
    if s.len() > 0 {
        let rest = without(s.drop_last(), x);
        if s.last() != x && i == rest.len() {
            assert(s[s.len() - 1] == without(s, x)[i]);
        } else {
            lemma_without(s.drop_last(), x, i);
            let j = choose|j: int| 0 <= j < s.drop_last().len() && s.drop_last()[j] == rest[i];
            assert(s[j] == without(s, x)[i]);
        }
    }
}

/// Two lockfiles with the same packages keep the same packages under the
/// same identifiers.
pub proof fn lemma_has_same_rocks(a: LockView, b: LockView, id: Seq<char>)
    requires
        a.rocks == b.rocks,
    ensures
        a.has(id) == b.has(id),
        a.get(id) == b.get(id),
{
    if a.has(id) {
        let i = a.position(id);
        assert(b.rocks[i].0 == id);
    }
    if b.has(id) {
        let i = b.position(id);
        assert(a.rocks[i].0 == id);
    }
}

/// Putting an entry at the place where its identifier belongs keeps the
/// lockfile in order, keeps every package that was there, and makes the
/// entry the package that is kept under its identifier.
pub proof fn lemma_insert_keeps(
    before: LockView,
    after: LockView,
    i: int,
    entry: (Seq<char>, LocalPackageView),
)
    requires
        before.wf(),
        0 <= i <= before.rocks.len(),
        !before.has(entry.0),
        entry.0 == entry.1.spec.id(),
        forall|j: int| 0 <= j < i ==> lex_less(#[trigger] before.rocks[j].0, entry.0),
        forall|j: int| i <= j < before.rocks.len() ==> lex_less(entry.0, #[trigger] before.rocks[j].0),
        after.rocks == before.rocks.insert(i, entry),
        after.entrypoints == before.entrypoints,
    ensures
        after.wf(),
        before.ids_within(after),
        after.has(entry.0),
        after.get(entry.0) == Some(entry.1),
        forall|id: Seq<char>| id != entry.0 ==> after.get(id) == before.get(id),
{
    assert forall|a: int| 0 <= a < after.rocks.len() implies (#[trigger] after.rocks[a]).0
        == after.rocks[a].1.spec.id() by {
        if a < i {
            assert(after.rocks[a] == before.rocks[a]);
        } else if a > i {
            assert(after.rocks[a] == before.rocks[a - 1]);
        }
    }
    assert forall|a: int, b: int| 0 <= a < b < after.rocks.len() implies lex_less(
        #[trigger] after.rocks[a].0,
        #[trigger] after.rocks[b].0,
    ) by {
        let sa = if a < i {
            a
        } else {
            a - 1
        };
        let sb = if b < i {
            b
        } else {
            b - 1
        };
        if a != i && b != i {
            assert(after.rocks[a] == before.rocks[sa]);
            assert(after.rocks[b] == before.rocks[sb]);
            assert(lex_less(before.rocks[sa].0, before.rocks[sb].0));
        } else if a == i {
            assert(after.rocks[b] == before.rocks[sb]);
        } else {
            assert(after.rocks[a] == before.rocks[sa]);
        }
    }
    assert(after.rocks[i] == entry);
    lemma_get_at(after, i);
    assert forall|id: Seq<char>| before.has(id) implies after.has(id) && (id != entry.0
        ==> after.get(id) == before.get(id)) by {
        let p = before.position(id);
        let q = if p < i {
            p
        } else {
            p + 1
        };
        assert(after.rocks[q] == before.rocks[p]);
        lemma_get_at(after, q);
        lemma_get_at(before, p);
    }
    assert forall|id: Seq<char>| id != entry.0 implies after.get(id) == before.get(id) by {
        if after.has(id) && !before.has(id) {
            let q = after.position(id);
            let p = if q < i {
                q
            } else {
                q - 1
            };
            assert(after.rocks[q] == before.rocks[p]);
            assert(before.rocks[p].0 == id);
        }
    }
    assert forall|e: int| 0 <= e < after.entrypoints.len() implies after.has(
        #[trigger] after.entrypoints[e],
    ) by {
        assert(before.has(before.entrypoints[e]));
    }
}

/// Taking out the package that is kept under `target`, if there is one,
/// keeps the lockfile in order and every other package in its place.
pub proof fn lemma_remove_keeps(
    before: LockView,
    rocks: Seq<(Seq<char>, LocalPackageView)>,
    target: Seq<char>,
)
    requires
        before.sorted(),
        rocks == if before.has(target) {
            before.rocks.remove(before.position(target))
        } else {
            before.rocks
        },
    ensures
        ({
            let after = LockView { rocks, entrypoints: before.entrypoints };
            &&& after.sorted()
            &&& !after.has(target)
            &&& after.ids_within(before)
            &&& forall|id: Seq<char>| id != target ==> after.get(id) == before.get(id)
        }),
{
    let after = LockView { rocks, entrypoints: before.entrypoints };
    if before.has(target) {
        let i = before.position(target);
        assert forall|a: int, b: int| 0 <= a < b < after.rocks.len() implies lex_less(
            #[trigger] after.rocks[a].0,
            #[trigger] after.rocks[b].0,
        ) by {
            let sa = if a < i {
                a
            } else {
                a + 1
            };
            let sb = if b < i {
                b
            } else {
                b + 1
            };
            assert(after.rocks[a] == before.rocks[sa]);
            assert(after.rocks[b] == before.rocks[sb]);
            assert(lex_less(before.rocks[sa].0, before.rocks[sb].0));
        }
        assert forall|q: int| 0 <= q < after.rocks.len() implies (#[trigger] after.rocks[q]).0
            != target by {
            let p = if q < i {
                q
            } else {
                q + 1
            };
            assert(after.rocks[q] == before.rocks[p]);
            if before.rocks[p].0 == target {
                lemma_position_unique(before, p, i);
            }
        }
        assert forall|id: Seq<char>| after.has(id) implies before.has(id) && after.get(id)
            == before.get(id) by {
            let q = after.position(id);
            let p = if q < i {
                q
            } else {
                q + 1
            };
            assert(after.rocks[q] == before.rocks[p]);
            lemma_get_at(after, q);
            lemma_get_at(before, p);
        }
        assert forall|id: Seq<char>| id != target implies after.get(id) == before.get(id) by {
            if before.has(id) && !after.has(id) {
                let p = before.position(id);
                lemma_get_at(before, p);
                let q = if p < i {
                    p
                } else {
                    p - 1
                };
                assert(after.rocks[q] == before.rocks[p]);
            }
        }
    } else {
        assert(after.rocks == before.rocks);
        assert forall|id: Seq<char>| after.has(id) == before.has(id) && after.get(id)
            == before.get(id) by {
            lemma_has_same_rocks(after, before, id);
        }
    }
}

} // verus!
