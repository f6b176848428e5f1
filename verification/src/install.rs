//! The end of an installation: what has been built is recorded in the
//! lockfile, in one go. Entrypoints are recorded as such, and each package
//! with the packages that it depends on.

use crate::lock::{with_dependency, LockView};
use crate::lockfile::{ids_view, LocalPackage, LocalPackageId, LocalPackageView};
use crate::lux_lock::{Lockfile, LockfileView, ReadWrite};
use crate::tree::EntryType;
use vstd::prelude::*;

verus! {

/// A package that was built and put into the tree.
#[derive(Debug, PartialEq, Eq)]
pub struct InstalledPackage {
    pub package: LocalPackage,
    pub entry_type: EntryType,
    /// The identifiers of the packages that the package depends on
    /// directly.
    pub dependencies: Vec<LocalPackageId>,
}

/// An installed package as plain values.
pub struct InstalledPackageView {
    pub package: LocalPackageView,
    pub entry_type: EntryType,
    pub dependencies: Seq<Seq<char>>,
}

impl View for InstalledPackage {
    type V = InstalledPackageView;

    open spec fn view(&self) -> InstalledPackageView {
        InstalledPackageView {
            package: self.package@,
            entry_type: self.entry_type,
            dependencies: ids_view(self.dependencies@),
        }
    }
}

/// The views of a sequence of installed packages.
pub open spec fn installed_view(installed: Seq<InstalledPackage>) -> Seq<InstalledPackageView> {
    installed.map_values(|p: InstalledPackage| p@)
}

/// Why what was installed could not be recorded.
#[derive(Debug, PartialEq, Eq)]
pub enum InstallError {
    /// A package depends on a package that was neither installed now nor
    /// is in the lockfile; given are the identifiers of the two.
    DependencyNotFound { package: LocalPackageId, dependency: LocalPackageId },
}

/// Whether one of `installed` has the identifier `id`.
pub open spec fn is_installed_now(installed: Seq<InstalledPackageView>, id: Seq<char>) -> bool {
    exists|i: int| 0 <= i < installed.len() && (#[trigger] installed[i]).package.spec.id() == id
}

/// Whether the dependency `id` of an installed package can be recorded: it
/// was installed now, or the lockfile holds it.
pub open spec fn is_known(lock: LockView, installed: Seq<InstalledPackageView>, id: Seq<char>)
    -> bool {
    is_installed_now(installed, id) || lock.has(id)
}

/// Whether the `k`-th dependency of the `i`-th installed package can be
/// recorded.
pub open spec fn known_at(lock: LockView, installed: Seq<InstalledPackageView>, i: int, k: int)
    -> bool {
    is_known(lock, installed, installed[i].dependencies[k])
}

/// Whether every dependency of every installed package can be recorded.
pub open spec fn all_known(lock: LockView, installed: Seq<InstalledPackageView>) -> bool {
    forall|i: int, k: int|
        0 <= i < installed.len() && 0 <= k < installed[i].dependencies.len() ==> #[trigger] known_at(
            lock,
            installed,
            i,
            k,
        )
}

/// Whether the `k`-th dependency of the `i`-th installed package is the
/// first that cannot be recorded: every dependency of the packages before
/// can, and so can the dependencies of the package before this one.
pub open spec fn first_unknown(
    lock: LockView,
    installed: Seq<InstalledPackageView>,
    i: int,
    k: int,
) -> bool {
    &&& 0 <= i < installed.len()
    &&& 0 <= k < installed[i].dependencies.len()
    &&& !known_at(lock, installed, i, k)
    &&& forall|a: int, b: int|
        0 <= a < i && 0 <= b < installed[a].dependencies.len() ==> #[trigger] known_at(
            lock,
            installed,
            a,
            b,
        )
    &&& forall|b: int| 0 <= b < k ==> #[trigger] known_at(lock, installed, i, b)
}

/// Whether the lockfile records that the package kept under `package`
/// depends on `dependency`: the package names the dependency, and the
/// dependency is in the lockfile.
pub open spec fn records_edge(lock: LockView, package: Seq<char>, dependency: Seq<char>) -> bool {
    lock.get(package) matches Some(p) && p.spec.dependencies.contains(dependency) && lock.has(
        dependency,
    )
}

/// Whether the lockfile records the `k`-th dependency of the `i`-th
/// installed package.
pub open spec fn recorded_at(lock: LockView, installed: Seq<InstalledPackageView>, i: int, k: int)
    -> bool {
    records_edge(lock, installed[i].package.spec.id(), installed[i].dependencies[k])
}

/// Whether the lockfile records every dependency of the first `n` installed
/// packages.
pub open spec fn all_recorded(lock: LockView, installed: Seq<InstalledPackageView>, n: int)
    -> bool {
    forall|i: int, k: int|
        0 <= i < n && i < installed.len() && 0 <= k < installed[i].dependencies.len()
            ==> #[trigger] recorded_at(lock, installed, i, k)
}

/// The identifiers of those of the first `n` installed packages that are
/// entrypoints.
pub open spec fn entrypoint_ids(installed: Seq<InstalledPackageView>, n: nat) -> Seq<Seq<char>>
    decreases n,
{
    if n == 0 || n > installed.len() {
        Seq::<Seq<char>>::empty()
    } else if installed[n - 1].entry_type == EntryType::Entrypoint {
        entrypoint_ids(installed, (n - 1) as nat).push(installed[n - 1].package.spec.id())
    } else {
        entrypoint_ids(installed, (n - 1) as nat)
    }
}

/// Whether a change of a lockfile only adds: every package is still there,
/// and is what it was, but that the package kept under `t` may name more
/// dependencies.
pub open spec fn only_adds(before: LockView, after: LockView, t: Seq<char>) -> bool {
    &&& before.ids_within(after)
    &&& forall|id: Seq<char>| id != t && before.has(id) ==> after.get(id) == before.get(id)
    &&& before.has(t) ==> (after.get(t) matches Some(p) && forall|y: Seq<char>|
        (before.get(t)->0).spec.dependencies.contains(y) ==> p.spec.dependencies.contains(y))
}

/// A change that only adds keeps the edges that are recorded.
pub proof fn lemma_edge_stays(before: LockView, after: LockView, x: Seq<char>, d: Seq<char>, t: Seq<
    char,
>)
    requires
        records_edge(before, x, d),
        only_adds(before, after, t),
    ensures
        records_edge(after, x, d),
{
    assert(before.has(x));
    assert(before.has(d));
    assert(after.has(d));
}

/// A change that only adds keeps what is recorded of the installed
/// packages.
pub proof fn lemma_recorded_stay(
    before: LockView,
    after: LockView,
    installed: Seq<InstalledPackageView>,
    n: int,
    t: Seq<char>,
)
    requires
        all_recorded(before, installed, n),
        only_adds(before, after, t),
    ensures
        all_recorded(after, installed, n),
{
    assert forall|i: int, k: int|
        0 <= i < n && i < installed.len() && 0 <= k < installed[i].dependencies.len()
            implies #[trigger] recorded_at(after, installed, i, k) by {
        assert(recorded_at(before, installed, i, k));
        lemma_edge_stays(
            before,
            after,
            installed[i].package.spec.id(),
            installed[i].dependencies[k],
            t,
        );
    }
}

/// A package with one more dependency still names the dependencies that it
/// named, and names the new one.
pub proof fn lemma_with_dependency(p: LocalPackageView, d: Seq<char>)
    ensures
        with_dependency(p, d).spec.dependencies.contains(d),
        forall|y: Seq<char>|
            p.spec.dependencies.contains(y) ==> with_dependency(p, d).spec.dependencies.contains(y),
{
    let w = with_dependency(p, d).spec.dependencies;
    assert(w[p.spec.dependencies.len() as int] == d);
    assert forall|y: Seq<char>| p.spec.dependencies.contains(y) implies w.contains(y) by {
        let i = choose|i: int| 0 <= i < p.spec.dependencies.len() && p.spec.dependencies[i] == y;
        assert(w[i] == y);
    }
}

/// Whether `p` is `q` but for the dependencies that it names.
pub open spec fn same_but_dependencies(p: LocalPackageView, q: LocalPackageView) -> bool {
    p == (LocalPackageView {
        spec: crate::lockfile::LocalPackageSpecView {
            dependencies: p.spec.dependencies,
            ..q.spec
        },
        ..q
    })
}

/// Whether the package `p`, kept under `id`, comes of what was there: it
/// is, but for its dependencies, the package that `before` kept under
/// `id`, or, where it kept none, one of `installed` with that identifier.
pub open spec fn comes_from(
    before: LockView,
    installed: Seq<InstalledPackageView>,
    id: Seq<char>,
    p: LocalPackageView,
) -> bool {
    match before.get(id) {
        Some(q) => same_but_dependencies(p, q),
        None => exists|i: int|
            0 <= i < installed.len() && (#[trigger] installed[i]).package.spec.id() == id
                && same_but_dependencies(p, installed[i].package),
    }
}

/// Whether `after` comes of `before` by recording packages of `installed`
/// and nothing else: no package is gone, a package whose identifier none
/// of `installed` has is as it was, and every package is, but for its
/// dependencies, the one that was kept under its identifier or else one
/// of `installed`.
pub open spec fn only_records(
    before: LockView,
    after: LockView,
    installed: Seq<InstalledPackageView>,
) -> bool {
    &&& before.ids_within(after)
    &&& forall|id: Seq<char>|
        !is_installed_now(installed, id) ==> #[trigger] after.get(id) == before.get(id)
    &&& forall|id: Seq<char>|
        (#[trigger] after.get(id)) matches Some(p) ==> comes_from(before, installed, id, p)
}

/// Recording after recording is recording.
pub proof fn lemma_records_go_on(
    a: LockView,
    b: LockView,
    c: LockView,
    installed: Seq<InstalledPackageView>,
)
    requires
        only_records(a, b, installed),
        only_records(b, c, installed),
    ensures
        only_records(a, c, installed),
{
    assert forall|id: Seq<char>| (#[trigger] c.get(id)) is Some implies comes_from(
        a,
        installed,
        id,
        c.get(id)->0,
    ) by {
        let p = c.get(id)->0;
        assert(comes_from(b, installed, id, p));
        if b.get(id) is Some {
            let q = b.get(id)->0;
            assert(comes_from(a, installed, id, q));
            if a.get(id) is None {
                let i = choose|i: int|
                    0 <= i < installed.len() && (#[trigger] installed[i]).package.spec.id() == id
                        && same_but_dependencies(q, installed[i].package);
                assert(same_but_dependencies(p, installed[i].package));
            }
        } else {
            assert(!b.has(id));
            assert(!a.has(id));
        }
    }
    assert forall|id: Seq<char>| !is_installed_now(installed, id) implies #[trigger] c.get(id)
        == a.get(id) by {
        assert(b.get(id) == a.get(id));
    }
}

/// A change that leaves every package but those under `t` and `u` as it
/// was, where the two are identifiers of installed packages and what is
/// kept under them comes of what was there, records and does nothing else.
pub proof fn lemma_change_records(
    before: LockView,
    after: LockView,
    installed: Seq<InstalledPackageView>,
    t: Seq<char>,
    u: Seq<char>,
)
    requires
        before.ids_within(after),
        is_installed_now(installed, t),
        is_installed_now(installed, u),
        forall|id: Seq<char>| id != t && id != u ==> #[trigger] after.get(id) == before.get(id),
        after.get(t) matches Some(p) ==> comes_from(before, installed, t, p),
        after.get(u) matches Some(p) ==> comes_from(before, installed, u, p),
    ensures
        only_records(before, after, installed),
{
    assert forall|id: Seq<char>| (#[trigger] after.get(id)) is Some implies comes_from(
        before,
        installed,
        id,
        after.get(id)->0,
    ) by {
        if id != t && id != u {
            assert(after.get(id) == before.get(id));
        }
    }
}

/// The place of the first of `installed` that has the identifier `id`.
fn find_installed(installed: &Vec<InstalledPackage>, id: &LocalPackageId) -> (r: Option<usize>)
    ensures
        match r {
            Some(i) => i < installed@.len() && installed@[i as int]@.package.spec.id() == id@,
            None => !is_installed_now(installed_view(installed@), id@),
        },
{
    let mut i: usize = 0;
    while i < installed.len()
        invariant
            i <= installed.len(),
            forall|j: int|
                0 <= j < i ==> (#[trigger] installed_view(installed@)[j]).package.spec.id() != id@,
        decreases installed.len() - i,
    {
        proof {
            assert(installed_view(installed@)[i as int] == installed@[i as int]@);
        }
        if installed[i].package.id().same_as(id) {
            return Some(i);
        }
        i = i + 1;
    }
    None
}

/// Looks whether every dependency of every installed package is known.
fn check_known(lockfile: &Lockfile<ReadWrite>, installed: &Vec<InstalledPackage>) -> (r: Result<
    (),
    InstallError,
>)
    requires
        lockfile@.lock.wf(),
    ensures
        match r {
            Ok(()) => all_known(lockfile@.lock, installed_view(installed@)),
            Err(InstallError::DependencyNotFound { package, dependency }) => exists|
                i: int,
                k: int,
            | #[trigger]
                first_unknown(lockfile@.lock, installed_view(installed@), i, k)
                    && installed_view(installed@)[i].package.spec.id() == package@
                    && installed_view(installed@)[i].dependencies[k] == dependency@,
        },
{
    let ghost all = installed_view(installed@);
    let mut i: usize = 0;
    while i < installed.len()
        invariant
            i <= installed.len(),
            lockfile@.lock.wf(),
            all == installed_view(installed@),
            forall|a: int, k: int|
                0 <= a < i && 0 <= k < all[a].dependencies.len() ==> #[trigger] known_at(
                    lockfile@.lock,
                    all,
                    a,
                    k,
                ),
        decreases installed.len() - i,
    {
        let deps = &installed[i].dependencies;
        proof {
            assert(all[i as int] == installed@[i as int]@);
        }
        let mut k: usize = 0;
        while k < deps.len()
            invariant
                k <= deps.len(),
                i < installed.len(),
                lockfile@.lock.wf(),
                all == installed_view(installed@),
                deps == &installed@[i as int].dependencies,
                ids_view(deps@) == all[i as int].dependencies,
                forall|a: int, b: int|
                    0 <= a < i && 0 <= b < all[a].dependencies.len() ==> #[trigger] known_at(
                        lockfile@.lock,
                        all,
                        a,
                        b,
                    ),
                forall|j: int| 0 <= j < k ==> #[trigger] known_at(lockfile@.lock, all, i as int, j),
            decreases deps.len() - k,
        {
            proof {
                assert(all[i as int].dependencies[k as int] == deps@[k as int]@);
            }
            let known = match find_installed(installed, &deps[k]) {
                Some(at) => {
                    proof {
                        assert(all[at as int] == installed@[at as int]@);
                        assert(is_installed_now(all, deps@[k as int]@));
                    }
                    true
                },
                None => lockfile.get(&deps[k]).is_some(),
            };
            if !known {
                proof {
                    assert(installed@[i as int]@.dependencies[k as int] == deps@[k as int]@);
                    assert(!known_at(lockfile@.lock, all, i as int, k as int));
                    assert(first_unknown(lockfile@.lock, all, i as int, k as int));
                }
                return Err(
                    InstallError::DependencyNotFound {
                        package: installed[i].package.id(),
                        dependency: deps[k].clone(),
                    },
                );
            }
            proof {
                assert(known_at(lockfile@.lock, all, i as int, k as int));
            }
            k = k + 1;
        }
        i = i + 1;
    }
    Ok(())
}

impl Lockfile<ReadWrite> {
    /// Records the dependencies of one installed package.
    fn record_dependencies(&mut self, installed: &Vec<InstalledPackage>, i: usize)
        requires
            i < installed@.len(),
            old(self)@.lock.wf(),
            all_recorded(old(self)@.lock, installed_view(installed@), i as int),
            forall|k: int|
                0 <= k < installed@[i as int]@.dependencies.len() ==> is_known(
                    old(self)@.lock,
                    installed_view(installed@),
                    #[trigger] installed@[i as int]@.dependencies[k],
                ),
        ensures
            final(self)@.lock.wf(),
            final(self)@ == (LockfileView { lock: final(self)@.lock, ..old(self)@ }),
            final(self)@.lock.entrypoints == old(self)@.lock.entrypoints,
            old(self)@.lock.ids_within(final(self)@.lock),
            all_recorded(final(self)@.lock, installed_view(installed@), i as int + 1),
            only_records(old(self)@.lock, final(self)@.lock, installed_view(installed@)),
    {
        let ghost all = installed_view(installed@);
        let ghost start = self@;
        let this = &installed[i];
        let deps = &this.dependencies;
        let ghost tid = this@.package.spec.id();
        proof {
            assert(all[i as int] == this@);
        }
        let mut k: usize = 0;
        while k < deps.len()
            invariant
                k <= deps.len(),
                i < installed.len(),
                all == installed_view(installed@),
                this == &installed@[i as int],
                deps == &this.dependencies,
                all[i as int] == this@,
                tid == this@.package.spec.id(),
                self@.lock.wf(),
                self@ == (LockfileView { lock: self@.lock, ..start }),
                self@.lock.entrypoints == start.lock.entrypoints,
                start.lock.ids_within(self@.lock),
                only_records(start.lock, self@.lock, all),
                all_recorded(self@.lock, all, i as int),
                forall|j: int|
                    0 <= j < this@.dependencies.len() ==> is_known(
                        self@.lock,
                        all,
                        #[trigger] this@.dependencies[j],
                    ),
                forall|j: int| 0 <= j < k ==> #[trigger] recorded_at(self@.lock, all, i as int, j),
            decreases deps.len() - k,
        {
            let ghost before = self@.lock;
            let ghost did = deps@[k as int]@;
            proof {
                assert(this@.dependencies[k as int] == did);
                assert(is_known(before, all, this@.dependencies[k as int]));
            }
            let ghost other = tid;
            match find_installed(installed, &deps[k]) {
                Some(at) => {
                    self.add_dependency(&this.package, &installed[at].package);
                    proof {
                        other = did;
                        assert(all[at as int] == installed@[at as int]@);
                        assert(is_installed_now(all, did));
                        let given = match before.get(did) {
                            Some(p) => p,
                            None => installed@[at as int]@.package,
                        };
                        assert(same_but_dependencies(given, given));
                    }
                },
                None => {
                    self.add_dependency_id(&this.package, &deps[k]);
                },
            }
            proof {
                let after = self@.lock;
                let base = match before.get(tid) {
                    Some(p) => p,
                    None => this@.package,
                };
                assert(is_installed_now(all, tid));
                assert(same_but_dependencies(with_dependency(base, did), base));
                assert(comes_from(before, all, tid, with_dependency(base, did)));
                lemma_change_records(before, after, all, tid, other);
                lemma_records_go_on(start.lock, before, after, all);
                lemma_with_dependency(base, did);
                assert(only_adds(before, after, tid));
                assert(after.has(did));
                assert(records_edge(after, tid, did));
                lemma_recorded_stay(before, after, all, i as int, tid);
                assert forall|j: int| 0 <= j < k + 1 implies #[trigger] recorded_at(
                    after,
                    all,
                    i as int,
                    j,
                ) by {
                    if j < k {
                        assert(recorded_at(before, all, i as int, j));
                        lemma_edge_stays(before, after, tid, this@.dependencies[j], tid);
                    }
                }
                assert forall|j: int| 0 <= j < this@.dependencies.len() implies is_known(
                    after,
                    all,
                    #[trigger] this@.dependencies[j],
                ) by {
                    assert(is_known(before, all, this@.dependencies[j]));
                }
            }
            k = k + 1;
        }
        proof {
            assert forall|a: int, j: int|
                0 <= a < i + 1 && a < all.len() && 0 <= j < all[a].dependencies.len()
                    implies #[trigger] recorded_at(self@.lock, all, a, j) by {
                if a < i {
                    assert(recorded_at(self@.lock, all, a, j));
                }
            }
        }
    }

    /// Records what was installed: each entrypoint as an entrypoint, and
    /// for each package each of its dependencies, taken from what was
    /// installed now or else from the lockfile. Nothing is recorded where a
    /// dependency is not there to be taken: the error then names the first
    /// such dependency and the package that has it. Where every dependency
    /// is there, the call succeeds.
    pub fn record_installed(&mut self, installed: &Vec<InstalledPackage>) -> (r: Result<
        (),
        InstallError,
    >)
        requires
            old(self)@.lock.wf(),
        ensures
            final(self)@.lock.wf(),
            final(self)@ == (LockfileView { lock: final(self)@.lock, ..old(self)@ }),
            r is Ok <==> all_known(old(self)@.lock, installed_view(installed@)),
            match r {
                Ok(()) => {
                    &&& all_known(old(self)@.lock, installed_view(installed@))
                    &&& old(self)@.lock.ids_within(final(self)@.lock)
                    &&& final(self)@.lock.entrypoints == old(self)@.lock.entrypoints
                        + entrypoint_ids(installed_view(installed@), installed@.len())
                    &&& all_recorded(
                        final(self)@.lock,
                        installed_view(installed@),
                        installed@.len() as int,
                    )
                    &&& only_records(
                        old(self)@.lock,
                        final(self)@.lock,
                        installed_view(installed@),
                    )
                },
                Err(InstallError::DependencyNotFound { package, dependency }) => {
                    &&& final(self)@ == old(self)@
                    &&& exists|i: int, k: int| #[trigger]
                        first_unknown(old(self)@.lock, installed_view(installed@), i, k)
                            && installed_view(installed@)[i].package.spec.id() == package@
                            && installed_view(installed@)[i].dependencies[k] == dependency@
                },
            },
    {
        match check_known(self, installed) {
            Err(e) => {
                proof {
                    let all = installed_view(installed@);
                    let (i, k) = choose|i: int, k: int| #[trigger]
                        first_unknown(self@.lock, all, i, k) && all[i].package.spec.id()
                            == e->package@ && all[i].dependencies[k] == e->dependency@;
                    assert(!known_at(self@.lock, all, i, k));
                }
                return Err(e);
            },
            Ok(()) => {},
        }
        let ghost all = installed_view(installed@);
        let ghost start = self@;
        let mut i: usize = 0;
        proof {
            assert(start.lock.entrypoints + entrypoint_ids(all, 0) =~= start.lock.entrypoints);
        }
        while i < installed.len()
            invariant
                i <= installed.len(),
                all == installed_view(installed@),
                start == old(self)@,
                all_known(start.lock, all),
                self@.lock.wf(),
                self@ == (LockfileView { lock: self@.lock, ..start }),
                start.lock.ids_within(self@.lock),
                self@.lock.entrypoints == start.lock.entrypoints + entrypoint_ids(all, i as nat),
                only_records(start.lock, self@.lock, all),
                all_recorded(self@.lock, all, i as int),
            decreases installed.len() - i,
        {
            let ghost before = self@.lock;
            let this = &installed[i];
            proof {
                assert(all[i as int] == this@);
            }
            match this.entry_type {
                EntryType::Entrypoint => {
                    self.add_entrypoint(&this.package);
                    proof {
                        assert((start.lock.entrypoints + entrypoint_ids(all, i as nat)).push(
                            this@.package.spec.id(),
                        ) =~= start.lock.entrypoints + entrypoint_ids(all, (i + 1) as nat));
                        assert(only_adds(before, self@.lock, this@.package.spec.id()));
                        assert(is_installed_now(all, this@.package.spec.id()));
                        let kept = match before.get(this@.package.spec.id()) {
                            Some(p) => p,
                            None => this@.package,
                        };
                        assert(same_but_dependencies(kept, kept));
                        lemma_change_records(
                            before,
                            self@.lock,
                            all,
                            this@.package.spec.id(),
                            this@.package.spec.id(),
                        );
                        lemma_records_go_on(start.lock, before, self@.lock, all);
                        lemma_recorded_stay(
                            before,
                            self@.lock,
                            all,
                            i as int,
                            this@.package.spec.id(),
                        );
                    }
                },
                EntryType::DependencyOnly => {},
            }
            proof {
                assert forall|k: int| 0 <= k < this@.dependencies.len() implies is_known(
                    self@.lock,
                    all,
                    #[trigger] this@.dependencies[k],
                ) by {
                    assert(known_at(start.lock, all, i as int, k));
                }
            }
            let ghost mid = self@.lock;
            self.record_dependencies(installed, i);
            proof {
                lemma_records_go_on(start.lock, mid, self@.lock, all);
            }
            i = i + 1;
        }
        Ok(())
    }
}

} // verus!
