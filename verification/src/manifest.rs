//! The remote index of a server: which packages it offers, in which
//! versions and as which kinds of artifact, and which of them answers a
//! requirement best.

use crate::package::{
    lowercase, PackageName, PackageReq, PackageReqView, PackageSpec, PackageSpecView,
    RemotePackage, RemotePackageSource, RemotePackageSourceView, RemotePackageType,
    RemotePackageTypeFilterSpec,
};
use crate::semantic::Sign;
use crate::text::{chars_of, str_eq};
use crate::version::{
    int_order, parse_version_spec, text_order, version_order, version_text, PackageVersion,
    PackageVersionView,
};
use crate::version_req::req_matches;
use vstd::prelude::*;

verus! {

/// One version of a package in the index, with the kinds of artifact that
/// the server has of it.
#[derive(Debug, PartialEq, Eq)]
pub struct ManifestVersion {
    pub version: PackageVersion,
    pub kinds: Vec<RemotePackageType>,
}

/// One package of the index with its versions.
#[derive(Debug, PartialEq, Eq)]
pub struct ManifestPackage {
    pub name: PackageName,
    pub versions: Vec<ManifestVersion>,
}

/// The index of a server.
#[derive(Debug, PartialEq, Eq)]
pub struct ManifestMetadata {
    repository: Vec<ManifestPackage>,
}

impl View for ManifestVersion {
    type V = (PackageVersionView, Seq<RemotePackageType>);

    open spec fn view(&self) -> (PackageVersionView, Seq<RemotePackageType>) {
        (self.version@, self.kinds@)
    }
}

/// The views of a sequence of versions of the index.
pub open spec fn versions_view(versions: Seq<ManifestVersion>) -> Seq<
    (PackageVersionView, Seq<RemotePackageType>),
> {
    versions.map_values(|v: ManifestVersion| v@)
}

impl View for ManifestPackage {
    type V = (Seq<char>, Seq<(PackageVersionView, Seq<RemotePackageType>)>);

    open spec fn view(&self) -> (Seq<char>, Seq<(PackageVersionView, Seq<RemotePackageType>)>) {
        (self.name@, versions_view(self.versions@))
    }
}

/// The views of a sequence of packages of the index.
pub open spec fn repository_view(packages: Seq<ManifestPackage>) -> Seq<
    (Seq<char>, Seq<(PackageVersionView, Seq<RemotePackageType>)>),
> {
    packages.map_values(|p: ManifestPackage| p@)
}

impl View for ManifestMetadata {
    type V = Seq<(Seq<char>, Seq<(PackageVersionView, Seq<RemotePackageType>)>)>;

    closed spec fn view(&self) -> Self::V {
        repository_view(self.repository@)
    }
}

/// What the index says of one version before it is read: the text of the
/// version and, for each of its artifacts, the architecture tag, if the
/// index gives it one.
#[derive(Debug, PartialEq, Eq)]
pub struct VersionEntry {
    pub version: String,
    pub archs: Vec<Option<String>>,
}

/// What the index says of one package before it is read.
#[derive(Debug, PartialEq, Eq)]
pub struct RepositoryEntry {
    pub name: String,
    pub versions: Vec<VersionEntry>,
}

/// The kind of artifact that an architecture tag stands for: `rockspec` is
/// the rockspec alone, `src` a source archive, and `all` and the tag of the
/// running platform are binary archives. Other tags stand for nothing that
/// can be used here.
pub open spec fn kind_of_arch(arch: Seq<char>, platform: Seq<char>) -> Option<RemotePackageType> {
    if arch == "rockspec"@ {
        Some(RemotePackageType::Rockspec)
    } else if arch == "src"@ {
        Some(RemotePackageType::Src)
    } else if arch == "all"@ {
        Some(RemotePackageType::Binary)
    } else if arch == platform {
        Some(RemotePackageType::Binary)
    } else {
        None
    }
}

/// The kind that the tag of an artifact stands for, where it has a tag.
pub open spec fn kind_of_tag(tag: Option<Seq<char>>, platform: Seq<char>) -> Option<
    RemotePackageType,
> {
    match tag {
        Some(arch) => kind_of_arch(arch, platform),
        None => None,
    }
}

/// The kinds that the tags `archs` stand for, unknown tags dropped.
pub open spec fn kinds_of(archs: Seq<Option<Seq<char>>>, platform: Seq<char>) -> Seq<
    RemotePackageType,
>
    decreases archs.len(),
{
    if archs.len() == 0 {
        Seq::<RemotePackageType>::empty()
    } else {
        match kind_of_tag(archs.last(), platform) {
            Some(k) => kinds_of(archs.drop_last(), platform).push(k),
            None => kinds_of(archs.drop_last(), platform),
        }
    }
}

/// A candidate for a requirement: a version and a kind of artifact.
pub type Candidate = (PackageVersionView, RemotePackageType);

/// How two candidates compare: by version, then by kind (a binary archive
/// before a source archive before a rockspec), then by the text of the
/// version.
pub open spec fn candidate_order(a: Candidate, b: Candidate) -> Sign {
    match version_order(a.0, b.0) {
        Sign::Less => Sign::Less,
        Sign::Greater => Sign::Greater,
        Sign::Equal => if a.1.rank() != b.1.rank() {
            int_order(a.1.rank(), b.1.rank())
        } else {
            text_order(version_text(a.0), version_text(b.0))
        },
    }
}

/// The best of `candidates`: each one is held against the best of those
/// before it, and takes its place unless that one is greater.
pub open spec fn best(candidates: Seq<Candidate>) -> Option<Candidate>
    decreases candidates.len(),
{
    if candidates.len() == 0 {
        None
    } else {
        match best(candidates.drop_last()) {
            None => Some(candidates.last()),
            Some(b) => if candidate_order(b, candidates.last()) == Sign::Greater {
                Some(b)
            } else {
                Some(candidates.last())
            },
        }
    }
}

/// The best candidate is one of the candidates.
pub proof fn lemma_best_is_candidate(candidates: Seq<Candidate>)
    ensures
        match best(candidates) {
            Some(b) => candidates.contains(b),
            None => candidates.len() == 0,
        },
    decreases candidates.len(),
{
    if candidates.len() > 0 {
        lemma_best_is_candidate(candidates.drop_last());
        match best(candidates.drop_last()) {
            Some(b) => {
                if candidate_order(b, candidates.last()) == Sign::Greater {
                    let i = choose|i: int|
                        0 <= i < candidates.drop_last().len() && candidates.drop_last()[i] == b;
                    assert(candidates[i] == b);
                } else {
                    assert(candidates[candidates.len() - 1] == candidates.last());
                }
            },
            None => {
                assert(candidates[candidates.len() - 1] == candidates.last());
            },
        }
    }
}

/// Whether `a` is not less than `b`.
pub open spec fn not_less(a: Candidate, b: Candidate) -> bool {
    candidate_order(a, b) != Sign::Less
}

/// Whether the order of candidates is an order on `candidates`: whatever
/// is not greater is not less the other way round, and what is not less
/// than something that is not less than a third is not less than the third.
/// For semantic versions this rests on the order of the `semver` crate.
pub open spec fn ordered(candidates: Seq<Candidate>) -> bool {
    &&& forall|i: int, j: int|
        0 <= i < candidates.len() && 0 <= j < candidates.len() && #[trigger] candidate_order(
            candidates[i],
            candidates[j],
        ) != Sign::Greater ==> not_less(candidates[j], candidates[i])
    &&& forall|i: int, j: int, k: int|
        0 <= i < candidates.len() && 0 <= j < candidates.len() && 0 <= k < candidates.len()
            && #[trigger] not_less(candidates[i], candidates[j]) && #[trigger] not_less(
            candidates[j],
            candidates[k],
        ) ==> not_less(candidates[i], candidates[k])
}

/// Where the order of candidates is an order on them, the best candidate
/// is the greatest: it is not less than any of them.
pub proof fn lemma_best_is_greatest(candidates: Seq<Candidate>, i: int)
    requires
        ordered(candidates),
        0 <= i < candidates.len(),
    ensures
        best(candidates) matches Some(b) && not_less(b, candidates[i]),
    decreases candidates.len(),
{
    let n = candidates.len() - 1;
    let before = candidates.drop_last();
    let last = candidates.last();
    lemma_best_is_candidate(candidates);
    assert forall|x: int| 0 <= x < before.len() implies before[x] == candidates[x] by {}
    if before.len() == 0 {
        assert(candidate_order(candidates[n], candidates[n]) != Sign::Greater ==> not_less(
            candidates[n],
            candidates[n],
        ));
    } else {
        assert(ordered(before)) by {
            assert forall|a: int, b: int|
                0 <= a < before.len() && 0 <= b < before.len() && #[trigger] candidate_order(
                    before[a],
                    before[b],
                ) != Sign::Greater implies not_less(before[b], before[a]) by {
                assert(candidate_order(candidates[a], candidates[b]) != Sign::Greater);
            }
            assert forall|a: int, b: int, c: int|
                0 <= a < before.len() && 0 <= b < before.len() && 0 <= c < before.len()
                    && #[trigger] not_less(before[a], before[b]) && #[trigger] not_less(
                    before[b],
                    before[c],
                ) implies not_less(before[a], before[c]) by {
                assert(not_less(candidates[a], candidates[b]));
                assert(not_less(candidates[b], candidates[c]));
            }
        }
        lemma_best_is_candidate(before);
        let b = best(before)->0;
        let at = choose|at: int| 0 <= at < before.len() && before[at] == b;
        assert(candidates[at] == b);
        if candidate_order(b, last) == Sign::Greater {
            if i < n {
                lemma_best_is_greatest(before, i);
            }
        } else {
            assert(candidate_order(candidates[at], candidates[n]) != Sign::Greater);
            assert(not_less(candidates[n], candidates[at]));
            if i < n {
                lemma_best_is_greatest(before, i);
                assert(not_less(candidates[at], candidates[i]));
                assert(not_less(candidates[n], candidates[i]));
            } else {
                assert(not_less(candidates[at], candidates[at])) by {
                    lemma_best_is_greatest(before, at);
                }
                if candidate_order(candidates[n], candidates[n]) == Sign::Less {
                    assert(candidate_order(candidates[n], candidates[n]) != Sign::Greater);
                }
            }
        }
    }
}

/// The candidates that the kinds `kinds` of one version give under a
/// filter.
pub open spec fn kind_candidates(
    version: PackageVersionView,
    kinds: Seq<RemotePackageType>,
    filter: RemotePackageTypeFilterSpec,
) -> Seq<Candidate>
    decreases kinds.len(),
{
    if kinds.len() == 0 {
        Seq::<Candidate>::empty()
    } else if filter.admits(kinds.last()) {
        kind_candidates(version, kinds.drop_last(), filter).push((version, kinds.last()))
    } else {
        kind_candidates(version, kinds.drop_last(), filter)
    }
}

/// The candidates for a requirement among the versions of a package: every
/// admitted version with every kind that the filter lets through.
pub open spec fn candidates(
    versions: Seq<(PackageVersionView, Seq<RemotePackageType>)>,
    req: PackageReqView,
    filter: RemotePackageTypeFilterSpec,
) -> Seq<Candidate>
    decreases versions.len(),
{
    if versions.len() == 0 {
        Seq::<Candidate>::empty()
    } else if req_matches(req.version_req, versions.last().0) {
        candidates(versions.drop_last(), req, filter) + kind_candidates(
            versions.last().0,
            versions.last().1,
            filter,
        )
    } else {
        candidates(versions.drop_last(), req, filter)
    }
}

/// The versions that the index has of the package `name`: those of the
/// first package of that name.
pub open spec fn versions_of(
    repository: Seq<(Seq<char>, Seq<(PackageVersionView, Seq<RemotePackageType>)>)>,
    name: Seq<char>,
) -> Option<Seq<(PackageVersionView, Seq<RemotePackageType>)>>
    decreases repository.len(),
{
    if repository.len() == 0 {
        None
    } else if repository.first().0 == name {
        Some(repository.first().1)
    } else {
        versions_of(repository.drop_first(), name)
    }
}

/// What answers a requirement best: nothing where the index does not have
/// the package or has no admitted version of a kind that the filter lets
/// through, else the best of the candidates.
pub open spec fn latest_match_spec(
    repository: Seq<(Seq<char>, Seq<(PackageVersionView, Seq<RemotePackageType>)>)>,
    req: PackageReqView,
    filter: RemotePackageTypeFilterSpec,
) -> Option<Candidate> {
    match versions_of(repository, req.name) {
        None => None,
        Some(versions) => best(candidates(versions, req, filter)),
    }
}

/// The filter that is meant where none is given: everything passes.
pub open spec fn filter_or_default(filter: Option<RemotePackageTypeFilterSpec>)
    -> RemotePackageTypeFilterSpec {
    match filter {
        Some(f) => f,
        None => RemotePackageTypeFilterSpec { rockspec: true, src: true, binary: true },
    }
}

/// The kind of artifact that the architecture tag `arch` stands for on the
/// platform with the tag `platform`.
pub fn remote_package_type(arch: &str, platform: &str) -> (r: Option<RemotePackageType>)
    ensures
        r == kind_of_arch(arch@, platform@),
{
    if str_eq(arch, "rockspec") {
        Some(RemotePackageType::Rockspec)
    } else if str_eq(arch, "src") {
        Some(RemotePackageType::Src)
    } else if str_eq(arch, "all") {
        Some(RemotePackageType::Binary)
    } else if str_eq(arch, platform) {
        Some(RemotePackageType::Binary)
    } else {
        None
    }
}

/// Compares two candidates.
fn compare_candidates(
    a: &PackageVersion,
    a_kind: RemotePackageType,
    b: &PackageVersion,
    b_kind: RemotePackageType,
) -> (r: Sign)
    ensures
        r == candidate_order((a@, a_kind), (b@, b_kind)),
{
    match a.compare(b) {
        Sign::Less => Sign::Less,
        Sign::Greater => Sign::Greater,
        Sign::Equal => {
            if a_kind.priority() != b_kind.priority() {
                crate::version::order_u64(a_kind.priority() as u64, b_kind.priority() as u64)
            } else {
                crate::version::order_chars(
                    &chars_of(a.to_string().as_str()),
                    &chars_of(b.to_string().as_str()),
                )
            }
        },
    }
}

/// The view of a tag that may be missing.
pub open spec fn tag_view(tag: Option<String>) -> Option<Seq<char>> {
    match tag {
        Some(t) => Some(t@),
        None => None,
    }
}

/// The views of a sequence of tags.
pub open spec fn tags_view(tags: Seq<Option<String>>) -> Seq<Option<Seq<char>>> {
    tags.map_values(|t: Option<String>| tag_view(t))
}

/// The kinds that the tags `archs` stand for.
fn read_kinds(archs: &Vec<Option<String>>, platform: &str) -> (r: Vec<RemotePackageType>)
    ensures
        r@ == kinds_of(tags_view(archs@), platform@),
{
    let ghost all = tags_view(archs@);
    let mut out: Vec<RemotePackageType> = Vec::new();
    let mut i: usize = 0;
    while i < archs.len()
        invariant
            i <= archs.len(),
            all == tags_view(archs@),
            out@ == kinds_of(all.take(i as int), platform@),
        decreases archs.len() - i,
    {
        proof {
            assert(all.take(i as int + 1).drop_last() =~= all.take(i as int));
            assert(all.take(i as int + 1).last() == tag_view(archs@[i as int]));
        }
        let kind = match &archs[i] {
            Some(arch) => remote_package_type(arch.as_str(), platform),
            None => None,
        };
        match kind {
            Some(k) => {
                out.push(k);
            },
            None => {},
        }
        i = i + 1;
    }
    proof {
        assert(all.take(archs.len() as int) =~= all);
    }
    out
}

/// What is read of the entries of one package: the versions whose text is a
/// version, with the kinds that their tags stand for.
pub open spec fn read_versions(
    entries: Seq<(Seq<char>, Seq<Option<Seq<char>>>)>,
    platform: Seq<char>,
) -> Seq<(PackageVersionView, Seq<RemotePackageType>)>
    decreases entries.len(),
{
    if entries.len() == 0 {
        Seq::<(PackageVersionView, Seq<RemotePackageType>)>::empty()
    } else {
        match parse_version_spec(entries.last().0) {
            Ok(v) => read_versions(entries.drop_last(), platform).push(
                (v, kinds_of(entries.last().1, platform)),
            ),
            Err(_) => read_versions(entries.drop_last(), platform),
        }
    }
}

impl View for VersionEntry {
    type V = (Seq<char>, Seq<Option<Seq<char>>>);

    open spec fn view(&self) -> (Seq<char>, Seq<Option<Seq<char>>>) {
        (self.version@, tags_view(self.archs@))
    }
}

/// The views of a sequence of raw versions.
pub open spec fn version_entries_view(entries: Seq<VersionEntry>) -> Seq<
    (Seq<char>, Seq<Option<Seq<char>>>),
> {
    entries.map_values(|e: VersionEntry| e@)
}

impl View for RepositoryEntry {
    type V = (Seq<char>, Seq<(Seq<char>, Seq<Option<Seq<char>>>)>);

    open spec fn view(&self) -> (Seq<char>, Seq<(Seq<char>, Seq<Option<Seq<char>>>)>) {
        (self.name@, version_entries_view(self.versions@))
    }
}

/// The views of a sequence of raw packages.
pub open spec fn entries_view(entries: Seq<RepositoryEntry>) -> Seq<
    (Seq<char>, Seq<(Seq<char>, Seq<Option<Seq<char>>>)>),
> {
    entries.map_values(|e: RepositoryEntry| e@)
}

/// What is read of a raw index: each package under its name in lower case,
/// with what is read of its entries.
pub open spec fn read_repository(
    entries: Seq<(Seq<char>, Seq<(Seq<char>, Seq<Option<Seq<char>>>)>)>,
    platform: Seq<char>,
) -> Seq<(Seq<char>, Seq<(PackageVersionView, Seq<RemotePackageType>)>)> {
    entries.map_values(
        |e: (Seq<char>, Seq<(Seq<char>, Seq<Option<Seq<char>>>)>)|
            (lowercase(e.0), read_versions(e.1, platform)),
    )
}

/// Reads the entries of one package.
fn read_version_entries(entries: &Vec<VersionEntry>, platform: &str) -> (r: Vec<ManifestVersion>)
    ensures
        versions_view(r@) == read_versions(version_entries_view(entries@), platform@),
{
    let ghost all = version_entries_view(entries@);
    let mut out: Vec<ManifestVersion> = Vec::new();
    let mut i: usize = 0;
    while i < entries.len()
        invariant
            i <= entries.len(),
            all == version_entries_view(entries@),
            versions_view(out@) == read_versions(all.take(i as int), platform@),
        decreases entries.len() - i,
    {
        proof {
            assert(all.take(i as int + 1).drop_last() =~= all.take(i as int));
            assert(all.take(i as int + 1).last() == entries@[i as int]@);
        }
        match PackageVersion::parse(entries[i].version.as_str()) {
            Ok(version) => {
                let ghost before = out@;
                let v = ManifestVersion { version, kinds: read_kinds(&entries[i].archs, platform) };
                out.push(v);
                proof {
                    assert(versions_view(before.push(v)) =~= versions_view(before).push(v@));
                }
            },
            Err(_) => {},
        }
        i = i + 1;
    }
    proof {
        assert(all.take(entries.len() as int) =~= all);
    }
    out
}

/// Why a manifest could not be read: the message tells what is wrong
/// with it.
#[derive(Debug, PartialEq, Eq)]
pub struct ManifestLuaError(pub String);

/// Whether every artifact of a version has an architecture tag.
pub open spec fn version_tagged(version: (Seq<char>, Seq<Option<Seq<char>>>)) -> bool {
    forall|k: int| 0 <= k < version.1.len() ==> (#[trigger] version.1[k]) is Some
}

/// Whether every artifact of a package has an architecture tag.
pub open spec fn package_tagged(package: (Seq<char>, Seq<(Seq<char>, Seq<Option<Seq<char>>>)>))
    -> bool {
    forall|j: int| 0 <= j < package.1.len() ==> version_tagged(#[trigger] package.1[j])
}

/// Whether every artifact of a raw index has an architecture tag.
pub open spec fn all_tagged(entries: Seq<(Seq<char>, Seq<(Seq<char>, Seq<Option<Seq<char>>>)>)>)
    -> bool {
    forall|i: int| 0 <= i < entries.len() ==> package_tagged(#[trigger] entries[i])
}

/// Whether the version at the place `j` of the package at the place `i` is
/// the first of a raw index with an artifact that has no architecture tag.
pub open spec fn first_untagged(
    entries: Seq<(Seq<char>, Seq<(Seq<char>, Seq<Option<Seq<char>>>)>)>,
    i: int,
    j: int,
) -> bool {
    &&& 0 <= i < entries.len()
    &&& 0 <= j < entries[i].1.len()
    &&& forall|a: int| 0 <= a < i ==> package_tagged(#[trigger] entries[a])
    &&& forall|b: int| 0 <= b < j ==> version_tagged(#[trigger] entries[i].1[b])
    &&& !version_tagged(entries[i].1[j])
}

/// The message for an artifact without an architecture tag.
pub open spec fn untagged_message(package: Seq<char>, version: Seq<char>) -> Seq<char> {
    "missing field `arch` in "@ + package + " "@ + version
}

/// Whether every artifact of `version` has an architecture tag.
fn is_tagged(version: &VersionEntry) -> (r: bool)
    ensures
        r == version_tagged(version@),
{
    let mut k: usize = 0;
    while k < version.archs.len()
        invariant
            k <= version.archs.len(),
            forall|c: int| 0 <= c < k ==> (#[trigger] version@.1[c]) is Some,
        decreases version.archs.len() - k,
    {
        proof {
            assert(version@.1[k as int] == tag_view(version.archs@[k as int]));
        }
        if version.archs[k].is_none() {
            return false;
        }
        k = k + 1;
    }
    true
}

/// The place of the first version of `package` with an artifact that has
/// no architecture tag.
fn find_untagged_version(package: &RepositoryEntry) -> (r: Option<usize>)
    ensures
        match r {
            Some(j) => j < package@.1.len() && !version_tagged(package@.1[j as int]) && forall|
                b: int,
            | 0 <= b < j ==> version_tagged(#[trigger] package@.1[b]),
            None => package_tagged(package@),
        },
{
    let mut j: usize = 0;
    while j < package.versions.len()
        invariant
            j <= package.versions.len(),
            forall|b: int| 0 <= b < j ==> version_tagged(#[trigger] package@.1[b]),
        decreases package.versions.len() - j,
    {
        proof {
            assert(package@.1[j as int] == package.versions@[j as int]@);
        }
        if !is_tagged(&package.versions[j]) {
            return Some(j);
        }
        j = j + 1;
    }
    None
}

impl ManifestMetadata {
    /// The index that the raw entries `entries` describe on the platform
    /// with the tag `platform`. Versions whose text is no version and
    /// artifacts with unknown tags are silently left out. An artifact
    /// without a tag is refused: the error names the first version that has
    /// one.
    pub fn from_intermediate(entries: &Vec<RepositoryEntry>, platform: &str) -> (r: Result<
        Self,
        ManifestLuaError,
    >)
        ensures
            match r {
                Ok(index) => all_tagged(entries_view(entries@)) && index@ == read_repository(
                    entries_view(entries@),
                    platform@,
                ),
                Err(e) => exists|i: int, j: int| #[trigger]
                    first_untagged(entries_view(entries@), i, j) && e.0@ == untagged_message(
                        entries_view(entries@)[i].0,
                        entries_view(entries@)[i].1[j].0,
                    ),
            },
    {
        let ghost all = entries_view(entries@);
        let mut repository: Vec<ManifestPackage> = Vec::new();
        let mut i: usize = 0;
        while i < entries.len()
            invariant
                i <= entries.len(),
                all == entries_view(entries@),
                forall|a: int| 0 <= a < i ==> package_tagged(#[trigger] all[a]),
                repository_view(repository@) == read_repository(all, platform@).take(i as int),
            decreases entries.len() - i,
        {
            proof {
                assert(all[i as int] == entries@[i as int]@);
            }
            match find_untagged_version(&entries[i]) {
                Some(j) => {
                    let mut message = chars_of("missing field `arch` in ");
                    crate::text::append_str(&mut message, entries[i].name.as_str());
                    crate::text::append_str(&mut message, " ");
                    crate::text::append_str(
                        &mut message,
                        entries[i].versions[j].version.as_str(),
                    );
                    proof {
                        assert(all[i as int].1[j as int] == entries@[i as int].versions@[j as int]@);
                        assert(first_untagged(all, i as int, j as int));
                    }
                    return Err(ManifestLuaError(crate::text::string_of(&message)));
                },
                None => {},
            }
            let ghost before = repository@;
            let p = ManifestPackage {
                name: PackageName::new(entries[i].name.as_str()),
                versions: read_version_entries(&entries[i].versions, platform),
            };
            repository.push(p);
            proof {
                assert(repository_view(before.push(p)) =~= repository_view(before).push(p@));
                assert(read_repository(all, platform@).take(i as int).push(p@) =~= read_repository(
                    all,
                    platform@,
                ).take(i as int + 1));
            }
            i = i + 1;
        }
        proof {
            assert(read_repository(all, platform@).take(entries.len() as int) =~= read_repository(
                all,
                platform@,
            ));
        }
        Ok(ManifestMetadata { repository })
    }

    /// The place of the first package of the name `name`.
    fn find_package(&self, name: &PackageName) -> (r: Option<usize>)
        ensures
            match r {
                Some(i) => i < self@.len() && versions_of(self@, name@) == Some(self@[i as int].1),
                None => versions_of(self@, name@) is None,
            },
    {
        let mut i: usize = 0;
        proof {
            assert(self@.skip(0) =~= self@);
        }
        while i < self.repository.len()
            invariant
                i <= self.repository.len(),
                versions_of(self@, name@) == versions_of(self@.skip(i as int), name@),
            decreases self.repository.len() - i,
        {
            proof {
                assert(self@.skip(i as int).first() == self.repository@[i as int]@);
                assert(self@.skip(i as int).drop_first() =~= self@.skip(i as int + 1));
            }
            if self.repository[i].name.same_as(name) {
                return Some(i);
            }
            i = i + 1;
        }
        proof {
            assert(self@.skip(self.repository.len() as int).len() == 0);
        }
        None
    }

    /// Whether the index has a package of the name `rock_name`.
    pub fn has_rock(&self, rock_name: &PackageName) -> (r: bool)
        ensures
            r == (versions_of(self@, rock_name@) is Some),
    {
        self.find_package(rock_name).is_some()
    }

    /// What answers `lua_package_req` best: of the versions that the
    /// requirement admits and the kinds that the filter lets through, the
    /// greatest version in its most preferred kind.
    pub fn latest_match(
        &self,
        lua_package_req: &PackageReq,
        filter: Option<RemotePackageTypeFilterSpec>,
    ) -> (r: Option<(PackageSpec, RemotePackageType)>)
        ensures
            match r {
                Some((spec, kind)) => latest_match_spec(
                    self@,
                    lua_package_req@,
                    filter_or_default(filter),
                ) == Some((spec@.version, kind)) && spec@.name == lua_package_req@.name,
                None => latest_match_spec(self@, lua_package_req@, filter_or_default(filter))
                     is None,
            },
    {
        let filter = match filter {
            Some(f) => f,
            None => RemotePackageTypeFilterSpec { rockspec: true, src: true, binary: true },
        };
        let at = match self.find_package(lua_package_req.name()) {
            Some(at) => at,
            None => {
                return None;
            },
        };
        let versions = &self.repository[at].versions;
        let ghost all = versions_view(versions@);
        let ghost req = lua_package_req@;
        proof {
            assert(self@[at as int].1 == all);
        }
        let mut found: Option<(usize, RemotePackageType)> = None;
        let mut i: usize = 0;
        while i < versions.len()
            invariant
                i <= versions.len(),
                all == versions_view(versions@),
                req == lua_package_req@,
                match found {
                    Some((at, kind)) => at < versions.len() && best(
                        candidates(all.take(i as int), req, filter),
                    ) == Some((versions@[at as int].version@, kind)),
                    None => best(candidates(all.take(i as int), req, filter)) is None,
                },
            decreases versions.len() - i,
        {
            proof {
                assert(all.take(i as int + 1).drop_last() =~= all.take(i as int));
                assert(all.take(i as int + 1).last() == versions@[i as int]@);
            }
            if lua_package_req.version_req().matches(&versions[i].version) {
                let kinds = &versions[i].kinds;
                let ghost done = candidates(all.take(i as int), req, filter);
                let ghost version = versions@[i as int].version@;
                let mut k: usize = 0;
                proof {
                    assert(kinds@.take(0) =~= Seq::<RemotePackageType>::empty());
                    assert(done + kind_candidates(version, kinds@.take(0), filter) =~= done);
                }
                while k < kinds.len()
                    invariant
                        k <= kinds.len(),
                        i < versions.len(),
                        kinds@ == versions@[i as int].kinds@,
                        version == versions@[i as int].version@,
                        match found {
                            Some((at, kind)) => at < versions.len() && best(
                                done + kind_candidates(version, kinds@.take(k as int), filter),
                            ) == Some((versions@[at as int].version@, kind)),
                            None => best(
                                done + kind_candidates(version, kinds@.take(k as int), filter),
                            ) is None,
                        },
                    decreases kinds.len() - k,
                {
                    proof {
                        assert(kinds@.take(k as int + 1).drop_last() =~= kinds@.take(k as int));
                        assert(kinds@.take(k as int + 1).last() == kinds@[k as int]);
                    }
                    let kind = kinds[k];
                    if filter.includes(kind) {
                        proof {
                            let before = done + kind_candidates(
                                version,
                                kinds@.take(k as int),
                                filter,
                            );
                            let after = done + kind_candidates(
                                version,
                                kinds@.take(k as int + 1),
                                filter,
                            );
                            assert(after =~= before.push((version, kind)));
                            assert(after.drop_last() =~= before);
                        }
                        let replace = match found {
                            Some((at, best_kind)) => {
                                match compare_candidates(
                                    &versions[at].version,
                                    best_kind,
                                    &versions[i].version,
                                    kind,
                                ) {
                                    Sign::Greater => false,
                                    _ => true,
                                }
                            },
                            None => true,
                        };
                        if replace {
                            found = Some((i, kind));
                        }
                    }
                    k = k + 1;
                }
                proof {
                    assert(kinds@.take(kinds.len() as int) =~= kinds@);
                }
            }
            i = i + 1;
        }
        proof {
            assert(all.take(versions.len() as int) =~= all);
        }
        match found {
            Some((at, kind)) => Some(
                (
                    PackageSpec::new(lua_package_req.name().clone(), versions[at].version.clone()),
                    kind,
                ),
            ),
            None => None,
        }
    }
}

/// The index of a server together with the URL of the server.
#[derive(Debug, PartialEq, Eq)]
pub struct Manifest {
    server_url: String,
    metadata: ManifestMetadata,
}

/// Where a package of the kind `kind` comes from on the server `url`.
pub open spec fn source_of(kind: RemotePackageType, url: Seq<char>) -> RemotePackageSourceView {
    match kind {
        RemotePackageType::Rockspec => RemotePackageSourceView::LuarocksRockspec(url),
        RemotePackageType::Src => RemotePackageSourceView::LuarocksSrcRock(url),
        RemotePackageType::Binary => RemotePackageSourceView::LuarocksBinaryRock(url),
    }
}

impl Manifest {
    /// The index `metadata` of the server at `server_url`.
    pub fn new(server_url: String, metadata: ManifestMetadata) -> (r: Self)
        ensures
            r.server_url()@ == server_url@,
            r.metadata()@ == metadata@,
    {
        Manifest { server_url, metadata }
    }

    /// The URL of the server.
    pub closed spec fn spec_server_url(&self) -> &String {
        &self.server_url
    }

    /// The index.
    pub closed spec fn spec_metadata(&self) -> &ManifestMetadata {
        &self.metadata
    }

    /// The URL of the server.
    #[verifier::when_used_as_spec(spec_server_url)]
    pub fn server_url(&self) -> (r: &String)
        ensures
            r == self.spec_server_url(),
    {
        &self.server_url
    }

    /// The index.
    #[verifier::when_used_as_spec(spec_metadata)]
    pub fn metadata(&self) -> (r: &ManifestMetadata)
        ensures
            r == self.spec_metadata(),
    {
        &self.metadata
    }

    /// The package of the server that answers `package_req` best, if the
    /// index has one.
    pub fn find(&self, package_req: &PackageReq, filter: Option<RemotePackageTypeFilterSpec>) -> (r:
        Option<RemotePackage>)
        ensures
            match r {
                Some(p) => latest_match_spec(
                    self.metadata()@,
                    package_req@,
                    filter_or_default(filter),
                ) matches Some((version, kind)) && p.package@ == (PackageSpecView {
                    name: package_req@.name,
                    version,
                }) && p.source@ == source_of(kind, self.server_url()@),
                None => latest_match_spec(
                    self.metadata()@,
                    package_req@,
                    filter_or_default(filter),
                ) is None,
            },
    {
        match self.metadata.latest_match(package_req, filter) {
            None => None,
            Some((package, kind)) => {
                let source = match kind {
                    RemotePackageType::Rockspec => RemotePackageSource::LuarocksRockspec(
                        self.server_url.clone(),
                    ),
                    RemotePackageType::Src => RemotePackageSource::LuarocksSrcRock(
                        self.server_url.clone(),
                    ),
                    RemotePackageType::Binary => RemotePackageSource::LuarocksBinaryRock(
                        self.server_url.clone(),
                    ),
                };
                Some(RemotePackage::new(package, source))
            },
        }
    }
}

} // verus!
