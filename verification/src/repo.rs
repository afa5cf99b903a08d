//! The synchronization engine: routes packages into the backends of the
//! configured repositories.

use vstd::prelude::*;
use vstd::string::*;
use crate::backend::{
    package_views, BackendView, Conflict, ConflictResolution, Locator, LocatorView, Package,
    PackageMetadata,
};
use crate::store::{opened, placed, Store};
use crate::version::{rejected_pattern, selects, text_of, PatternError, VersionFilter};

verus! {

/// The kind of a configured repository.
#[derive(Debug, Clone, Copy, PartialEq, Eq, Structural)]
pub enum RepositoryType {
    Debian,
    HtmlLinks,
}

/// One repository of the configuration.
#[derive(Debug)]
pub struct RepositoryConfig {
    pub kind: RepositoryType,
    pub suite: Option<String>,
    pub component: Option<String>,
    pub add_empty_i386_repo: bool,
    pub index: Option<String>,
    pub files: Option<String>,
    pub match_version: Option<String>,
    pub skip_version: Option<String>,
}

/// Mathematical model of a configured repository.
pub struct RepositoryView {
    pub kind: RepositoryType,
    pub suite: Option<Seq<char>>,
    pub component: Option<Seq<char>>,
    pub add_empty_i386_repo: bool,
    pub index: Option<Seq<char>>,
    pub files: Option<Seq<char>>,
    pub match_version: Option<Seq<char>>,
    pub skip_version: Option<Seq<char>>,
}

impl View for RepositoryConfig {
    type V = RepositoryView;

    open spec fn view(&self) -> RepositoryView {
        RepositoryView {
            kind: self.kind,
            suite: text_of(self.suite),
            component: text_of(self.component),
            add_empty_i386_repo: self.add_empty_i386_repo,
            index: text_of(self.index),
            files: text_of(self.files),
            match_version: text_of(self.match_version),
            skip_version: text_of(self.skip_version),
        }
    }
}

/// The models of the repositories of a configuration, in its order.
pub open spec fn repository_views(repos: Seq<RepositoryConfig>) -> Seq<RepositoryView> {
    repos.map_values(|r: RepositoryConfig| r@)
}

/// Why a run was aborted. Every variant names the repository by its position
/// in the configuration.
#[derive(Debug, Clone, Copy, PartialEq, Eq, Structural)]
pub enum SyncError {
    /// A version pattern of the repository is no regular expression.
    RegexCompile { repository: usize, pattern: PatternError },
    /// A Debian repository without suite or component.
    MissingRequiredField { repository: usize },
    /// The package at position `package` found its slot taken.
    Conflict { repository: usize, package: usize },
}

impl SyncError {
    /// The positions that the error names lie within a configuration of
    /// `repos` repositories and a list of `packages` packages.
    pub open spec fn within(self, repos: int, packages: int) -> bool {
        match self {
            SyncError::RegexCompile { repository, .. } => repository < repos,
            SyncError::MissingRequiredField { repository } => repository < repos,
            SyncError::Conflict { repository, package } => repository < repos && package
                < packages,
        }
    }
}

impl RepositoryView {
    /// Whether the repository wants a package of this version.
    pub open spec fn wants(self, version: Seq<char>) -> bool {
        selects(self.match_version, self.skip_version, version)
    }

    /// Whether the repository wants any of `pkgs`.
    pub open spec fn wants_any(self, pkgs: Seq<Package>) -> bool {
        exists|i: int| 0 <= i < pkgs.len() && self.wants((#[trigger] pkgs[i]).version)
    }

    /// A Debian repository is identified by suite and component.
    pub open spec fn identified(self) -> bool {
        self.kind is Debian ==> self.suite is Some && self.component is Some
    }
}

/// A path that was left out of the configuration counts as the empty path.
pub open spec fn or_empty(path: Option<Seq<char>>) -> Seq<char> {
    match path {
        Some(p) => p,
        None => Seq::<char>::empty(),
    }
}

/// The architecture whose index some clients probe for.
pub open spec fn placeholder_arch() -> Seq<char> {
    "i386"@
}

/// The place where a package of `repo` goes.
pub open spec fn home(repo: RepositoryView, p: Package) -> LocatorView {
    match repo.kind {
        RepositoryType::Debian => LocatorView::Debian {
            suite: repo.suite.unwrap(),
            component: repo.component.unwrap(),
            arch: p.arch,
        },
        RepositoryType::HtmlLinks => LocatorView::HtmlLinks {
            index: or_empty(repo.index),
            files: or_empty(repo.files),
        },
    }
}

/// The store after one wanted package went to `repo`, or `None` on a
/// conflict.
///
/// A Debian repository places it in the backend of its suite, component and
/// the package's architecture and then, where the repository asks for it and
/// the package is of another architecture, opens the backend of the
/// placeholder architecture. A repository of links places it in the backend
/// of its index and files paths.
pub open spec fn routed(
    store: Seq<BackendView>,
    repo: RepositoryView,
    p: Package,
    policy: ConflictResolution,
) -> Option<Seq<BackendView>> {
    match repo.kind {
        RepositoryType::Debian => {
            let suite = repo.suite.unwrap();
            let component = repo.component.unwrap();
            match placed(store, LocatorView::Debian { suite, component, arch: p.arch }, p, policy) {
                None => None,
                Some(s) => if repo.add_empty_i386_repo && p.arch != placeholder_arch() {
                    Some(
                        opened(
                            s,
                            LocatorView::Debian { suite, component, arch: placeholder_arch() },
                        ).0,
                    )
                } else {
                    Some(s)
                },
            }
        },
        RepositoryType::HtmlLinks => placed(
            store,
            LocatorView::HtmlLinks { index: or_empty(repo.index), files: or_empty(repo.files) },
            p,
            policy,
        ),
    }
}

/// The store after the wanted ones among the first `n` packages went to the
/// repository at position `r`, in order, or the first conflict.
pub open spec fn routed_first(
    store: Seq<BackendView>,
    r: int,
    repo: RepositoryView,
    pkgs: Seq<Package>,
    policy: ConflictResolution,
    n: int,
) -> Result<Seq<BackendView>, SyncError>
    decreases n,
{
    if n <= 0 {
        Ok(store)
    } else {
        match routed_first(store, r, repo, pkgs, policy, n - 1) {
            Err(e) => Err(e),
            Ok(s) => if repo.wants(pkgs[n - 1].version) {
                match routed(s, repo, pkgs[n - 1], policy) {
                    Some(t) => Ok(t),
                    None => Err(
                        SyncError::Conflict { repository: r as usize, package: (n - 1) as usize },
                    ),
                }
            } else {
                Ok(s)
            },
        }
    }
}

/// The store after the repository at position `r` was served: its patterns
/// are compiled first, and one that does not compile is an error whatever
/// the packages are; then the packages are delivered.
pub open spec fn served(
    store: Seq<BackendView>,
    r: int,
    repo: RepositoryView,
    pkgs: Seq<Package>,
    policy: ConflictResolution,
) -> Result<Seq<BackendView>, SyncError> {
    match rejected_pattern(repo.match_version, repo.skip_version) {
        Some(pattern) => Err(SyncError::RegexCompile { repository: r as usize, pattern }),
        None => delivered(store, r, repo, pkgs, policy),
    }
}

/// The store after the packages that the repository at position `r` wants
/// were delivered to it. A repository that wants none of the packages is
/// passed over, whatever its fields say.
pub open spec fn delivered(
    store: Seq<BackendView>,
    r: int,
    repo: RepositoryView,
    pkgs: Seq<Package>,
    policy: ConflictResolution,
) -> Result<Seq<BackendView>, SyncError> {
    if !repo.wants_any(pkgs) {
        Ok(store)
    } else if !repo.identified() {
        Err(SyncError::MissingRequiredField { repository: r as usize })
    } else {
        routed_first(store, r, repo, pkgs, policy, pkgs.len() as int)
    }
}

/// The store after the first `n` repositories were served in order, or the
/// first error.
pub open spec fn published(
    store: Seq<BackendView>,
    repos: Seq<RepositoryView>,
    pkgs: Seq<Package>,
    policy: ConflictResolution,
    n: int,
) -> Result<Seq<BackendView>, SyncError>
    decreases n,
{
    if n <= 0 {
        Ok(store)
    } else {
        match published(store, repos, pkgs, policy, n - 1) {
            Err(e) => Err(e),
            Ok(s) => served(s, n - 1, repos[n - 1], pkgs, policy),
        }
    }
}

/// An error stays: once the first `k` repositories fail, serving more of
/// them gives the same error.
pub proof fn lemma_failure_stays(
    store: Seq<BackendView>,
    repos: Seq<RepositoryView>,
    pkgs: Seq<Package>,
    policy: ConflictResolution,
    k: int,
    n: int,
)
    requires
        0 <= k <= n,
        published(store, repos, pkgs, policy, k) is Err,
    ensures
        published(store, repos, pkgs, policy, n) == published(store, repos, pkgs, policy, k),
    decreases n - k,
{
    if k < n {
        lemma_failure_stays(store, repos, pkgs, policy, k, n - 1);
    }
}

fn text_or_empty(path: &Option<String>) -> (r: String)
    ensures
        r@ == or_empty(text_of(*path)),
{
    match path {
        Some(p) => p.clone(),
        None => String::new(),
    }
}

/// Routes one wanted package into the backends of `repo`.
///
/// Fails exactly on a conflict; the backend that refused is then open and
/// nothing else has changed.
pub fn route(
    store: &mut Store,
    repo: &RepositoryConfig,
    pkg: &PackageMetadata,
    policy: ConflictResolution,
) -> (r: Result<(), Conflict>)
    requires
        repo@.identified(),
    ensures
        r is Ok <==> routed(old(store)@, repo@, pkg@, policy) is Some,
        r is Ok ==> final(store)@ == routed(old(store)@, repo@, pkg@, policy).unwrap(),
        r is Err ==> final(store)@ == opened(old(store)@, home(repo@, pkg@)).0,
        old(store).wf() ==> final(store).wf(),
{
    match repo.kind {
        RepositoryType::Debian => {
            let suite = match &repo.suite {
                Some(s) => s,
                None => {
                    proof {
                        assert(false);
                    }
                    return Ok(());
                },
            };
            let component = match &repo.component {
                Some(c) => c,
                None => {
                    proof {
                        assert(false);
                    }
                    return Ok(());
                },
            };
            let locator = Locator::Debian {
                suite: suite.clone(),
                component: component.clone(),
                arch: pkg.arch.clone(),
            };
            match store.place(locator, pkg, policy) {
                Err(e) => Err(e),
                Ok(()) => {
                    let placeholder = String::from_str("i386");
                    if repo.add_empty_i386_repo && pkg.arch != placeholder {
                        let locator = Locator::Debian {
                            suite: suite.clone(),
                            component: component.clone(),
                            arch: placeholder,
                        };
                        store.open(locator);
                    }
                    Ok(())
                },
            }
        },
        RepositoryType::HtmlLinks => {
            let locator = Locator::HtmlLinks {
                index: text_or_empty(&repo.index),
                files: text_or_empty(&repo.files),
            };
            store.place(locator, pkg, policy)
        },
    }
}

/// Delivers to the repository at position `r` of the configuration, whose
/// compiled filter is `filter`: routes every package that the filter
/// selects, in order, and stops at the first conflict.
/// Where no package is selected nothing happens, and the fields of the
/// repository are not even looked at.
pub fn serve(
    store: &mut Store,
    r: usize,
    repo: &RepositoryConfig,
    filter: &VersionFilter,
    packages: &Vec<PackageMetadata>,
    policy: ConflictResolution,
) -> (res: Result<(), SyncError>)
    requires
        filter.made_of(repo@.match_version, repo@.skip_version),
    ensures
        match res {
            Ok(()) => delivered(old(store)@, r as int, repo@, package_views(packages@), policy)
                == Ok::<Seq<BackendView>, SyncError>(final(store)@),
            Err(e) => {
                &&& delivered(old(store)@, r as int, repo@, package_views(packages@), policy)
                    == Err::<Seq<BackendView>, SyncError>(e)
                &&& e.within(r as int + 1, packages.len() as int)
            },
        },
        old(store).wf() ==> final(store).wf(),
{
    let ghost before = store@;
    let ghost pkgs = package_views(packages@);
    let mut wanted: Vec<bool> = Vec::new();
    let mut any = false;
    let mut i: usize = 0;
    while i < packages.len()
        invariant
            i <= packages.len(),
            wanted@.len() == i,
            pkgs == package_views(packages@),
            filter.made_of(repo@.match_version, repo@.skip_version),
            forall|j: int| 0 <= j < i ==> wanted@[j] == repo@.wants((#[trigger] pkgs[j]).version),
            any <==> exists|j: int| 0 <= j < i && repo@.wants((#[trigger] pkgs[j]).version),
        decreases packages.len() - i,
    {
        let w = filter.accepts(packages[i].version.as_str());
        assert(pkgs[i as int] == packages@[i as int]@);
        assert(filter.selects(pkgs[i as int].version) == repo@.wants(pkgs[i as int].version));
        wanted.push(w);
        any = any || w;
        i += 1;
    }
    if !any {
        return Ok(());
    }
    let identified = match repo.kind {
        RepositoryType::Debian => repo.suite.is_some() && repo.component.is_some(),
        RepositoryType::HtmlLinks => true,
    };
    if !identified {
        return Err(SyncError::MissingRequiredField { repository: r });
    }
    let mut k: usize = 0;
    while k < packages.len()
        invariant
            k <= packages.len(),
            wanted@.len() == packages.len(),
            pkgs == package_views(packages@),
            repo@.identified(),
            repo@.wants_any(pkgs),
            before == old(store)@,
            forall|j: int|
                0 <= j < packages.len() ==> wanted@[j] == repo@.wants((#[trigger] pkgs[j]).version),
            routed_first(before, r as int, repo@, pkgs, policy, k as int) == Ok::<
                Seq<BackendView>,
                SyncError,
            >(store@),
            well_formed_kept(before, store@),
        decreases packages.len() - k,
    {
        assert(pkgs[k as int] == packages@[k as int]@);
        if wanted[k] {
            match route(store, repo, &packages[k], policy) {
                Ok(()) => {},
                Err(_) => {
                    proof {
                        assert(routed_first(before, r as int, repo@, pkgs, policy, k as int + 1)
                            == Err::<Seq<BackendView>, SyncError>(
                            SyncError::Conflict { repository: r, package: k },
                        ));
                        lemma_conflict_stays(
                            before,
                            r as int,
                            repo@,
                            pkgs,
                            policy,
                            k as int + 1,
                            pkgs.len() as int,
                        );
                    }
                    return Err(SyncError::Conflict { repository: r, package: k });
                },
            }
        }
        k += 1;
    }
    Ok(())
}

/// The invariant of a store, carried from `before` to `after`.
pub open spec fn well_formed_kept(before: Seq<BackendView>, after: Seq<BackendView>) -> bool {
    crate::store::well_formed(before) ==> crate::store::well_formed(after)
}

/// A conflict stays: once the first `k` packages fail, routing more of them
/// gives the same error.
pub proof fn lemma_conflict_stays(
    store: Seq<BackendView>,
    r: int,
    repo: RepositoryView,
    pkgs: Seq<Package>,
    policy: ConflictResolution,
    k: int,
    n: int,
)
    requires
        0 <= k <= n,
        routed_first(store, r, repo, pkgs, policy, k) is Err,
    ensures
        routed_first(store, r, repo, pkgs, policy, n) == routed_first(
            store,
            r,
            repo,
            pkgs,
            policy,
            k,
        ),
    decreases n - k,
{
    if k < n {
        lemma_conflict_stays(store, r, repo, pkgs, policy, k, n - 1);
    }
}

/// One run of the engine: serves the repositories of the configuration in
/// order, each with the packages that its version filter selects, and hands
/// back the store for writing.
///
/// The run stops at the first error. The patterns of a repository are
/// compiled when the repository is reached and before any package is looked
/// at, so a pattern that does not compile aborts the run even where no
/// package would have matched. The outcome is that of `published` on all
/// repositories, and an error names positions that exist.
pub fn sync_repositories(
    store: Store,
    repos: &Vec<RepositoryConfig>,
    packages: &Vec<PackageMetadata>,
    policy: ConflictResolution,
) -> (res: Result<Store, SyncError>)
    requires
        store.wf(),
    ensures
        match res {
            Ok(s) => s.wf() && published(
                store@,
                repository_views(repos@),
                package_views(packages@),
                policy,
                repos.len() as int,
            ) == Ok::<Seq<BackendView>, SyncError>(s@),
            Err(e) => {
                &&& published(
                    store@,
                    repository_views(repos@),
                    package_views(packages@),
                    policy,
                    repos.len() as int,
                ) == Err::<Seq<BackendView>, SyncError>(e)
                &&& e.within(repos.len() as int, packages.len() as int)
            },
        },
{
    let ghost before = store@;
    let ghost views = repository_views(repos@);
    let ghost pkgs = package_views(packages@);
    let mut current = store;
    let mut r: usize = 0;
    while r < repos.len()
        invariant
            r <= repos.len(),
            views == repository_views(repos@),
            pkgs == package_views(packages@),
            before == store@,
            current.wf(),
            published(before, views, pkgs, policy, r as int) == Ok::<Seq<BackendView>, SyncError>(
                current@,
            ),
        decreases repos.len() - r,
    {
        let repo = &repos[r];
        assert(views[r as int] == repos@[r as int]@);
        let filter = match VersionFilter::new(&repo.match_version, &repo.skip_version) {
            Ok(f) => f,
            Err(pattern) => {
                proof {
                    assert(published(before, views, pkgs, policy, r as int + 1) == Err::<
                        Seq<BackendView>,
                        SyncError,
                    >(SyncError::RegexCompile { repository: r, pattern }));
                    lemma_failure_stays(
                        before,
                        views,
                        pkgs,
                        policy,
                        r as int + 1,
                        repos.len() as int,
                    );
                }
                return Err(SyncError::RegexCompile { repository: r, pattern });
            },
        };
        match serve(&mut current, r, repo, &filter, packages, policy) {
            Ok(()) => {},
            Err(e) => {
                proof {
                    assert(published(before, views, pkgs, policy, r as int + 1) == Err::<
                        Seq<BackendView>,
                        SyncError,
                    >(e));
                    lemma_failure_stays(
                        before,
                        views,
                        pkgs,
                        policy,
                        r as int + 1,
                        repos.len() as int,
                    );
                }
                return Err(e);
            },
        }
        r += 1;
    }
    Ok(current)
}

} // verus!
