//! Package records and the in-memory index of one repository backend.

use vstd::prelude::*;

verus! {

/// What happens when a package is added to a slot that is already taken.
#[derive(Debug, Clone, Copy, PartialEq, Eq, Structural)]
pub enum ConflictResolution {
    Error,
    Keep,
    Replace,
}

/// Mathematical model of a package record.
pub struct Package {
    pub filename: Seq<char>,
    pub name: Seq<char>,
    pub arch: Seq<char>,
    pub version: Seq<char>,
}

impl Package {
    /// Two packages compete for one slot of an index when name, version and
    /// architecture agree; the file they came from does not count.
    pub open spec fn same_slot(self, other: Package) -> bool {
        &&& self.name == other.name
        &&& self.version == other.version
        &&& self.arch == other.arch
    }
}

/// Metadata extracted from one package file.
#[derive(Debug)]
pub struct PackageMetadata {
    pub filename: String,
    pub name: String,
    pub arch: String,
    pub version: String,
}

impl View for PackageMetadata {
    type V = Package;

    open spec fn view(&self) -> Package {
        Package {
            filename: self.filename@,
            name: self.name@,
            arch: self.arch@,
            version: self.version@,
        }
    }
}

impl Clone for PackageMetadata {
    fn clone(&self) -> (r: Self)
        ensures
            r@ == self@,
    {
        PackageMetadata {
            filename: self.filename.clone(),
            name: self.name.clone(),
            arch: self.arch.clone(),
            version: self.version.clone(),
        }
    }
}

impl PackageMetadata {
    /// Whether `self` and `other` compete for the same slot.
    pub fn same_slot(&self, other: &PackageMetadata) -> (r: bool)
        ensures
            r == self@.same_slot(other@),
    {
        self.name == other.name && self.version == other.version && self.arch == other.arch
    }
}

/// The models of the records of an index, in index order.
pub open spec fn package_views(pkgs: Seq<PackageMetadata>) -> Seq<Package> {
    pkgs.map_values(|p: PackageMetadata| p@)
}

/// Some record of `pkgs` holds the slot that `p` asks for.
pub open spec fn occupied(pkgs: Seq<Package>, p: Package) -> bool {
    exists|i: int| 0 <= i < pkgs.len() && (#[trigger] pkgs[i]).same_slot(p)
}

/// `i` is the first position of `pkgs` whose record holds the slot of `p`.
pub open spec fn is_slot(pkgs: Seq<Package>, p: Package, i: int) -> bool {
    &&& 0 <= i < pkgs.len()
    &&& pkgs[i].same_slot(p)
    &&& forall|j: int| 0 <= j < i ==> !(#[trigger] pkgs[j]).same_slot(p)
}

/// The first position of `pkgs` that holds the slot of `p`, where one does.
pub open spec fn slot_of(pkgs: Seq<Package>, p: Package) -> int {
    choose|i: int| is_slot(pkgs, p, i)
}

/// No two records of `pkgs` hold the same slot.
pub open spec fn unique_slots(pkgs: Seq<Package>) -> bool {
    forall|i: int, j: int|
        0 <= i < j < pkgs.len() ==> !(#[trigger] pkgs[i]).same_slot(#[trigger] pkgs[j])
}

/// The index after `p` was offered under `policy`, or `None` where the offer
/// is refused: a free slot takes `p` at the end, a taken one is kept or
/// overwritten in place, or refuses.
pub open spec fn added(pkgs: Seq<Package>, p: Package, policy: ConflictResolution) -> Option<
    Seq<Package>,
> {
    if !occupied(pkgs, p) {
        Some(pkgs.push(p))
    } else {
        match policy {
            ConflictResolution::Error => None,
            ConflictResolution::Keep => Some(pkgs),
            ConflictResolution::Replace => Some(pkgs.update(slot_of(pkgs, p), p)),
        }
    }
}

/// A slot was taken and the policy forbids touching it.
#[derive(Debug, Clone, Copy, PartialEq, Eq, Structural)]
pub struct Conflict {
    /// Position in the index of the record that holds the slot.
    pub slot: usize,
}

/// Where a backend keeps its index.
#[derive(Debug)]
pub enum Locator {
    Debian { suite: String, component: String, arch: String },
    HtmlLinks { index: String, files: String },
}

/// Mathematical model of a locator.
pub enum LocatorView {
    Debian { suite: Seq<char>, component: Seq<char>, arch: Seq<char> },
    HtmlLinks { index: Seq<char>, files: Seq<char> },
}

impl View for Locator {
    type V = LocatorView;

    open spec fn view(&self) -> LocatorView {
        match *self {
            Locator::Debian { suite, component, arch } => LocatorView::Debian {
                suite: suite@,
                component: component@,
                arch: arch@,
            },
            Locator::HtmlLinks { index, files } => LocatorView::HtmlLinks {
                index: index@,
                files: files@,
            },
        }
    }
}

impl Locator {
    /// Whether both name the same place.
    pub fn same(&self, other: &Locator) -> (r: bool)
        ensures
            r == (self@ == other@),
    {
        match self {
            Locator::Debian { suite, component, arch } => match other {
                Locator::Debian { suite: s, component: c, arch: a } => {
                    *suite == *s && *component == *c && *arch == *a
                },
                Locator::HtmlLinks { .. } => false,
            },
            Locator::HtmlLinks { index, files } => match other {
                Locator::HtmlLinks { index: i, files: f } => *index == *i && *files == *f,
                Locator::Debian { .. } => false,
            },
        }
    }
}

/// Mathematical model of a backend: its place and its index.
pub struct BackendView {
    pub locator: LocatorView,
    pub packages: Seq<Package>,
}

/// One repository backend: the packages gathered for one place.
#[derive(Debug)]
pub struct Backend {
    pub locator: Locator,
    pub packages: Vec<PackageMetadata>,
}

impl View for Backend {
    type V = BackendView;

    open spec fn view(&self) -> BackendView {
        BackendView { locator: self.locator@, packages: package_views(self.packages@) }
    }
}

impl Backend {
    /// The invariant of a backend: one record per slot.
    pub open spec fn wf(&self) -> bool {
        unique_slots(self@.packages)
    }

    /// A backend for `locator` with an empty index.
    pub fn new(locator: Locator) -> (r: Backend)
        ensures
            r@.locator == locator@,
            r@.packages == Seq::<Package>::empty(),
            r.wf(),
    {
        let r = Backend { locator, packages: Vec::new() };
        assert(r@.packages =~= Seq::<Package>::empty());
        r
    }

    /// The position of the record that holds the slot of `pkg`, if any.
    pub fn find_slot(&self, pkg: &PackageMetadata) -> (r: Option<usize>)
        ensures
            r is Some <==> occupied(self@.packages, pkg@),
            r is Some ==> r.unwrap() == slot_of(self@.packages, pkg@) && is_slot(
                self@.packages,
                pkg@,
                r.unwrap() as int,
            ),
    {
        let ghost pkgs = self@.packages;
        let mut i: usize = 0;
        while i < self.packages.len()
            invariant
                i <= self.packages.len(),
                pkgs == self@.packages,
                pkgs.len() == self.packages.len(),
                forall|j: int| 0 <= j < i ==> !(#[trigger] pkgs[j]).same_slot(pkg@),
            decreases self.packages.len() - i,
        {
            if self.packages[i].same_slot(pkg) {
                proof {
                    assert(pkgs[i as int] == self.packages@[i as int]@);
                    assert(is_slot(pkgs, pkg@, i as int));
                    let k = slot_of(pkgs, pkg@);
                    assert(is_slot(pkgs, pkg@, k));
                    assert(k == i);
                }
                return Some(i);
            }
            assert(pkgs[i as int] == self.packages@[i as int]@);
            i += 1;
        }
        None
    }

    /// Offers `pkg` to the index under `policy`.
    ///
    /// A free slot takes a copy of `pkg` at the end of the index. A taken
    /// slot is left alone under `Keep`, overwritten in place under `Replace`,
    /// and under `Error` the call fails and nothing changes.
    pub fn add_package(&mut self, pkg: &PackageMetadata, policy: ConflictResolution) -> (r: Result<
        (),
        Conflict,
    >)
        ensures
            final(self)@.locator == old(self)@.locator,
            r is Ok <==> added(old(self)@.packages, pkg@, policy) is Some,
            r is Ok ==> final(self)@.packages == added(old(self)@.packages, pkg@, policy).unwrap(),
            r is Err ==> final(self)@ == old(self)@ && r.unwrap_err().slot == slot_of(
                old(self)@.packages,
                pkg@,
            ),
            old(self).wf() ==> final(self).wf(),
    {
        let ghost before = self@.packages;
        match self.find_slot(pkg) {
            None => {
                self.packages.push(pkg.clone());
                proof {
                    assert(self@.packages =~= before.push(pkg@));
                    if unique_slots(before) {
                        lemma_push_keeps_unique(before, pkg@);
                    }
                }
                Ok(())
            },
            Some(slot) => match policy {
                ConflictResolution::Error => Err(Conflict { slot }),
                ConflictResolution::Keep => Ok(()),
                ConflictResolution::Replace => {
                    self.packages.set(slot, pkg.clone());
                    proof {
                        assert(self@.packages =~= before.update(slot as int, pkg@));
                        if unique_slots(before) {
                            lemma_replace_keeps_unique(before, pkg@, slot as int);
                        }
                    }
                    Ok(())
                },
            },
        }
    }
}

/// A record that finds its slot free can join without breaking uniqueness.
pub proof fn lemma_push_keeps_unique(pkgs: Seq<Package>, p: Package)
    requires
        unique_slots(pkgs),
        !occupied(pkgs, p),
    ensures
        unique_slots(pkgs.push(p)),
{
    let after = pkgs.push(p);
    assert forall|i: int, j: int| 0 <= i < j < after.len() implies !(#[trigger] after[i]).same_slot(
        #[trigger] after[j],
    ) by {
        if j == pkgs.len() {
            assert(!pkgs[i].same_slot(p));
        } else {
            assert(!pkgs[i].same_slot(pkgs[j]));
        }
    }
}

/// Overwriting the holder of a slot by another record of that slot keeps
/// uniqueness.
pub proof fn lemma_replace_keeps_unique(pkgs: Seq<Package>, p: Package, slot: int)
    requires
        unique_slots(pkgs),
        0 <= slot < pkgs.len(),
        pkgs[slot].same_slot(p),
    ensures
        unique_slots(pkgs.update(slot, p)),
{
    let after = pkgs.update(slot, p);
    assert forall|i: int, j: int| 0 <= i < j < after.len() implies !(#[trigger] after[i]).same_slot(
        #[trigger] after[j],
    ) by {
        assert(!pkgs[i].same_slot(pkgs[j]));
    }
}

/// The first holder of a slot is the one that `slot_of` names.
pub proof fn lemma_slot_of(pkgs: Seq<Package>, p: Package, i: int)
    requires
        is_slot(pkgs, p, i),
    ensures
        occupied(pkgs, p),
        slot_of(pkgs, p) == i,
{
    let k = slot_of(pkgs, p);
    assert(is_slot(pkgs, p, k));
    assert(pkgs[i].same_slot(p));
    assert(pkgs[k].same_slot(p));
}

/// The conflict policy. Let the record at position `k` of an index hold the
/// slot that `p` asks for. Then under `Error` the offer is refused, under
/// `Keep` the index stays as it is, and under `Replace` the index is the old
/// one with `p` at position `k`.
pub proof fn lemma_conflict_policy(pkgs: Seq<Package>, k: int, p: Package)
    requires
        unique_slots(pkgs),
        0 <= k < pkgs.len(),
        pkgs[k].same_slot(p),
    ensures
        added(pkgs, p, ConflictResolution::Error) is None,
        added(pkgs, p, ConflictResolution::Keep) == Some(pkgs),
        added(pkgs, p, ConflictResolution::Replace) == Some(pkgs.update(k, p)),
        added(pkgs, p, ConflictResolution::Replace).unwrap()[k] == p,
{
    assert forall|j: int| 0 <= j < k implies !(#[trigger] pkgs[j]).same_slot(p) by {
        assert(!pkgs[j].same_slot(pkgs[k]));
    }
    lemma_slot_of(pkgs, p, k);
}

/// A package that finds its slot free joins the index at the end, whatever
/// the policy.
pub proof fn lemma_free_slot(pkgs: Seq<Package>, p: Package, policy: ConflictResolution)
    requires
        !occupied(pkgs, p),
    ensures
        added(pkgs, p, policy) == Some(pkgs.push(p)),
{
}

} // verus!
