//! The backends opened during one run, each found again by its locator.

use vstd::prelude::*;
use crate::backend::{
    added, unique_slots, Backend, BackendView, Conflict, ConflictResolution, Locator, LocatorView,
    Package, PackageMetadata,
};

verus! {

/// The models of the backends of a store, in the order they were opened.
pub open spec fn backend_views(backends: Seq<Backend>) -> Seq<BackendView> {
    backends.map_values(|b: Backend| b@)
}

/// Some backend of `store` sits at `loc`.
pub open spec fn known(store: Seq<BackendView>, loc: LocatorView) -> bool {
    exists|i: int| 0 <= i < store.len() && (#[trigger] store[i]).locator == loc
}

/// `i` is the first position of `store` whose backend sits at `loc`.
pub open spec fn is_place(store: Seq<BackendView>, loc: LocatorView, i: int) -> bool {
    &&& 0 <= i < store.len()
    &&& store[i].locator == loc
    &&& forall|j: int| 0 <= j < i ==> (#[trigger] store[j]).locator != loc
}

/// The position of the backend at `loc`, where there is one.
pub open spec fn place_of(store: Seq<BackendView>, loc: LocatorView) -> int {
    choose|i: int| is_place(store, loc, i)
}

/// Opening `loc`: the store afterwards and the position of the backend. A
/// known locator changes nothing; an unknown one gets an empty backend at the
/// end.
pub open spec fn opened(store: Seq<BackendView>, loc: LocatorView) -> (Seq<BackendView>, int) {
    if known(store, loc) {
        (store, place_of(store, loc))
    } else {
        (
            store.push(BackendView { locator: loc, packages: Seq::<Package>::empty() }),
            store.len() as int,
        )
    }
}

/// Opening `loc` and offering `p` to its backend under `policy`: the store
/// afterwards, or `None` where the offer is refused.
pub open spec fn placed(
    store: Seq<BackendView>,
    loc: LocatorView,
    p: Package,
    policy: ConflictResolution,
) -> Option<Seq<BackendView>> {
    let (s, i) = opened(store, loc);
    match added(s[i].packages, p, policy) {
        Some(pkgs) => Some(s.update(i, BackendView { locator: loc, packages: pkgs })),
        None => None,
    }
}

/// The invariant of a store: one backend per locator, one record per slot.
pub open spec fn well_formed(store: Seq<BackendView>) -> bool {
    &&& forall|i: int| 0 <= i < store.len() ==> unique_slots((#[trigger] store[i]).packages)
    &&& forall|i: int, j: int|
        0 <= i < j < store.len() ==> (#[trigger] store[i]).locator != (#[trigger] store[j]).locator
}

/// The backends of one run.
#[derive(Debug)]
pub struct Store {
    pub backends: Vec<Backend>,
}

impl View for Store {
    type V = Seq<BackendView>;

    open spec fn view(&self) -> Seq<BackendView> {
        backend_views(self.backends@)
    }
}

impl Store {
    /// The invariant of the store.
    pub open spec fn wf(&self) -> bool {
        well_formed(self@)
    }

    /// A store without backends.
    pub fn new() -> (r: Store)
        ensures
            r@ == Seq::<BackendView>::empty(),
            r.wf(),
    {
        let r = Store { backends: Vec::new() };
        assert(r@ =~= Seq::<BackendView>::empty());
        r
    }

    /// The position of the backend at `locator`, if it was opened before.
    pub fn find(&self, locator: &Locator) -> (r: Option<usize>)
        ensures
            r is Some <==> known(self@, locator@),
            r is Some ==> r.unwrap() == place_of(self@, locator@) && is_place(
                self@,
                locator@,
                r.unwrap() as int,
            ),
    {
        let ghost store = self@;
        let mut i: usize = 0;
        while i < self.backends.len()
            invariant
                i <= self.backends.len(),
                store == self@,
                store.len() == self.backends.len(),
                forall|j: int| 0 <= j < i ==> (#[trigger] store[j]).locator != locator@,
            decreases self.backends.len() - i,
        {
            assert(store[i as int] == self.backends@[i as int]@);
            if self.backends[i].locator.same(locator) {
                proof {
                    assert(is_place(store, locator@, i as int));
                    let k = place_of(store, locator@);
                    assert(is_place(store, locator@, k));
                    assert(k == i);
                }
                return Some(i);
            }
            i += 1;
        }
        None
    }

    /// Returns the position of the backend at `locator`, creating an empty
    /// one at the end of the store where none was opened before.
    pub fn open(&mut self, locator: Locator) -> (i: usize)
        ensures
            (final(self)@, i as int) == opened(old(self)@, locator@),
            i < final(self)@.len(),
            final(self)@[i as int].locator == locator@,
            old(self).wf() ==> final(self).wf(),
    {
        let ghost before = self@;
        match self.find(&locator) {
            Some(i) => i,
            None => {
                let i = self.backends.len();
                self.backends.push(Backend::new(locator));
                proof {
                    assert(self@ =~= before.push(
                        BackendView { locator: locator@, packages: Seq::<Package>::empty() },
                    ));
                    if well_formed(before) {
                        assert forall|a: int, b: int| 0 <= a < b < self@.len() implies (
                        #[trigger] self@[a]).locator != (#[trigger] self@[b]).locator by {
                            if b == before.len() {
                                assert(before[a].locator != locator@);
                            } else {
                                assert(before[a].locator != before[b].locator);
                            }
                        }
                    }
                }
                i
            },
        }
    }

    /// Opens the backend at `locator` and offers `pkg` to it under `policy`.
    ///
    /// Fails exactly when the slot of `pkg` is taken there and the policy is
    /// `Error`; the backend is then open and otherwise untouched.
    pub fn place(&mut self, locator: Locator, pkg: &PackageMetadata, policy: ConflictResolution) -> (r:
        Result<(), Conflict>)
        ensures
            r is Ok <==> placed(old(self)@, locator@, pkg@, policy) is Some,
            r is Ok ==> final(self)@ == placed(old(self)@, locator@, pkg@, policy).unwrap(),
            r is Err ==> final(self)@ == opened(old(self)@, locator@).0,
            old(self).wf() ==> final(self).wf(),
    {
        let ghost loc = locator@;
        let i = self.open(locator);
        let ghost mid = self@;
        assert(mid[i as int] == self.backends@[i as int]@);
        let r = self.backends[i].add_package(pkg, policy);
        proof {
            let now = self.backends@[i as int]@;
            assert(self@.len() == mid.len());
            assert(self@ =~= mid.update(i as int, now));
            if well_formed(mid) {
                assert(unique_slots(mid[i as int].packages));
                assert forall|a: int, b: int| 0 <= a < b < self@.len() implies (
                #[trigger] self@[a]).locator != (#[trigger] self@[b]).locator by {
                    assert(mid[a].locator != mid[b].locator);
                }
                assert forall|a: int| 0 <= a < self@.len() implies unique_slots(
                    (#[trigger] self@[a]).packages,
                ) by {
                    if a != i {
                        assert(unique_slots(mid[a].packages));
                    }
                }
            }
            if r is Err {
                assert(now == mid[i as int]);
                assert(self@ =~= mid);
            }
        }
        r
    }
}

} // verus!
