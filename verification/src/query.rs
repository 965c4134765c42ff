//! Questions about a candidate package, asked of a list of dependencies.

use crate::dependency::DependencyUtil;
use crate::version::Version;
use vstd::prelude::*;

verus! {

/// The predicate "conflicts with the package `name` at `version`".
pub open spec fn conflicting<T: DependencyUtil>(name: Seq<char>, version: Version) -> spec_fn(
    T,
) -> bool {
    |d: T| d.spec_conflicts(name, version)
}

/// What the references in `found` point at.
pub open spec fn targets<T>(found: Seq<&T>) -> Seq<T> {
    found.map_values(|d: &T| *d)
}

/// Something in a list conflicts with a candidate exactly when the list of
/// its conflicts is not empty.
pub proof fn lemma_conflicts_found<T: DependencyUtil>(
    list: Seq<T>,
    name: Seq<char>,
    version: Version,
)
    ensures
        (exists|i: int| 0 <= i < list.len() && (#[trigger] list[i]).spec_conflicts(name, version))
            <==> list.filter(conflicting::<T>(name, version)).len() > 0,
{
    let p = conflicting::<T>(name, version);
    let found = list.filter(p);
    if found.len() > 0 {
        list.lemma_filter_pred(p, 0);
        assert(found.contains(found[0]));
        list.lemma_filter_contains_rev(p, found[0]);
        let i = choose|i: int| 0 <= i < list.len() && list[i] == found[0];
        assert(list[i].spec_conflicts(name, version));
    }
    if exists|i: int| 0 <= i < list.len() && (#[trigger] list[i]).spec_conflicts(name, version) {
        let i = choose|i: int|
            0 <= i < list.len() && (#[trigger] list[i]).spec_conflicts(name, version);
        assert(p(list[i]));
        list.lemma_filter_contains(p, i);
    }
}

/// A list whose elements answer whether a candidate is allowed or in
/// conflict.
pub trait DependencyExt<T: DependencyUtil> {
    /// The elements of the list, in order.
    spec fn elements(&self) -> Seq<T>;

    /// Does at least one element allow the package `name` at `version`?
    fn any_allows(&self, name: &str, version: Version) -> (r: bool)
        ensures
            r == exists|i: int|
                0 <= i < self.elements().len() && (#[trigger] self.elements()[i]).spec_allows(
                    name@,
                    version,
                ),
    ;

    /// Does at least one element conflict with the package `name` at
    /// `version`?
    fn any_conflicts(&self, name: &str, version: Version) -> (r: bool)
        ensures
            r == exists|i: int|
                0 <= i < self.elements().len() && (#[trigger] self.elements()[i]).spec_conflicts(
                    name@,
                    version,
                ),
    ;

    /// The elements that conflict with the package `name` at `version`, in
    /// the order of the list.
    fn collect_conflicts<'a>(&'a self, name: &str, version: Version) -> (r: Vec<&'a T>)
        ensures
            targets(r@) == self.elements().filter(conflicting::<T>(name@, version)),
    ;
}

impl<T: DependencyUtil> DependencyExt<T> for [T] {
    open spec fn elements(&self) -> Seq<T> {
        self@
    }

    fn any_allows(&self, name: &str, version: Version) -> (r: bool) {
        let mut i: usize = 0;
        while i < self.len()
            invariant
                i <= self.len(),
                forall|j: int| 0 <= j < i ==> !(#[trigger] self@[j]).spec_allows(name@, version),
            decreases self.len() - i,
        {
            if self[i].allows(name, version) {
                assert(self.elements()[i as int].spec_allows(name@, version));
                return true;
            }
            i += 1;
        }
        false
    }

    fn any_conflicts(&self, name: &str, version: Version) -> (r: bool) {
        let mut i: usize = 0;
        while i < self.len()
            invariant
                i <= self.len(),
                forall|j: int| 0 <= j < i ==> !(#[trigger] self@[j]).spec_conflicts(name@, version),
            decreases self.len() - i,
        {
            if self[i].conflicts(name, version) {
                assert(self.elements()[i as int].spec_conflicts(name@, version));
                return true;
            }
            i += 1;
        }
        false
    }

    fn collect_conflicts<'a>(&'a self, name: &str, version: Version) -> (r: Vec<&'a T>) {
        let mut found: Vec<&'a T> = Vec::new();
        let mut i: usize = 0;
        assert(self@.take(0) =~= Seq::<T>::empty());
        assert(targets(found@) =~= self@.take(0).filter(conflicting::<T>(name@, version))) by {
            reveal(Seq::filter);
        }
        while i < self.len()
            invariant
                i <= self.len(),
                targets(found@) == self@.take(i as int).filter(conflicting::<T>(name@, version)),
            decreases self.len() - i,
        {
            let ghost before = found@;
            let hit = self[i].conflicts(name, version);
            if hit {
                found.push(&self[i]);
            }
            proof {
                reveal(Seq::filter);
                let seen = self@.take(i + 1);
                assert(seen.drop_last() =~= self@.take(i as int));
                assert(seen.last() == self@[i as int]);
                if hit {
                    assert(targets(found@) =~= targets(before).push(self@[i as int]));
                }
            }
            i += 1;
        }
        assert(self@.take(i as int) =~= self@);
        found
    }
}

} // verus!
