//! The lock store: the persisted name-to-package map of what is installed.
//!
//! The store denotes a map from package names to records — its abstract
//! value — and is updated only by name: `upsert` replaces the record named
//! like its argument or appends a new one, so no two records ever share a
//! name. The backing vector keeps a stable order: records keep their file
//! positions across load, upsert and save, and new packages append at the
//! end, so writing the store is deterministic.

use vstd::prelude::*;
use crate::error::Error;
use crate::pkg::{LockedPackage, LockedPackageView};
use crate::text::str_eq;

verus! {

/// The resolved record of every installed package.
#[derive(Debug)]
pub struct LockedConfig {
    /// One record per package, unique by name, in file order.
    pub pkgs: Vec<LockedPackage>,
}

/// The map the first `n` records denote: later records shadow earlier ones,
/// though a well-formed store has no duplicates to shadow.
pub open spec fn map_upto(ps: Seq<LockedPackage>, n: int) -> Map<Seq<char>, LockedPackageView>
    decreases n,
{
    if n <= 0 {
        Map::empty()
    } else {
        map_upto(ps, n - 1).insert(ps[n - 1]@.name, ps[n - 1]@)
    }
}

impl View for LockedConfig {
    type V = Map<Seq<char>, LockedPackageView>;

    open spec fn view(&self) -> Map<Seq<char>, LockedPackageView> {
        map_upto(self.pkgs@, self.pkgs@.len() as int)
    }
}

/// Every record of the first `n` is in the map they denote.
proof fn lemma_map_upto_contains(ps: Seq<LockedPackage>, n: int, k: int)
    requires
        0 <= k < n <= ps.len(),
        forall|i: int, j: int| 0 <= i < j < ps.len() ==> ps[i]@.name != ps[j]@.name,
    ensures
        map_upto(ps, n).contains_key(ps[k]@.name),
        map_upto(ps, n)[ps[k]@.name] == ps[k]@,
    decreases n,
{
    if k < n - 1 {
        lemma_map_upto_contains(ps, n - 1, k);
    }
}

/// A name that no record among the first `n` carries is not in their map.
proof fn lemma_map_upto_absent(ps: Seq<LockedPackage>, n: int, name: Seq<char>)
    requires
        0 <= n <= ps.len(),
        forall|i: int| 0 <= i < n ==> ps[i]@.name != name,
    ensures
        !map_upto(ps, n).contains_key(name),
    decreases n,
{
    if n > 0 {
        lemma_map_upto_absent(ps, n - 1, name);
    }
}

impl LockedConfig {
    /// Well-formed: no two records share a name.
    pub open spec fn wf(&self) -> bool {
        forall|i: int, j: int|
            0 <= i < j < self.pkgs@.len() ==> self.pkgs@[i]@.name != self.pkgs@[j]@.name
    }

    /// An empty store.
    pub fn new() -> (r: LockedConfig)
        ensures
            r.wf(),
            r@ == Map::<Seq<char>, LockedPackageView>::empty(),
            r.pkgs@.len() == 0,
    {
        LockedConfig { pkgs: Vec::new() }
    }

    /// The position of the record for `name`, when one exists.
    fn position_of(&self, name: &str) -> (r: Option<usize>)
        ensures
            match r {
                Some(i) => i < self.pkgs@.len() && self.pkgs@[i as int]@.name == name@,
                None => forall|i: int|
                    0 <= i < self.pkgs@.len() ==> self.pkgs@[i as int]@.name != name@,
            },
    {
        let mut i: usize = 0;
        while i < self.pkgs.len()
            invariant
                i <= self.pkgs@.len(),
                forall|k: int| 0 <= k < i ==> self.pkgs@[k]@.name != name@,
            decreases self.pkgs@.len() - i,
        {
            if str_eq(self.pkgs[i].name.as_str(), name) {
                return Some(i);
            }
            i += 1;
        }
        None
    }

    /// The record for `name`, when the store holds one.
    pub fn get(&self, name: &str) -> (r: Option<&LockedPackage>)
        requires
            self.wf(),
        ensures
            match r {
                Some(p) => self@.contains_key(name@) && self@[name@] == p@ && p@.name == name@,
                None => !self@.contains_key(name@),
            },
    {
        match self.position_of(name) {
            Some(i) => {
                proof {
                    lemma_map_upto_contains(self.pkgs@, self.pkgs@.len() as int, i as int);
                }
                Some(&self.pkgs[i])
            },
            None => {
                proof {
                    lemma_map_upto_absent(self.pkgs@, self.pkgs@.len() as int, name@);
                }
                None
            },
        }
    }

    /// Replace the record named like `lpkg`, or append one: afterwards the
    /// store maps `lpkg`'s name to `lpkg` and nothing else changed.
    pub fn upsert(&mut self, lpkg: LockedPackage)
        requires
            old(self).wf(),
        ensures
            final(self).wf(),
            final(self)@ == old(self)@.insert(lpkg@.name, lpkg@),
    {
        let ghost ps0 = self.pkgs@;
        let pos = self.position_of(lpkg.name.as_str());
        let ghost pv = lpkg@;
        match pos {
            Some(i) => {
                self.pkgs.set(i, lpkg);
                proof {
                    lemma_upsert_set(ps0, self.pkgs@, i as int, pv);
                }
            },
            None => {
                self.pkgs.push(lpkg);
                proof {
                    lemma_map_upto_agree(ps0, self.pkgs@, ps0.len() as int);
                    assert(forall|i: int, j: int|
                        0 <= i < j < self.pkgs@.len() ==> self.pkgs@[i]@.name
                            != self.pkgs@[j]@.name);
                }
            },
        }
    }
}

/// Two record sequences equal below `n` denote the same map below `n`.
proof fn lemma_map_upto_agree(a: Seq<LockedPackage>, b: Seq<LockedPackage>, n: int)
    requires
        0 <= n <= a.len(),
        n <= b.len(),
        forall|i: int| 0 <= i < n ==> a[i] == b[i],
    ensures
        map_upto(a, n) == map_upto(b, n),
    decreases n,
{
    if n > 0 {
        lemma_map_upto_agree(a, b, n - 1);
    }
}

/// Replacing record `i` with one of the same name re-inserts that name and
/// leaves the rest of the map alone.
proof fn lemma_upsert_set(a: Seq<LockedPackage>, b: Seq<LockedPackage>, i: int, pv: LockedPackageView)
    requires
        a.len() == b.len(),
        0 <= i < a.len(),
        forall|k: int| 0 <= k < a.len() && k != i ==> a[k] == b[k],
        b[i]@ == pv,
        pv.name == a[i]@.name,
        forall|x: int, y: int| 0 <= x < y < a.len() ==> a[x]@.name != a[y]@.name,
    ensures
        map_upto(b, b.len() as int) == map_upto(a, a.len() as int).insert(pv.name, pv),
        forall|x: int, y: int| 0 <= x < y < b.len() ==> b[x]@.name != b[y]@.name,
    decreases a.len(),
{
    let n = a.len() as int;
    if i == n - 1 {
        lemma_map_upto_agree(a, b, n - 1);
        assert(map_upto(b, n) =~= map_upto(a, n).insert(pv.name, pv));
    } else {
        lemma_upsert_set(a.drop_last(), b.drop_last(), i, pv);
        assert(a.drop_last()[i] == a[i]);
        lemma_map_upto_agree(a.drop_last(), a, n - 1);
        lemma_map_upto_agree(b.drop_last(), b, n - 1);
        assert(a[n - 1] == b[n - 1]);
        assert(a[n - 1]@.name != pv.name);
        assert(map_upto(b, n) =~= map_upto(a, n).insert(pv.name, pv));
    }
}

} // verus!
