//! The sync orchestrator: decide per package whether anything has to be
//! fetched, classify the outcome, and fold a batch's results into the store.

use vstd::prelude::*;
use crate::error::Error;
use crate::lockfile::LockedConfig;
use crate::pkg::{opt_view, LockedPackage, LockedPackageView, Package, PackageView};
use crate::text::str_eq;

verus! {

/// What a sync did to one package.
#[derive(Debug, Clone, Copy, PartialEq, Eq, Structural)]
pub enum SyncResult {
    Updated,
    Checked,
}

/// What a sync of one package has to do next.
#[derive(Debug)]
pub enum SyncAction {
    /// Trust the existing install: `Checked`, zero network calls.
    Keep(LockedPackage),
    /// Resolve the release with this tag (`None` asks for the latest) and
    /// download its asset.
    Fetch { repo: String, tag: Option<String> },
}

/// The abstract value of an optional locked record.
pub open spec fn opt_lpkg_view(l: Option<&LockedPackage>) -> Option<LockedPackageView> {
    match l {
        Some(p) => Some(p@),
        None => None,
    }
}

/// The install is kept untouched exactly when the pinned version equals the
/// locked one, or the version is unpinned, a record exists, and this is a
/// plain sync rather than an explicit update.
pub open spec fn keep_decision(
    pkg: PackageView,
    lpkg: Option<LockedPackageView>,
    update: bool,
) -> bool {
    match (pkg.version, lpkg) {
        (Some(v), Some(l)) => v == l.version,
        (None, Some(l)) => !update,
        (_, None) => false,
    }
}

/// Decide one package's sync.
pub fn sync_package(pkg: &Package, lpkg: Option<&LockedPackage>, update: bool) -> (r: SyncAction)
    ensures
        keep_decision(pkg@, opt_lpkg_view(lpkg), update) ==> (r matches SyncAction::Keep(l)
            && Some(l@) == opt_lpkg_view(lpkg)),
        !keep_decision(pkg@, opt_lpkg_view(lpkg), update) ==> (r matches SyncAction::Fetch {
            repo,
            tag,
        } && repo@ == pkg@.source.repo && opt_view(tag) == pkg@.version),
{
    let keep: bool = match (&pkg.version, lpkg) {
        (Some(v), Some(l)) => str_eq(v.as_str(), l.version.as_str()),
        (None, Some(_)) => !update,
        _ => false,
    };
    match lpkg {
        Some(l) if keep => SyncAction::Keep(l.clone()),
        _ => SyncAction::Fetch {
            repo: pkg.source.repo().clone(),
            tag: crate::pkg::clone_opt(&pkg.version),
        },
    }
}

/// The result a fresh install is reported as: any field difference from the
/// previous record is an update; a first install or an identical record is
/// only checked.
pub open spec fn classify_spec(
    old_lpkg: Option<LockedPackageView>,
    new_lpkg: LockedPackageView,
) -> SyncResult {
    match old_lpkg {
        Some(o) => if o == new_lpkg {
            SyncResult::Checked
        } else {
            SyncResult::Updated
        },
        None => SyncResult::Checked,
    }
}

/// Classify a fresh install against the previous record.
pub fn classify(old_lpkg: Option<&LockedPackage>, new_lpkg: &LockedPackage) -> (r: SyncResult)
    ensures
        r == classify_spec(opt_lpkg_view(old_lpkg), new_lpkg@),
{
    match old_lpkg {
        Some(o) => if o.same_as(new_lpkg) {
            SyncResult::Checked
        } else {
            SyncResult::Updated
        },
        None => SyncResult::Checked,
    }
}

/// Law: the sync decision table. A pinned version equal to the locked one
/// keeps the install, with zero network calls; a pinned version different
/// from the locked one fetches, and an install whose resolved version
/// differs from the locked one is reported as updated.
pub proof fn lemma_sync_decision(
    pkg: PackageView,
    locked: LockedPackageView,
    new_lpkg: LockedPackageView,
    update: bool,
)
    requires
        pkg.version is Some,
    ensures
        pkg.version == Some(locked.version) ==> keep_decision(pkg, Some(locked), update),
        pkg.version != Some(locked.version) ==> !keep_decision(pkg, Some(locked), update),
        new_lpkg.version != locked.version ==> classify_spec(Some(locked), new_lpkg)
            == SyncResult::Updated,
{
}

/// The store after the successes among the first `n` results are folded in.
pub open spec fn apply_ok_upto(
    m: Map<Seq<char>, LockedPackageView>,
    rs: Seq<Result<LockedPackage, Error>>,
    n: int,
) -> Map<Seq<char>, LockedPackageView>
    decreases n,
{
    if n <= 0 {
        m
    } else {
        let p = apply_ok_upto(m, rs, n - 1);
        match rs[n - 1] {
            Ok(l) => p.insert(l@.name, l@),
            Err(_) => p,
        }
    }
}

/// The failures among the results, in order.
pub open spec fn errs_upto(rs: Seq<Result<LockedPackage, Error>>, n: int) -> Seq<Error>
    decreases n,
{
    if n <= 0 {
        Seq::empty()
    } else {
        let p = errs_upto(rs, n - 1);
        match rs[n - 1] {
            Ok(_) => p,
            Err(e) => p.push(e),
        }
    }
}

/// Fold a batch's per-package results into the store: every success is
/// upserted, every failure is collected and disturbs nothing. The store is
/// mutated only here, after all per-package work is done.
pub fn sync_packages(lcfg: &mut LockedConfig, results: Vec<Result<LockedPackage, Error>>) -> (errs:
    Vec<Error>)
    requires
        old(lcfg).wf(),
    ensures
        final(lcfg).wf(),
        final(lcfg)@ == apply_ok_upto(old(lcfg)@, results@, results@.len() as int),
        errs@ == errs_upto(results@, results@.len() as int),
{
    let ghost rs = results@;
    let ghost m0 = lcfg@;
    let mut errs: Vec<Error> = Vec::new();
    let mut i: usize = 0;
    let n = results.len();
    let mut rest = results;
    // Consume the results front to back.
    while i < n
        invariant
            i <= n,
            n == rs.len(),
            rest@ == rs.skip(i as int),
            lcfg.wf(),
            lcfg@ == apply_ok_upto(m0, rs, i as int),
            errs@ == errs_upto(rs, i as int),
        decreases n - i,
    {
        assert(rest@[0] == rs[i as int]);
        let r = rest.remove(0);
        proof {
            assert(rest@ =~= rs.skip(i + 1));
        }
        match r {
            Ok(l) => {
                lcfg.upsert(l);
            },
            Err(e) => {
                errs.push(e);
            },
        }
        i += 1;
    }
    errs
}

/// Law: a batch run where some packages fail still leaves, for every package
/// that succeeded, its new record in the store — provided no later success
/// reuses the same name, which a run over distinct packages guarantees.
pub proof fn lemma_batch_keeps_successes(
    m: Map<Seq<char>, LockedPackageView>,
    rs: Seq<Result<LockedPackage, Error>>,
    k: int,
)
    requires
        0 <= k < rs.len(),
        rs[k] is Ok,
        forall|j: int|
            k < j < rs.len() && rs[j] is Ok ==> (#[trigger] rs[j])->Ok_0@.name != rs[k]->Ok_0@.name,
    ensures
        apply_ok_upto(m, rs, rs.len() as int).contains_key(rs[k]->Ok_0@.name),
        apply_ok_upto(m, rs, rs.len() as int)[rs[k]->Ok_0@.name] == rs[k]->Ok_0@,
    decreases rs.len(),
{
    let n = rs.len() as int;
    if k == n - 1 {
    } else {
        lemma_batch_keeps_successes(m, rs.take(n - 1), k);
        assert(rs.take(n - 1)[k] == rs[k]);
        lemma_apply_ok_take(m, rs, n - 1);
    }
}

/// Folding the first `n` results only looks at the first `n` results.
proof fn lemma_apply_ok_take(
    m: Map<Seq<char>, LockedPackageView>,
    rs: Seq<Result<LockedPackage, Error>>,
    n: int,
)
    requires
        0 <= n <= rs.len(),
    ensures
        apply_ok_upto(m, rs.take(n), n) == apply_ok_upto(m, rs, n),
    decreases n,
{
    if n > 0 {
        lemma_apply_ok_take(m, rs.take(n - 1), n - 1);
        assert(rs.take(n).take(n - 1) =~= rs.take(n - 1));
        lemma_apply_ok_take(m, rs.take(n - 1), n - 1);
        assert(rs.take(n)[n - 1] == rs[n - 1]);
        lemma_apply_ok_agree(m, rs.take(n), rs, n - 1);
    }
}

/// Two result sequences equal below `n` fold to the same store below `n`.
proof fn lemma_apply_ok_agree(
    m: Map<Seq<char>, LockedPackageView>,
    a: Seq<Result<LockedPackage, Error>>,
    b: Seq<Result<LockedPackage, Error>>,
    n: int,
)
    requires
        0 <= n <= a.len(),
        n <= b.len(),
        forall|i: int| 0 <= i < n ==> a[i] == b[i],
    ensures
        apply_ok_upto(m, a, n) == apply_ok_upto(m, b, n),
    decreases n,
{
    if n > 0 {
        lemma_apply_ok_agree(m, a, b, n - 1);
    }
}

/// Pick the package an explicit update of `name` works on: the manifest
/// entry when the manifest declares it, else the locked record itself, else
/// a not-found error.
pub fn update_target(
    cfg: &crate::pkg::Config,
    lcfg: &LockedConfig,
    name: &str,
) -> (r: Result<(Package, Option<LockedPackage>), Error>)
    requires
        lcfg.wf(),
    ensures
        match r {
            Ok(pair) => {
                &&& (crate::pkg::config_find(cfg.pkgs@, name@, cfg.pkgs@.len() as int) matches Some(
                    i,
                ) ==> pair.0@ == cfg.pkgs@[i]@)
                &&& (crate::pkg::config_find(cfg.pkgs@, name@, cfg.pkgs@.len() as int) is None
                    ==> lcfg@.contains_key(name@) && pair.0@ == crate::pkg::package_of_locked(
                    lcfg@[name@],
                ))
                &&& opt_lpkg_view(match pair.1 {
                    Some(ref l) => Some(l),
                    None => None,
                }) == (if lcfg@.contains_key(name@) {
                    Some(lcfg@[name@])
                } else {
                    None::<LockedPackageView>
                })
            },
            Err(e) => e is NotFound && crate::pkg::config_find(
                cfg.pkgs@,
                name@,
                cfg.pkgs@.len() as int,
            ) is None && !lcfg@.contains_key(name@),
        },
{
    let old_lpkg: Option<LockedPackage> = match lcfg.get(name) {
        Some(l) => Some(l.clone()),
        None => None,
    };
    match cfg.get(name) {
        Some(p) => Ok((p.clone(), old_lpkg)),
        None => match old_lpkg {
            Some(l) => {
                let pkg = Package::from(l.clone());
                proof {
                    assert(pkg@ =~= crate::pkg::package_of_locked(l@));
                }
                Ok((pkg, Some(l)))
            },
            None => Err(
                Error::NotFound("the package is in neither the manifest nor the lock file".to_owned()),
            ),
        },
    }
}

/// What restoring one package has to do to materialize its asset.
#[derive(Debug)]
pub enum RestoreAction {
    /// The asset is already cached; nothing to fetch.
    Cached,
    /// Fetch the remembered direct download URL.
    Direct(String),
    /// Re-resolve the release by the locked tag and match the asset by its
    /// exact remembered filename.
    Resolve { repo: String, tag: String },
}

/// Decide how to materialize a locked package's asset: a cache hit is
/// reused; a remembered URL is fetched directly; otherwise the release is
/// resolved again by tag.
pub fn restore_package(lpkg: &LockedPackage, cache_has: bool) -> (r: RestoreAction)
    ensures
        cache_has ==> r is Cached,
        !cache_has && lpkg@.download_url is Some ==> (r matches RestoreAction::Direct(u) && Some(
            u@,
        ) == lpkg@.download_url),
        !cache_has && lpkg@.download_url is None ==> (r matches RestoreAction::Resolve { repo, tag }
            && repo@ == lpkg@.source.repo && tag@ == lpkg@.version),
{
    if cache_has {
        RestoreAction::Cached
    } else {
        match &lpkg.download_url {
            Some(u) => RestoreAction::Direct(u.clone()),
            None => RestoreAction::Resolve {
                repo: lpkg.source.repo().clone(),
                tag: lpkg.version.clone(),
            },
        }
    }
}

/// Collect the failures of a whole-store restore run: restores change no
/// lock state, so the errors are all there is to fold.
pub fn restore_packages(results: Vec<Result<(), Error>>) -> (errs: Vec<Error>)
    ensures
        errs@ == restore_errs_upto(results@, results@.len() as int),
{
    let ghost rs = results@;
    let mut errs: Vec<Error> = Vec::new();
    let mut i: usize = 0;
    let n = results.len();
    let mut rest = results;
    while i < n
        invariant
            i <= n,
            n == rs.len(),
            rest@ == rs.skip(i as int),
            errs@ == restore_errs_upto(rs, i as int),
        decreases n - i,
    {
        assert(rest@[0] == rs[i as int]);
        let r = rest.remove(0);
        proof {
            assert(rest@ =~= rs.skip(i + 1));
        }
        match r {
            Ok(_) => (),
            Err(e) => errs.push(e),
        }
        i += 1;
    }
    errs
}

/// The failures among restore results, in order.
pub open spec fn restore_errs_upto(rs: Seq<Result<(), Error>>, n: int) -> Seq<Error>
    decreases n,
{
    if n <= 0 {
        Seq::empty()
    } else {
        let p = restore_errs_upto(rs, n - 1);
        match rs[n - 1] {
            Ok(_) => p,
            Err(e) => p.push(e),
        }
    }
}

} // verus!
