//! The release provider's decision logic: parse a repository path, choose
//! the asset for the host platform, decide whether a transfer is needed, and
//! build the locked record of a finished download.

use vstd::prelude::*;
use crate::error::Error;
use crate::pkg::{opt_view, Asset, LockedPackage, Package, Release};
use crate::selector::{filter_assets, passes, passing_upto, priority_of, Arch, Os};
use crate::text::{chars_eq, chars_of, str_eq, string_from_chars};

verus! {

/// Split `owner/name` at its first slash.
pub open spec fn repo_split(s: Seq<char>) -> Option<(Seq<char>, Seq<char>)> {
    let cut = crate::archive::slash_end(s, 0);
    if cut < s.len() {
        Some((s.subrange(0, cut), s.subrange(cut + 1, s.len() as int)))
    } else {
        None
    }
}

/// Parse a repository path of the form `owner/name`. Everything up to the
/// first slash is the owner; the rest, slashes included, is the name.
pub fn parse_repo(repo: &str) -> (r: Result<(String, String), Error>)
    ensures
        match r {
            Ok(pair) => repo_split(repo@) == Some((pair.0@, pair.1@)),
            Err(e) => repo_split(repo@) is None && e is Parse,
        },
{
    let cs = chars_of(repo);
    let n = cs.len();
    let mut i: usize = 0;
    while i < n && cs[i] != '/'
        invariant
            i <= n,
            n == cs@.len(),
            crate::archive::slash_end(cs@, 0) == crate::archive::slash_end(cs@, i as int),
        decreases n - i,
    {
        i += 1;
    }
    assert(crate::archive::slash_end(cs@, i as int) == i);
    if i == n {
        return Err(Error::Parse("a repository is written owner/name".to_owned()));
    }
    let owner = crate::archive::sub_vec(&cs, 0, i);
    let name = crate::archive::sub_vec(&cs, i + 1, n);
    Ok((string_from_chars(&owner), string_from_chars(&name)))
}

/// The names of a release's assets.
pub open spec fn asset_names(assets: Seq<Asset>) -> Seq<Seq<char>> {
    assets.map_values(|a: Asset| a@.name)
}

/// The selector's choice among a release's assets.
#[derive(Debug)]
pub struct AssetChoice {
    /// The index of the chosen asset in the release's asset list.
    pub index: usize,
    /// The chosen asset.
    pub asset: Asset,
    /// Every index that passed the filters, in order; more than one means
    /// the caller should warn about the tie.
    pub matches: Vec<usize>,
}

/// Choose the asset of `release` for the host platform. Fails with
/// `NoMatchingAsset`, naming the repository and tag, when no asset passes
/// the filters; otherwise picks the first asset of maximal priority.
pub fn resolve_asset(repo: &str, release: &Release, os: Os, arch: Arch) -> (r: Result<
    AssetChoice,
    Error,
>)
    ensures
        match r {
            Ok(c) => {
                &&& c.index < release.assets@.len()
                &&& c.asset@ == release.assets@[c.index as int]@
                &&& c.matches@ == passing_upto(
                    asset_names(release.assets@),
                    os,
                    arch,
                    release.assets@.len() as int,
                )
                &&& passes(os, arch, release.assets@[c.index as int]@.name)
                &&& forall|k: int|
                    0 <= k < release.assets@.len() && passes(
                        os,
                        arch,
                        (#[trigger] release.assets@[k])@.name,
                    ) ==> priority_of(release.assets@[k]@.name) <= priority_of(
                        release.assets@[c.index as int]@.name,
                    )
                &&& forall|k: int|
                    0 <= k < c.index && passes(os, arch, (#[trigger] release.assets@[k])@.name)
                        ==> priority_of(release.assets@[k]@.name) < priority_of(
                        release.assets@[c.index as int]@.name,
                    )
            },
            Err(e) => {
                &&& (e matches Error::NoMatchingAsset { repo: r2, tag } && r2@ == repo@ && tag@
                    == release.tag_name@)
                &&& forall|k: int|
                    0 <= k < release.assets@.len() ==> !passes(
                        os,
                        arch,
                        (#[trigger] release.assets@[k])@.name,
                    )
            },
        },
{
    let mut names: Vec<String> = Vec::new();
    let mut i: usize = 0;
    while i < release.assets.len()
        invariant
            i <= release.assets@.len(),
            names@.len() == i,
            forall|k: int| 0 <= k < i ==> (#[trigger] names@[k])@ == release.assets@[k]@.name,
        decreases release.assets@.len() - i,
    {
        names.push(release.assets[i].name.clone());
        i += 1;
    }
    proof {
        assert(names@.map_values(|s: String| s@) =~= asset_names(release.assets@));
    }
    match filter_assets(os, arch, &names) {
        Some(sel) => {
            let idx = sel.index;
            let c = AssetChoice {
                index: idx,
                asset: release.assets[idx].clone(),
                matches: sel.matches,
            };
            proof {
                assert(names@[idx as int]@ == release.assets@[idx as int]@.name);
                assert forall|k: int|
                    0 <= k < release.assets@.len() && passes(
                        os,
                        arch,
                        (#[trigger] release.assets@[k])@.name,
                    ) implies priority_of(release.assets@[k]@.name) <= priority_of(
                    release.assets@[idx as int]@.name,
                ) by {
                    assert(names@[k]@ == release.assets@[k]@.name);
                }
                assert forall|k: int|
                    0 <= k < idx && passes(os, arch, (#[trigger] release.assets@[k])@.name) implies
                    priority_of(release.assets@[k]@.name) < priority_of(
                    release.assets@[idx as int]@.name,
                ) by {
                    assert(names@[k]@ == release.assets@[k]@.name);
                }
            }
            Ok(c)
        },
        None => {
            proof {
                assert forall|k: int| 0 <= k < release.assets@.len() implies !passes(
                    os,
                    arch,
                    (#[trigger] release.assets@[k])@.name,
                ) by {
                    assert(names@[k]@ == release.assets@[k]@.name);
                }
            }
            Err(Error::NoMatchingAsset { repo: repo.to_owned(), tag: release.tag_name.clone() })
        },
    }
}

/// What materializing a chosen asset has to do.
#[derive(Debug)]
pub enum FetchPlan {
    /// The file is already in the cache; reuse it, no transfer.
    Reuse,
    /// Transfer from this URL into the cache.
    Transfer(String),
}

/// Decide whether the chosen asset needs a network transfer: a cache hit is
/// reused, only a miss transfers.
pub fn fetch_asset(asset: &Asset, cache_has: bool) -> (r: FetchPlan)
    ensures
        cache_has ==> r is Reuse,
        !cache_has ==> (r matches FetchPlan::Transfer(u) && u@ == asset@.download_url),
{
    if cache_has {
        FetchPlan::Reuse
    } else {
        FetchPlan::Transfer(asset.download_url.clone())
    }
}

/// The cache, modeled as the set of asset filenames it holds.
pub open spec fn cache_after(cache: Set<Seq<char>>, filename: Seq<char>) -> Set<Seq<char>> {
    cache.insert(filename)
}

/// Whether materializing `filename` against this cache transfers.
pub open spec fn transfer_needed(cache: Set<Seq<char>>, filename: Seq<char>) -> bool {
    !cache.contains(filename)
}

/// Law: downloads are idempotent per resolved filename. After one download
/// the file is cached, so a second download of the same filename never
/// transfers: two consecutive downloads perform exactly one transfer when
/// the cache starts without the file, and none when it already holds it.
pub proof fn lemma_download_idempotent(cache: Set<Seq<char>>, filename: Seq<char>)
    ensures
        !transfer_needed(cache_after(cache, filename), filename),
        transfer_needed(cache, filename) <==> !cache.contains(filename),
{
}

/// ASCII whitespace.
pub open spec fn is_space(c: char) -> bool {
    c == ' ' || c == '\t' || c == '\n' || c == '\r' || c == '\u{0C}'
}

/// `s` without leading whitespace.
pub open spec fn trim_start_spec(s: Seq<char>) -> Seq<char>
    decreases s.len(),
{
    if s.len() > 0 && is_space(s[0]) {
        trim_start_spec(s.drop_first())
    } else {
        s
    }
}

/// `s` without trailing whitespace.
pub open spec fn trim_end_spec(s: Seq<char>) -> Seq<char>
    decreases s.len(),
{
    if s.len() > 0 && is_space(s[s.len() - 1]) {
        trim_end_spec(s.drop_last())
    } else {
        s
    }
}

/// `s` without leading and trailing ASCII whitespace.
pub open spec fn trim_spec(s: Seq<char>) -> Seq<char> {
    trim_end_spec(trim_start_spec(s))
}

fn space_char(c: char) -> (r: bool)
    ensures
        r == is_space(c),
{
    c == ' ' || c == '\t' || c == '\n' || c == '\r' || c == '\u{0C}'
}

/// Strip leading and trailing ASCII whitespace from a description.
pub fn trim(s: &str) -> (r: String)
    ensures
        r@ == trim_spec(s@),
{
    let cs = chars_of(s);
    let n = cs.len();
    proof {
        assert(cs@.subrange(0, n as int) =~= cs@);
    }
    let mut a: usize = 0;
    while a < n && space_char(cs[a])
        invariant
            a <= n,
            n == cs@.len(),
            trim_start_spec(cs@) == trim_start_spec(cs@.subrange(a as int, n as int)),
        decreases n - a,
    {
        proof {
            assert(cs@.subrange(a as int, n as int).drop_first() =~= cs@.subrange(a + 1, n as int));
        }
        a += 1;
    }
    let ghost t = trim_start_spec(cs@);
    proof {
        assert(t == cs@.subrange(a as int, n as int));
    }
    let mut b: usize = n;
    while b > a && space_char(cs[b - 1])
        invariant
            a <= b <= n,
            n == cs@.len(),
            t == cs@.subrange(a as int, n as int),
            trim_end_spec(t) == trim_end_spec(cs@.subrange(a as int, b as int)),
        decreases b,
    {
        proof {
            assert(cs@.subrange(a as int, b as int).drop_last() =~= cs@.subrange(a as int, b - 1));
            assert(cs@.subrange(a as int, b as int)[b - 1 - a] == cs@[b - 1]);
        }
        b -= 1;
    }
    proof {
        if b > a {
            assert(cs@.subrange(a as int, b as int)[b - 1 - a] == cs@[b - 1]);
        } else {
            assert(cs@.subrange(a as int, b as int) =~= Seq::<char>::empty());
        }
        assert(trim_end_spec(cs@.subrange(a as int, b as int)) == cs@.subrange(a as int, b as int));
    }
    let out = crate::archive::sub_vec(&cs, a, b);
    string_from_chars(&out)
}

/// The locked record a finished download produces: the package's name and
/// source, the resolved tag, the chosen asset's filename and URL, and the
/// description, trimmed.
pub fn locked_package_for(pkg: &Package, tag: &str, asset: &Asset, desc: Option<String>) -> (r:
    LockedPackage)
    ensures
        r@.name == pkg@.name,
        r@.version == tag@,
        r@.source == pkg@.source,
        r@.filename == asset@.name,
        r@.download_url == Some(asset@.download_url),
        r@.desc == match opt_view(desc) {
            Some(d) => Some(trim_spec(d)),
            None => None::<Seq<char>>,
        },
{
    let trimmed: Option<String> = match desc {
        Some(d) => Some(trim(d.as_str())),
        None => None,
    };
    LockedPackage {
        name: pkg.name.clone(),
        version: tag.to_owned(),
        source: pkg.source.clone(),
        desc: trimmed,
        filename: asset.name.clone(),
        download_url: Some(asset.download_url.clone()),
    }
}

/// The position of the first asset with exactly this filename.
pub open spec fn asset_with_name(assets: Seq<Asset>, filename: Seq<char>, n: int) -> Option<int>
    decreases n,
{
    if n <= 0 {
        None
    } else {
        match asset_with_name(assets, filename, n - 1) {
            Some(i) => Some(i),
            None => if assets[n - 1]@.name == filename {
                Some(n - 1)
            } else {
                None
            },
        }
    }
}

/// Find the asset a locked package remembers, by its exact filename. When
/// the asset vanished from the release, that is a hard not-found error.
pub fn find_asset_exact(release: &Release, filename: &str) -> (r: Result<Asset, Error>)
    ensures
        match r {
            Ok(a) => exists|i: int|
                0 <= i < release.assets@.len() && a@ == (#[trigger] release.assets@[i])@ && a@.name
                    == filename@,
            Err(e) => e is NotFound && forall|i: int|
                0 <= i < release.assets@.len() ==> (#[trigger] release.assets@[i])@.name
                    != filename@,
        },
{
    let target = chars_of(filename);
    let mut i: usize = 0;
    while i < release.assets.len()
        invariant
            i <= release.assets@.len(),
            target@ == filename@,
            forall|k: int| 0 <= k < i ==> (#[trigger] release.assets@[k])@.name != filename@,
        decreases release.assets@.len() - i,
    {
        let name = chars_of(release.assets[i].name.as_str());
        if chars_eq(&name, &target) {
            return Ok(release.assets[i].clone());
        }
        i += 1;
    }
    Err(Error::NotFound("the remembered asset is no longer attached to the release".to_owned()))
}

} // verus!
