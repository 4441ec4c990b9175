//! The data model: manifest packages, locked packages, and release metadata.

use vstd::prelude::*;

verus! {

/// Where a package's releases are published.
#[derive(Debug)]
pub enum Source {
    Github { repo: String },
}

/// The abstract value of a `Source`.
#[verifier::ext_equal]
pub struct SourceView {
    pub repo: Seq<char>,
}

impl View for Source {
    type V = SourceView;

    open spec fn view(&self) -> SourceView {
        match self {
            Source::Github { repo } => SourceView { repo: repo@ },
        }
    }
}

impl Clone for Source {
    fn clone(&self) -> (r: Self)
        ensures
            r@ == self@,
    {
        match self {
            Source::Github { repo } => Source::Github { repo: repo.clone() },
        }
    }
}

impl Source {
    /// The repository this source points at.
    pub fn repo(&self) -> (r: &String)
        ensures
            r@ == self@.repo,
    {
        match self {
            Source::Github { repo } => repo,
        }
    }

    /// The source written for display: host, then repository.
    pub fn display_string(&self) -> (r: String)
        ensures
            r@ == "github.com:"@ + self@.repo,
    {
        let mut s = "github.com:".to_owned();
        s.append(self.repo().as_str());
        s
    }
}

/// A manifest entry: what the user wants installed.
#[derive(Debug)]
pub struct Package {
    /// The unique name of the package.
    pub name: String,
    /// The pinned version, or `None` to track the latest release.
    pub version: Option<String>,
    /// Where releases are published.
    pub source: Source,
    /// An optional description.
    pub desc: Option<String>,
}

/// The abstract value of a `Package`.
#[verifier::ext_equal]
pub struct PackageView {
    pub name: Seq<char>,
    pub version: Option<Seq<char>>,
    pub source: SourceView,
    pub desc: Option<Seq<char>>,
}

/// The abstract value of an optional string.
pub open spec fn opt_view(o: Option<String>) -> Option<Seq<char>> {
    match o {
        Some(s) => Some(s@),
        None => None,
    }
}

impl View for Package {
    type V = PackageView;

    open spec fn view(&self) -> PackageView {
        PackageView {
            name: self.name@,
            version: opt_view(self.version),
            source: self.source@,
            desc: opt_view(self.desc),
        }
    }
}

impl Clone for Package {
    fn clone(&self) -> (r: Self)
        ensures
            r@ == self@,
    {
        Package {
            name: self.name.clone(),
            version: clone_opt(&self.version),
            source: self.source.clone(),
            desc: clone_opt(&self.desc),
        }
    }
}

/// A clone of an optional string.
pub fn clone_opt(o: &Option<String>) -> (r: Option<String>)
    ensures
        opt_view(r) == opt_view(*o),
{
    match o {
        Some(s) => Some(s.clone()),
        None => None,
    }
}

/// Whether two optional strings hold the same value.
pub fn opt_eq(a: &Option<String>, b: &Option<String>) -> (r: bool)
    ensures
        r == (opt_view(*a) == opt_view(*b)),
{
    match (a, b) {
        (Some(x), Some(y)) => crate::text::str_eq(x.as_str(), y.as_str()),
        (None, None) => true,
        _ => false,
    }
}

/// The resolved record of one installed package.
#[derive(Debug)]
pub struct LockedPackage {
    /// The unique name of the package.
    pub name: String,
    /// The concrete version that is installed.
    pub version: String,
    /// Where the release came from.
    pub source: Source,
    /// An optional description.
    pub desc: Option<String>,
    /// The filename of the cached asset.
    pub filename: String,
    /// The remembered direct download URL, when known.
    pub download_url: Option<String>,
}

/// The abstract value of a `LockedPackage`.
#[verifier::ext_equal]
pub struct LockedPackageView {
    pub name: Seq<char>,
    pub version: Seq<char>,
    pub source: SourceView,
    pub desc: Option<Seq<char>>,
    pub filename: Seq<char>,
    pub download_url: Option<Seq<char>>,
}

impl View for LockedPackage {
    type V = LockedPackageView;

    open spec fn view(&self) -> LockedPackageView {
        LockedPackageView {
            name: self.name@,
            version: self.version@,
            source: self.source@,
            desc: opt_view(self.desc),
            filename: self.filename@,
            download_url: opt_view(self.download_url),
        }
    }
}

impl Clone for LockedPackage {
    fn clone(&self) -> (r: Self)
        ensures
            r@ == self@,
    {
        LockedPackage {
            name: self.name.clone(),
            version: self.version.clone(),
            source: self.source.clone(),
            desc: clone_opt(&self.desc),
            filename: self.filename.clone(),
            download_url: clone_opt(&self.download_url),
        }
    }
}

impl LockedPackage {
    /// Whether this record equals `other` in every field.
    pub fn same_as(&self, other: &LockedPackage) -> (r: bool)
        ensures
            r == (self@ == other@),
    {
        let r = crate::text::str_eq(self.name.as_str(), other.name.as_str())
            && crate::text::str_eq(self.version.as_str(), other.version.as_str())
            && crate::text::str_eq(self.source.repo().as_str(), other.source.repo().as_str())
            && opt_eq(&self.desc, &other.desc)
            && crate::text::str_eq(self.filename.as_str(), other.filename.as_str())
            && opt_eq(&self.download_url, &other.download_url);
        proof {
            if r {
                assert(self@.source =~= other@.source);
                assert(self@ =~= other@);
            }
        }
        r
    }
}

impl Package {
    /// The package written for display: name, version or `latest`, source.
    pub fn display_string(&self) -> (r: String)
        ensures
            r@ == self@.name + "@"@ + (match self@.version {
                Some(v) => v,
                None => "latest"@,
            }) + " from "@ + "github.com:"@ + self@.source.repo,
    {
        let mut s = self.name.clone();
        s.append("@");
        match &self.version {
            Some(v) => s.append(v.as_str()),
            None => s.append("latest"),
        }
        s.append(" from ");
        let src = self.source.display_string();
        s.append(src.as_str());
        s
    }
}

/// The manifest: every package the user declared.
#[derive(Debug)]
pub struct Config {
    /// The declared packages, one per name.
    pub pkgs: Vec<Package>,
}

/// The position of the first package with this name.
pub open spec fn config_find(pkgs: Seq<Package>, name: Seq<char>, n: int) -> Option<int>
    decreases n,
{
    if n <= 0 {
        None
    } else {
        match config_find(pkgs, name, n - 1) {
            Some(i) => Some(i),
            None => if pkgs[n - 1]@.name == name {
                Some(n - 1)
            } else {
                None
            },
        }
    }
}

impl Config {
    /// Well-formed: package names are unique.
    pub open spec fn wf(&self) -> bool {
        forall|i: int, j: int|
            0 <= i < j < self.pkgs@.len() ==> self.pkgs@[i]@.name != self.pkgs@[j]@.name
    }

    /// The declared package with this name, when there is one.
    pub fn get(&self, name: &str) -> (r: Option<&Package>)
        ensures
            match r {
                Some(p) => exists|i: int|
                    config_find(self.pkgs@, name@, self.pkgs@.len() as int) == Some(i) && 0 <= i
                        < self.pkgs@.len() && p@ == (#[trigger] self.pkgs@[i])@,
                None => config_find(self.pkgs@, name@, self.pkgs@.len() as int) is None,
            },
    {
        let mut i: usize = 0;
        while i < self.pkgs.len()
            invariant
                i <= self.pkgs@.len(),
                config_find(self.pkgs@, name@, i as int) is None,
            decreases self.pkgs@.len() - i,
        {
            if crate::text::str_eq(self.pkgs[i].name.as_str(), name) {
                proof {
                    lemma_config_find_found(self.pkgs@, name@, i as int, self.pkgs@.len() as int);
                }
                return Some(&self.pkgs[i]);
            }
            i += 1;
        }
        None
    }
}

/// Once a name is found at `i` with nothing before it, later scans keep it.
proof fn lemma_config_find_found(pkgs: Seq<Package>, name: Seq<char>, i: int, n: int)
    requires
        0 <= i < n <= pkgs.len(),
        pkgs[i]@.name == name,
        config_find(pkgs, name, i) is None,
    ensures
        config_find(pkgs, name, n) == Some(i),
    decreases n,
{
    if n - 1 > i {
        lemma_config_find_found(pkgs, name, i, n - 1);
    }
}

/// The manifest entry a locked record stands for: the same name and source,
/// with the installed version pinned.
pub open spec fn package_of_locked(l: LockedPackageView) -> PackageView {
    PackageView { name: l.name, version: Some(l.version), source: l.source, desc: l.desc }
}

impl From<LockedPackage> for Package {
    fn from(val: LockedPackage) -> (r: Package) {
        Package {
            name: val.name,
            version: Some(val.version),
            source: val.source,
            desc: val.desc,
        }
    }
}

impl vstd::std_specs::convert::FromSpecImpl<LockedPackage> for Package {
    open spec fn obeys_from_spec() -> bool {
        true
    }

    open spec fn from_spec(v: LockedPackage) -> Package {
        Package { name: v.name, version: Some(v.version), source: v.source, desc: v.desc }
    }
}

/// One downloadable file attached to a release.
#[derive(Debug)]
pub struct Asset {
    /// The filename of the asset.
    pub name: String,
    /// Its direct download URL.
    pub download_url: String,
}

/// The abstract value of an `Asset`.
#[verifier::ext_equal]
pub struct AssetView {
    pub name: Seq<char>,
    pub download_url: Seq<char>,
}

impl View for Asset {
    type V = AssetView;

    open spec fn view(&self) -> AssetView {
        AssetView { name: self.name@, download_url: self.download_url@ }
    }
}

impl Clone for Asset {
    fn clone(&self) -> (r: Self)
        ensures
            r@ == self@,
    {
        Asset { name: self.name.clone(), download_url: self.download_url.clone() }
    }
}

/// A tagged publication of a repository, owning zero or more assets.
#[derive(Debug)]
pub struct Release {
    /// The tag of the release.
    pub tag_name: String,
    /// The downloadable files attached to it.
    pub assets: Vec<Asset>,
}

/// A license of a repository.
#[derive(Debug)]
pub struct License {
    pub key: String,
    pub name: String,
}

/// Repository metadata, as much of it as the core reads.
#[derive(Debug)]
pub struct Repository {
    pub name: String,
    pub full_name: Option<String>,
    pub description: Option<String>,
    pub stargazers_count: Option<u32>,
    pub license: Option<License>,
}

} // verus!
