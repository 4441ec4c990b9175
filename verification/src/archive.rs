//! Archive format detection and path-component helpers used when planning
//! an extraction.

use vstd::prelude::*;
use crate::text::chars_eq;

verus! {

/// A stream compression an archive may be wrapped in.
#[derive(Debug, Clone, Copy, PartialEq, Eq, Structural)]
pub enum Compression {
    Gzip,
}

/// The container format of a downloaded asset, as told by its filename.
#[derive(Debug, Clone, Copy, PartialEq, Eq)]
pub enum ArchiveKind {
    /// Not an archive: the (possibly compressed) stream is the binary itself.
    Plain(Option<Compression>),
    /// A tar archive, possibly compressed.
    Tar(Option<Compression>),
    /// A zip archive.
    Zip,
}

/// The largest index below `i` holding a `.`, or -1 when there is none.
pub open spec fn last_dot_pos(s: Seq<char>, i: int) -> int
    decreases i,
{
    if i <= 0 {
        -1
    } else if s[i - 1] == '.' {
        i - 1
    } else {
        last_dot_pos(s, i - 1)
    }
}

pub open spec fn tok_zip() -> Seq<char> { seq!['z', 'i', 'p'] }

pub open spec fn tok_tar() -> Seq<char> { seq!['t', 'a', 'r'] }

pub open spec fn tok_tgz() -> Seq<char> { seq!['t', 'g', 'z'] }

pub open spec fn tok_gz() -> Seq<char> { seq!['g', 'z'] }

/// The extension of a filename: what follows the last dot, provided
/// something precedes that dot.
pub open spec fn ext_of(s: Seq<char>) -> Option<Seq<char>> {
    let d = last_dot_pos(s, s.len() as int);
    if d >= 1 {
        Some(s.subrange(d + 1, s.len() as int))
    } else {
        None
    }
}

/// The stem of a filename: what precedes the last dot.
pub open spec fn stem_of(s: Seq<char>) -> Seq<char> {
    let d = last_dot_pos(s, s.len() as int);
    if d >= 1 {
        s.subrange(0, d)
    } else {
        s
    }
}

/// The archive kind a filename announces: `.zip`, `.tar`, `.tgz`, `.tar.gz`
/// are containers; a bare `.gz` is a compressed plain binary; anything else
/// is a plain binary.
pub open spec fn detect_spec(s: Seq<char>) -> ArchiveKind {
    match ext_of(s) {
        Some(ext) => {
            if ext == tok_zip() {
                ArchiveKind::Zip
            } else if ext == tok_tar() {
                ArchiveKind::Tar(None)
            } else if ext == tok_tgz() {
                ArchiveKind::Tar(Some(Compression::Gzip))
            } else if ext == tok_gz() {
                if ext_of(stem_of(s)) == Some(tok_tar()) {
                    ArchiveKind::Tar(Some(Compression::Gzip))
                } else {
                    ArchiveKind::Plain(Some(Compression::Gzip))
                }
            } else {
                ArchiveKind::Plain(None)
            }
        },
        None => ArchiveKind::Plain(None),
    }
}

/// A copy of `p[a..b]`.
pub fn sub_vec(p: &Vec<char>, a: usize, b: usize) -> (r: Vec<char>)
    requires
        a <= b <= p@.len(),
    ensures
        r@ == p@.subrange(a as int, b as int),
{
    let mut r: Vec<char> = Vec::new();
    let mut i: usize = a;
    while i < b
        invariant
            a <= i <= b <= p@.len(),
            r@ == p@.subrange(a as int, i as int),
        decreases b - i,
    {
        r.push(p[i]);
        i += 1;
        assert(r@ =~= p@.subrange(a as int, i as int));
    }
    r
}

/// The index of the last dot of `p`, executably.
fn find_last_dot(p: &Vec<char>) -> (r: Option<usize>)
    ensures
        match r {
            Some(d) => last_dot_pos(p@, p@.len() as int) == d as int && d < p@.len(),
            None => last_dot_pos(p@, p@.len() as int) == -1,
        },
{
    let mut i: usize = p.len();
    while i > 0
        invariant
            i <= p@.len(),
            last_dot_pos(p@, p@.len() as int) == last_dot_pos(p@, i as int),
        decreases i,
    {
        if p[i - 1] == '.' {
            return Some(i - 1);
        }
        i -= 1;
    }
    None
}

/// Detect the archive kind from the asset filename.
pub fn detect_archive(filename: &Vec<char>) -> (r: ArchiveKind)
    ensures
        r == detect_spec(filename@),
{
    let d = match find_last_dot(filename) {
        Some(d) if d >= 1 => d,
        _ => {
            return ArchiveKind::Plain(None);
        },
    };
    let n = filename.len();
    assert(d < n);
    let ext = sub_vec(filename, d + 1, n);
    let zipv: Vec<char> = vec!['z', 'i', 'p'];
    assert(zipv@ =~= tok_zip());
    if chars_eq(&ext, &zipv) {
        return ArchiveKind::Zip;
    }
    let tarv: Vec<char> = vec!['t', 'a', 'r'];
    assert(tarv@ =~= tok_tar());
    if chars_eq(&ext, &tarv) {
        return ArchiveKind::Tar(None);
    }
    let tgzv: Vec<char> = vec!['t', 'g', 'z'];
    assert(tgzv@ =~= tok_tgz());
    if chars_eq(&ext, &tgzv) {
        return ArchiveKind::Tar(Some(Compression::Gzip));
    }
    let gzv: Vec<char> = vec!['g', 'z'];
    assert(gzv@ =~= tok_gz());
    if chars_eq(&ext, &gzv) {
        let stem = sub_vec(filename, 0, d);
        assert(stem@ == stem_of(filename@));
        let d2 = match find_last_dot(&stem) {
            Some(d2) if d2 >= 1 => d2,
            _ => {
                return ArchiveKind::Plain(Some(Compression::Gzip));
            },
        };
        let ext2 = sub_vec(&stem, d2 + 1, stem.len());
        if chars_eq(&ext2, &tarv) {
            return ArchiveKind::Tar(Some(Compression::Gzip));
        }
        return ArchiveKind::Plain(Some(Compression::Gzip));
    }
    ArchiveKind::Plain(None)
}

/// The first index at or after `i` holding a slash, or the length.
pub open spec fn slash_end(p: Seq<char>, i: int) -> int
    decreases p.len() - i,
{
    if i < 0 || i >= p.len() {
        p.len() as int
    } else if p[i] == '/' {
        i
    } else {
        slash_end(p, i + 1)
    }
}

/// The first index at or after `i` holding no slash, or the length.
pub open spec fn skip_slashes(p: Seq<char>, i: int) -> int
    decreases p.len() - i,
{
    if i < 0 || i >= p.len() {
        p.len() as int
    } else if p[i] == '/' {
        skip_slashes(p, i + 1)
    } else {
        i
    }
}

/// The leading path component of `p`: everything before the first slash.
pub open spec fn first_comp(p: Seq<char>) -> Seq<char> {
    p.subrange(0, slash_end(p, 0))
}

/// What remains of `p` after its leading component and the slashes that
/// follow it.
pub open spec fn rest_of(p: Seq<char>) -> Seq<char> {
    p.subrange(skip_slashes(p, slash_end(p, 0)), p.len() as int)
}

/// `p` without trailing slashes.
pub open spec fn trim_end(p: Seq<char>) -> Seq<char>
    decreases p.len(),
{
    if p.len() > 0 && p[p.len() - 1] == '/' {
        trim_end(p.drop_last())
    } else {
        p
    }
}

/// The start of the path component that ends at `i`: the first index after
/// the last slash below `i`.
pub open spec fn comp_start(q: Seq<char>, i: int) -> int
    decreases i,
{
    if i <= 0 {
        0
    } else if q[i - 1] == '/' {
        i
    } else {
        comp_start(q, i - 1)
    }
}

/// The last path component of `p`: the file name it points at.
pub open spec fn last_comp(p: Seq<char>) -> Seq<char> {
    let t = trim_end(p);
    t.subrange(comp_start(t, t.len() as int), t.len() as int)
}

/// Split `p` into its leading component and the rest.
pub fn path_split(p: &Vec<char>) -> (r: (Vec<char>, Vec<char>))
    ensures
        r.0@ == first_comp(p@),
        r.1@ == rest_of(p@),
{
    let n = p.len();
    let mut i: usize = 0;
    while i < n && p[i] != '/'
        invariant
            i <= n,
            n == p@.len(),
            slash_end(p@, 0) == slash_end(p@, i as int),
        decreases n - i,
    {
        i += 1;
    }
    assert(slash_end(p@, i as int) == i);
    let head = sub_vec(p, 0, i);
    let mut j: usize = i;
    while j < n && p[j] == '/'
        invariant
            i <= j <= n,
            n == p@.len(),
            skip_slashes(p@, i as int) == skip_slashes(p@, j as int),
        decreases n - j,
    {
        j += 1;
    }
    assert(skip_slashes(p@, j as int) == j);
    let rest = sub_vec(p, j, n);
    (head, rest)
}

/// The last path component of `p`, executably.
pub fn path_last_comp(p: &Vec<char>) -> (r: Vec<char>)
    ensures
        r@ == last_comp(p@),
{
    let mut e: usize = p.len();
    proof {
        assert(p@.subrange(0, e as int) =~= p@);
    }
    while e > 0 && p[e - 1] == '/'
        invariant
            e <= p@.len(),
            trim_end(p@) == trim_end(p@.subrange(0, e as int)),
        decreases e,
    {
        proof {
            assert(p@.subrange(0, e as int).drop_last() =~= p@.subrange(0, e - 1));
        }
        e -= 1;
    }
    proof {
        if e == 0 {
            assert(p@.subrange(0, 0) =~= Seq::<char>::empty());
        }
        assert(trim_end(p@.subrange(0, e as int)) == p@.subrange(0, e as int));
    }
    let ghost t = trim_end(p@);
    assert(t == p@.subrange(0, e as int));
    let mut s: usize = e;
    while s > 0 && p[s - 1] != '/'
        invariant
            s <= e <= p@.len(),
            t == p@.subrange(0, e as int),
            comp_start(t, e as int) == comp_start(t, s as int),
        decreases s,
    {
        proof {
            assert(t[s - 1] == p@[s - 1]);
        }
        s -= 1;
    }
    proof {
        if s > 0 {
            assert(t[s - 1] == p@[s - 1]);
        }
        assert(comp_start(t, s as int) == s);
        assert(t.subrange(s as int, e as int) =~= p@.subrange(s as int, e as int));
    }
    sub_vec(p, s, e)
}

/// Every path shares the leading component of the first one, and every path
/// has something after it.
pub open spec fn all_share_first(ps: Seq<Seq<char>>) -> bool {
    forall|k: int|
        0 <= k < ps.len() ==> first_comp(#[trigger] ps[k]) == first_comp(ps[0]) && rest_of(
            ps[k],
        ).len() > 0
}

/// The common leading directory of the paths: the first component they all
/// share, provided each of them has at least two components.
pub open spec fn prefix_of_paths(ps: Seq<Seq<char>>) -> Option<Seq<char>> {
    if ps.len() > 0 && all_share_first(ps) {
        Some(first_comp(ps[0]))
    } else {
        None
    }
}

/// A path with the common leading directory stripped, when one was found.
pub open spec fn stripped(p: Seq<char>, pre: Option<Seq<char>>) -> Seq<char> {
    match pre {
        Some(_) => rest_of(p),
        None => p,
    }
}

/// A path is safe to extract: relative, and free of `..` segments. Because
/// `..` holds no letters, case-insensitive containment coincides with exact
/// containment here.
pub open spec fn path_is_safe(p: Seq<char>) -> bool {
    &&& p.len() > 0
    &&& p[0] != '/'
    &&& !crate::text::ci_contains(p, seq!['.', '.'])
}

/// Whether a path is safe to extract.
pub fn check_path_safe(p: &Vec<char>) -> (r: bool)
    ensures
        r == path_is_safe(p@),
{
    if p.len() == 0 {
        return false;
    }
    if p[0] == '/' {
        return false;
    }
    let dots: Vec<char> = vec!['.', '.'];
    assert(dots@ =~= seq!['.', '.']);
    !crate::text::contains_ci(p, &dots)
}

} // verus!
