//! Planning the installation of a downloaded asset: unpack the archive in
//! memory, strip the common leading directory, find the binary, and describe
//! every file write and the symlink for the caller to perform.

use vstd::prelude::*;
use crate::archive::{
    detect_archive, path_is_safe, check_path_safe, path_last_comp, path_split, first_comp,
    last_comp, rest_of, prefix_of_paths, stripped, ArchiveKind, Compression,
};
use crate::error::Error;
use crate::text::{chars_of, chars_eq, string_from_chars};

verus! {

/// One member of an archive, as handed back by the unpacking wrappers.
#[derive(Debug)]
pub struct ArchiveEntry {
    /// The path stored in the archive.
    pub path: String,
    /// Whether the member is a directory.
    pub is_dir: bool,
    /// The stored Unix mode bits, when the archive records any.
    pub mode: Option<u32>,
    /// The member's contents.
    pub data: Vec<u8>,
}

/// The abstract value of an `ArchiveEntry`.
#[verifier::ext_equal]
pub struct EntryView {
    pub path: Seq<char>,
    pub is_dir: bool,
    pub mode: Option<u32>,
    pub data: Seq<u8>,
}

impl View for ArchiveEntry {
    type V = EntryView;

    open spec fn view(&self) -> EntryView {
        EntryView { path: self.path@, is_dir: self.is_dir, mode: self.mode, data: self.data@ }
    }
}

/// A copy of a byte vector.
pub fn clone_bytes(v: &Vec<u8>) -> (r: Vec<u8>)
    ensures
        r@ == v@,
{
    let mut r: Vec<u8> = Vec::new();
    let mut i: usize = 0;
    while i < v.len()
        invariant
            i <= v@.len(),
            r@ == v@.subrange(0, i as int),
        decreases v@.len() - i,
    {
        r.push(v[i]);
        i += 1;
        assert(r@ =~= v@.subrange(0, i as int));
    }
    assert(r@ =~= v@);
    r
}

impl Clone for ArchiveEntry {
    fn clone(&self) -> (r: Self)
        ensures
            r@ == self@,
    {
        ArchiveEntry {
            path: self.path.clone(),
            is_dir: self.is_dir,
            mode: self.mode,
            data: clone_bytes(&self.data),
        }
    }
}

/// What decompressing a gzip stream yields; `None` when the stream is not
/// valid gzip. A function of the bytes alone.
pub uninterp spec fn gunzip_of(b: Seq<u8>) -> Option<Seq<u8>>;

/// What reading a tar archive yields; `None` when the bytes are not a
/// readable tar archive. A function of the bytes alone.
pub uninterp spec fn tar_entries_of(b: Seq<u8>) -> Option<Seq<EntryView>>;

/// What reading a zip archive yields; `None` when the bytes are not a
/// readable zip archive. A function of the bytes alone.
pub uninterp spec fn zip_entries_of(b: Seq<u8>) -> Option<Seq<EntryView>>;

/// Relies on flate2's `GzDecoder`: decompressing is a pure function of the
/// compressed bytes; it fails exactly on streams that are not valid gzip.
#[verifier::external_body]
fn gzip_decode(data: &Vec<u8>) -> (r: Result<Vec<u8>, String>)
    ensures
        r is Ok <==> gunzip_of(data@) is Some,
        r matches Ok(v) ==> gunzip_of(data@) == Some(v@),
{
    let mut d = flate2::read::GzDecoder::new(&data[..]);
    let mut out = Vec::new();
    match std::io::Read::read_to_end(&mut d, &mut out) {
        Ok(_) => Ok(out),
        Err(e) => Err(e.to_string()),
    }
}

/// Relies on tar's `Archive`: the list of members, their stored paths, modes
/// and contents are a pure function of the archive bytes.
#[verifier::external_body]
fn tar_entries(data: &Vec<u8>) -> (r: Result<Vec<ArchiveEntry>, String>)
    ensures
        r is Ok <==> tar_entries_of(data@) is Some,
        r matches Ok(v) ==> tar_entries_of(data@) == Some(entry_views(v@)),
{
    let mut ar = tar::Archive::new(&data[..]);
    let mut out = Vec::new();
    for ent in ar.entries().map_err(|e| e.to_string())? {
        let mut ent = ent.map_err(|e| e.to_string())?;
        let path = String::from_utf8_lossy(&ent.path_bytes()).into_owned();
        let is_dir = ent.header().entry_type().is_dir();
        let mode = ent.header().mode().ok();
        let mut data = Vec::new();
        std::io::Read::read_to_end(&mut ent, &mut data).map_err(|e| e.to_string())?;
        out.push(ArchiveEntry { path, is_dir, mode, data });
    }
    Ok(out)
}

/// Relies on zip's `ZipArchive`: the list of members, their stored names,
/// modes and contents are a pure function of the archive bytes.
#[verifier::external_body]
fn zip_entries(data: &Vec<u8>) -> (r: Result<Vec<ArchiveEntry>, String>)
    ensures
        r is Ok <==> zip_entries_of(data@) is Some,
        r matches Ok(v) ==> zip_entries_of(data@) == Some(entry_views(v@)),
{
    let cur = std::io::Cursor::new(&data[..]);
    let mut ar = zip::ZipArchive::new(cur).map_err(|e| e.to_string())?;
    let mut out = Vec::new();
    for i in 0..ar.len() {
        let mut f = ar.by_index(i).map_err(|e| e.to_string())?;
        let mut data = Vec::new();
        std::io::Read::read_to_end(&mut f, &mut data).map_err(|e| e.to_string())?;
        out.push(ArchiveEntry { path: f.name().to_string(), is_dir: f.is_dir(), mode: f.unix_mode(), data });
    }
    Ok(out)
}

/// One file the caller has to write when applying an install plan.
#[derive(Debug)]
pub struct FileWrite {
    /// The path relative to the per-version install directory.
    pub path: String,
    /// The file's contents.
    pub data: Vec<u8>,
    /// The Unix mode to give the file.
    pub mode: u32,
}

/// The abstract value of a `FileWrite`.
#[verifier::ext_equal]
pub struct FileWriteView {
    pub path: Seq<char>,
    pub data: Seq<u8>,
    pub mode: u32,
}

impl View for FileWrite {
    type V = FileWriteView;

    open spec fn view(&self) -> FileWriteView {
        FileWriteView { path: self.path@, data: self.data@, mode: self.mode }
    }
}

/// Everything the caller has to do to install one package version.
#[derive(Debug)]
pub struct InstallPlan {
    /// The files to write, in archive order, directories omitted.
    pub files: Vec<FileWrite>,
    /// The index into `files` of the binary the symlink points at.
    pub bin_index: usize,
    /// The paths of the other binary candidates, for a warning.
    pub extra_candidates: Vec<String>,
}

/// The abstract value of an `InstallPlan`.
#[verifier::ext_equal]
pub struct InstallPlanView {
    pub files: Seq<FileWriteView>,
    pub bin_index: int,
    pub extra_candidates: Seq<Seq<char>>,
}

impl View for InstallPlan {
    type V = InstallPlanView;

    open spec fn view(&self) -> InstallPlanView {
        InstallPlanView {
            files: self.files@.map_values(|f: FileWrite| f@),
            bin_index: self.bin_index as int,
            extra_candidates: self.extra_candidates@.map_values(|s: String| s@),
        }
    }
}

/// The regular-file members among the first `n` entries, in order.
pub open spec fn files_upto(es: Seq<EntryView>, n: int) -> Seq<EntryView>
    decreases n,
{
    if n <= 0 {
        Seq::empty()
    } else {
        let p = files_upto(es, n - 1);
        if !es[n - 1].is_dir {
            p.push(es[n - 1])
        } else {
            p
        }
    }
}

/// The regular-file members of an archive, in order.
pub open spec fn file_entries(es: Seq<EntryView>) -> Seq<EntryView> {
    files_upto(es, es.len() as int)
}

/// The abstract values of a vector of archive entries.
pub open spec fn entry_views(v: Seq<ArchiveEntry>) -> Seq<EntryView> {
    v.map_values(|e: ArchiveEntry| e@)
}

/// The stored paths of the given members.
pub open spec fn paths_of(fs: Seq<EntryView>) -> Seq<Seq<char>> {
    fs.map_values(|e: EntryView| e.path)
}

/// The abstract values of a vector of strings.
pub open spec fn string_views(s: Seq<String>) -> Seq<Seq<char>> {
    s.map_values(|x: String| x@)
}

/// A vector of indices, as mathematical integers.
pub open spec fn ints_of(s: Seq<usize>) -> Seq<int> {
    s.map_values(|u: usize| u as int)
}

/// The members' paths at the indices `ks`, prefix-stripped.
pub open spec fn stripped_paths(
    fs: Seq<EntryView>,
    pre: Option<Seq<char>>,
    ks: Seq<int>,
) -> Seq<Seq<char>> {
    ks.map_values(|k: int| stripped(fs[k].path, pre))
}

/// Some member's stripped path would escape the install directory.
pub open spec fn any_unsafe(fs: Seq<EntryView>, pre: Option<Seq<char>>) -> bool {
    exists|k: int| 0 <= k < fs.len() && !path_is_safe(#[trigger] stripped(fs[k].path, pre))
}

/// The stored mode of a member, with the default applied.
pub open spec fn mode_of(e: EntryView) -> u32 {
    match e.mode {
        Some(m) => m,
        None => 0o644u32,
    }
}

/// The mode a written file receives: binary candidates become executable.
pub open spec fn out_mode(e: EntryView, cand: bool) -> u32 {
    if cand {
        mode_of(e) | 0o111u32
    } else {
        mode_of(e)
    }
}

/// Whether file `k` is a binary candidate: its stripped path ends in the
/// package name, or it is the archive's only file.
pub open spec fn cand_at(fs: Seq<EntryView>, pre: Option<Seq<char>>, pkg: Seq<char>, k: int) -> bool {
    fs.len() == 1 || last_comp(stripped(fs[k].path, pre)) == pkg
}

/// The indices of the binary candidates among the first `n` files, in order.
pub open spec fn cands_upto(
    fs: Seq<EntryView>,
    pre: Option<Seq<char>>,
    pkg: Seq<char>,
    n: int,
) -> Seq<int>
    decreases n,
{
    if n <= 0 {
        Seq::empty()
    } else {
        let p = cands_upto(fs, pre, pkg, n - 1);
        if cand_at(fs, pre, pkg, n - 1) {
            p.push(n - 1)
        } else {
            p
        }
    }
}

/// A returned plan is right for the archive members `es` and package `pkg`:
/// one write per regular file, at its prefix-stripped path, with its stored
/// contents and mode, candidates made executable; the chosen binary is the
/// first candidate and the rest are listed for a warning.
pub open spec fn plan_ok(es: Seq<EntryView>, pkg: Seq<char>, pv: InstallPlanView) -> bool {
    let fs = file_entries(es);
    let pre = prefix_of_paths(paths_of(fs));
    let cs = cands_upto(fs, pre, pkg, fs.len() as int);
    &&& pv.files.len() == fs.len()
    &&& forall|k: int|
        0 <= k < fs.len() ==> {
            &&& (#[trigger] pv.files[k]).path == stripped(fs[k].path, pre)
            &&& pv.files[k].data == fs[k].data
            &&& pv.files[k].mode == out_mode(fs[k], cand_at(fs, pre, pkg, k))
        }
    &&& cs.len() > 0
    &&& pv.bin_index == cs[0]
    &&& pv.extra_candidates == stripped_paths(fs, pre, cs.drop_first())
}

/// What planning over archive members must return: an archive-format error
/// exactly when a member would escape the install directory, a no-binary
/// error exactly when no candidate exists, and otherwise a correct plan.
pub open spec fn plan_result_ok(
    es: Seq<EntryView>,
    pkg: Seq<char>,
    r: Result<InstallPlan, Error>,
) -> bool {
    let fs = file_entries(es);
    let pre = prefix_of_paths(paths_of(fs));
    if any_unsafe(fs, pre) {
        r matches Err(e) && e is ArchiveFormat
    } else if cands_upto(fs, pre, pkg, fs.len() as int).len() == 0 {
        r == Err::<InstallPlan, Error>(Error::NoBinaryFound)
    } else {
        r matches Ok(p) && plan_ok(es, pkg, p@)
    }
}

/// Plan the extraction of the given archive members for package `pkg`.
pub fn plan_entries(entries: &Vec<ArchiveEntry>, pkg: &Vec<char>) -> (r: Result<InstallPlan, Error>)
    ensures
        plan_result_ok(entry_views(entries@), pkg@, r),
{
    let ghost es = entry_views(entries@);

    // Keep the regular files, in archive order.
    let mut files: Vec<ArchiveEntry> = Vec::new();
    let mut i: usize = 0;
    while i < entries.len()
        invariant
            i <= entries@.len(),
            es == entry_views(entries@),
            entry_views(files@) == files_upto(es, i as int),
        decreases entries@.len() - i,
    {
        assert(es[i as int] == entries@[i as int]@);
        if !entries[i].is_dir {
            files.push(entries[i].clone());
            assert(entry_views(files@) =~= files_upto(es, i + 1));
        }
        i += 1;
    }
    let ghost fs = file_entries(es);
    assert(entry_views(files@) == fs);
    let ghost ps = paths_of(fs);
    let nfiles = files.len();

    if nfiles == 0 {
        return Err(Error::NoBinaryFound);
    }

    // Detect the common leading directory shared by every file.
    assert(ps[0] == fs[0].path && fs[0] == files@[0]@);
    let path0 = chars_of(files[0].path.as_str());
    let (head0, rest0) = path_split(&path0);
    let mut share: bool = rest0.len() > 0;
    let ghost mut witness: int = 0;
    let mut j: usize = 1;
    while share && j < nfiles
        invariant
            1 <= j <= nfiles,
            nfiles == fs.len(),
            ps == paths_of(fs),
            fs == entry_views(files@),
            head0@ == first_comp(ps[0]),
            share ==> forall|k: int|
                0 <= k < j ==> first_comp(#[trigger] ps[k]) == first_comp(ps[0]) && rest_of(
                    ps[k],
                ).len() > 0,
            !share ==> 0 <= witness < fs.len() && !(first_comp(ps[witness]) == first_comp(ps[0])
                && rest_of(ps[witness]).len() > 0),
        decreases nfiles - j + (if share { 1int } else { 0int }),
    {
        assert(ps[j as int] == fs[j as int].path && fs[j as int] == files@[j as int]@);
        let pj = chars_of(files[j].path.as_str());
        let (hj, rj) = path_split(&pj);
        if !(chars_eq(&hj, &head0) && rj.len() > 0) {
            proof {
                witness = j as int;
            }
            share = false;
        } else {
            j += 1;
        }
    }
    proof {
        if !share && rest0.len() == 0 {
            witness = 0;
        }
    }
    let ghost pre = prefix_of_paths(ps);
    proof {
        if share {
            assert(forall|k: int|
                0 <= k < ps.len() ==> first_comp(#[trigger] ps[k]) == first_comp(ps[0]) && rest_of(
                    ps[k],
                ).len() > 0);
            assert(pre == Some(first_comp(ps[0])));
        } else {
            assert(pre is None);
        }
    }

    // Strip the prefix, refuse unsafe paths, and find the candidates.
    let mut out_files: Vec<FileWrite> = Vec::new();
    let mut cands: Vec<usize> = Vec::new();
    let mut k: usize = 0;
    while k < nfiles
        invariant
            k <= nfiles,
            nfiles == fs.len(),
            es == entry_views(entries@),
            fs == file_entries(es),
            ps == paths_of(fs),
            fs == entry_views(files@),
            pre == prefix_of_paths(ps),
            share <==> pre is Some,
            out_files@.len() == k,
            forall|t: int|
                0 <= t < k ==> {
                    &&& (#[trigger] out_files@[t])@.path == stripped(fs[t].path, pre)
                    &&& out_files@[t]@.data == fs[t].data
                    &&& out_files@[t]@.mode == out_mode(fs[t], cand_at(fs, pre, pkg@, t))
                },
            forall|t: int| 0 <= t < k ==> path_is_safe(#[trigger] stripped(fs[t].path, pre)),
            ints_of(cands@) == cands_upto(fs, pre, pkg@, k as int),
            forall|t: int| 0 <= t < cands@.len() ==> #[trigger] cands@[t] < k,
        decreases nfiles - k,
    {
        assert(ps[k as int] == fs[k as int].path && fs[k as int] == files@[k as int]@);
        let pk = chars_of(files[k].path.as_str());
        let sp: Vec<char> = if share {
            let (_, r) = path_split(&pk);
            r
        } else {
            pk
        };
        proof {
            if share {
                assert(first_comp(ps[k as int]) == first_comp(ps[0]));
            }
            assert(sp@ == stripped(fs[k as int].path, pre));
        }
        if !check_path_safe(&sp) {
            proof {
                assert(any_unsafe(fs, pre)) by {
                    assert(0 <= k < fs.len() && !path_is_safe(stripped(fs[k as int].path, pre)));
                }
                assert(fs == file_entries(entry_views(entries@)));
                assert(pre == prefix_of_paths(paths_of(file_entries(entry_views(entries@)))));
            }
            return Err(Error::ArchiveFormat("archive member path escapes the install directory".to_owned()));
        }
        let is_cand: bool = if nfiles == 1 {
            true
        } else {
            let lc = path_last_comp(&sp);
            chars_eq(&lc, pkg)
        };
        assert(is_cand == cand_at(fs, pre, pkg@, k as int));
        let base: u32 = match files[k].mode {
            Some(m) => m,
            None => 0o644,
        };
        assert(base == mode_of(fs[k as int]));
        let mode: u32 = if is_cand {
            base | 0o111
        } else {
            base
        };
        if is_cand {
            cands.push(k);
            assert(ints_of(cands@) =~= cands_upto(fs, pre, pkg@, k + 1));
        }
        let data = clone_bytes(&files[k].data);
        out_files.push(FileWrite { path: string_from_chars(&sp), data, mode });
        k += 1;
    }

    if cands.len() == 0 {
        return Err(Error::NoBinaryFound);
    }
    let bin_index = cands[0];
    assert(bin_index as int == cands_upto(fs, pre, pkg@, fs.len() as int)[0]);

    let mut extras: Vec<String> = Vec::new();
    let mut t: usize = 1;
    let ghost cs = cands_upto(fs, pre, pkg@, fs.len() as int);
    while t < cands.len()
        invariant
            1 <= t <= cands@.len(),
            cs == cands_upto(fs, pre, pkg@, fs.len() as int),
            ints_of(cands@) == cs,
            forall|x: int| 0 <= x < cands@.len() ==> #[trigger] cands@[x] < out_files@.len(),
            out_files@.len() == fs.len(),
            forall|x: int|
                0 <= x < fs.len() ==> (#[trigger] out_files@[x])@.path == stripped(fs[x].path, pre),
            string_views(extras@) =~= stripped_paths(fs, pre, cs.subrange(1, t as int)),
        decreases cands@.len() - t,
    {
        let idx = cands[t];
        let ghost ex0 = extras@;
        extras.push(out_files[idx].path.clone());
        proof {
            assert(idx as int == cs[t as int]);
            assert(out_files@[idx as int]@.path == stripped(fs[idx as int].path, pre));
            assert(string_views(extras@) =~= string_views(ex0).push(
                stripped(fs[cs[t as int]].path, pre),
            ));
            assert(cs.subrange(1, t + 1) =~= cs.subrange(1, t as int).push(cs[t as int]));
            assert(stripped_paths(fs, pre, cs.subrange(1, t + 1)) =~= stripped_paths(
                fs,
                pre,
                cs.subrange(1, t as int),
            ).push(stripped(fs[cs[t as int]].path, pre)));
            assert(string_views(extras@) =~= stripped_paths(fs, pre, cs.subrange(1, t + 1)));
        }
        t += 1;
    }
    proof {
        assert(cs.subrange(1, cs.len() as int) =~= cs.drop_first());
    }

    let plan = InstallPlan { files: out_files, bin_index, extra_candidates: extras };
    proof {
        assert(plan_ok(es, pkg@, plan@));
    }
    Ok(plan)
}

/// The plan when the asset is the binary itself: one executable file named
/// after the package, holding the (decompressed) stream.
pub open spec fn single_plan_ok(pkg: Seq<char>, bytes: Seq<u8>, pv: InstallPlanView) -> bool {
    &&& pv.files.len() == 1
    &&& pv.files[0].path == pkg
    &&& pv.files[0].data == bytes
    &&& pv.files[0].mode == 0o755u32
    &&& pv.bin_index == 0
    &&& pv.extra_candidates == Seq::<Seq<char>>::empty()
}

/// What installing an asset must return, by the archive kind its filename
/// announces: plain streams become the binary itself; tar and zip archives
/// are unpacked and planned; an unreadable stream is an archive-format error.
pub open spec fn install_result_ok(
    pkg: Seq<char>,
    filename: Seq<char>,
    data: Seq<u8>,
    r: Result<InstallPlan, Error>,
) -> bool {
    match crate::archive::detect_spec(filename) {
        ArchiveKind::Plain(None) => r matches Ok(p) && single_plan_ok(pkg, data, p@),
        ArchiveKind::Plain(Some(Compression::Gzip)) => match gunzip_of(data) {
            Some(d) => r matches Ok(p) && single_plan_ok(pkg, d, p@),
            None => r matches Err(e) && e is ArchiveFormat,
        },
        ArchiveKind::Tar(None) => match tar_entries_of(data) {
            Some(es) => plan_result_ok(es, pkg, r),
            None => r matches Err(e) && e is ArchiveFormat,
        },
        ArchiveKind::Tar(Some(Compression::Gzip)) => match gunzip_of(data) {
            Some(d) => match tar_entries_of(d) {
                Some(es) => plan_result_ok(es, pkg, r),
                None => r matches Err(e) && e is ArchiveFormat,
            },
            None => r matches Err(e) && e is ArchiveFormat,
        },
        ArchiveKind::Zip => match zip_entries_of(data) {
            Some(es) => plan_result_ok(es, pkg, r),
            None => r matches Err(e) && e is ArchiveFormat,
        },
    }
}

/// Candidate indices always point into the file list.
proof fn lemma_cands_upto_bounds(
    fs: Seq<EntryView>,
    pre: Option<Seq<char>>,
    pkg: Seq<char>,
    n: int,
)
    ensures
        forall|t: int|
            0 <= t < cands_upto(fs, pre, pkg, n).len() ==> 0 <= #[trigger] cands_upto(
                fs,
                pre,
                pkg,
                n,
            )[t] < n,
    decreases n,
{
    if n > 0 {
        lemma_cands_upto_bounds(fs, pre, pkg, n - 1);
        let p = cands_upto(fs, pre, pkg, n - 1);
        let c = cands_upto(fs, pre, pkg, n);
        assert forall|t: int| 0 <= t < c.len() implies 0 <= #[trigger] c[t] < n by {
            if cand_at(fs, pre, pkg, n - 1) {
                assert(c == p.push(n - 1));
                if t < p.len() {
                    assert(c[t] == p[t]);
                } else {
                    assert(c[t] == n - 1);
                }
            } else {
                assert(c == p);
            }
        }
    }
}

/// Law: a correct plan's chosen binary is one of the files the plan writes,
/// so the symlink built from it can never dangle.
pub proof fn lemma_plan_bin_is_written(es: Seq<EntryView>, pkg: Seq<char>, pv: InstallPlanView)
    requires
        plan_ok(es, pkg, pv),
    ensures
        0 <= pv.bin_index < pv.files.len(),
{
    let fs = file_entries(es);
    let pre = prefix_of_paths(paths_of(fs));
    lemma_cands_upto_bounds(fs, pre, pkg, fs.len() as int);
}

/// The per-version install directory of a package.
pub open spec fn install_dir_of(data_dir: Seq<char>, name: Seq<char>, version: Seq<char>) -> Seq<
    char,
> {
    data_dir + seq!['/'] + name + seq!['/'] + version
}

/// The file a plan's symlink points at: the chosen binary inside the
/// per-version install directory.
pub open spec fn plan_link_target(
    data_dir: Seq<char>,
    name: Seq<char>,
    version: Seq<char>,
    pv: InstallPlanView,
) -> Seq<char> {
    install_dir_of(data_dir, name, version) + seq!['/'] + pv.files[pv.bin_index].path
}

/// The symlink target of a plan, executably.
pub fn link_target(data_dir: &str, name: &str, version: &str, plan: &InstallPlan) -> (r: String)
    requires
        0 <= plan@.bin_index < plan@.files.len(),
    ensures
        r@ == plan_link_target(data_dir@, name@, version@, plan@),
{
    let mut s = data_dir.to_owned();
    proof {
        reveal_strlit("/");
        assert("/"@ =~= seq!['/']);
    }
    s.append("/");
    s.append(name);
    s.append("/");
    s.append(version);
    s.append("/");
    s.append(plan.files[plan.bin_index].path.as_str());
    proof {
        assert(plan@.files[plan@.bin_index].path == plan.files@[plan.bin_index as int]@.path);
    }
    s
}

/// A bin directory, modeled as the map from link names to link targets.
pub open spec fn link_refreshed(
    bin: Map<Seq<char>, Seq<char>>,
    name: Seq<char>,
    target: Seq<char>,
) -> Map<Seq<char>, Seq<char>> {
    bin.insert(name, target)
}

/// Law: refreshing the symlink after installing a second version leaves the
/// link pointing at the second version's binary — the earlier target is
/// gone, and the link exists.
pub proof fn lemma_second_install_updates_link(
    bin: Map<Seq<char>, Seq<char>>,
    name: Seq<char>,
    target_v1: Seq<char>,
    target_v2: Seq<char>,
)
    ensures
        link_refreshed(link_refreshed(bin, name, target_v1), name, target_v2).contains_key(name),
        link_refreshed(link_refreshed(bin, name, target_v1), name, target_v2)[name] == target_v2,
{
}

/// Plan the installation of the downloaded asset `filename` with contents
/// `data` for the package `pkg_name`: detect the archive kind, unpack it in
/// memory, and describe every file write and which file the symlink targets.
pub fn install_package(pkg_name: &str, filename: &str, data: &Vec<u8>) -> (r: Result<
    InstallPlan,
    Error,
>)
    ensures
        install_result_ok(pkg_name@, filename@, data@, r),
{
    let fname = chars_of(filename);
    let kind = detect_archive(&fname);
    let pkg = chars_of(pkg_name);
    match kind {
        ArchiveKind::Plain(comp) => {
            let bytes: Vec<u8> = match comp {
                Some(Compression::Gzip) => match gzip_decode(data) {
                    Ok(b) => b,
                    Err(m) => {
                        return Err(Error::ArchiveFormat(m));
                    },
                },
                None => clone_bytes(data),
            };
            let ghost bv = bytes@;
            let fw = FileWrite { path: pkg_name.to_owned(), data: bytes, mode: 0o755 };
            let mut files: Vec<FileWrite> = Vec::new();
            files.push(fw);
            let plan = InstallPlan { files, bin_index: 0, extra_candidates: Vec::new() };
            proof {
                assert(plan@.files =~= Seq::<FileWriteView>::empty().push(
                    FileWriteView { path: pkg_name@, data: bv, mode: 0o755u32 },
                ));
                assert(plan@.extra_candidates =~= Seq::<Seq<char>>::empty());
                assert(single_plan_ok(pkg_name@, bv, plan@));
            }
            Ok(plan)
        },
        ArchiveKind::Tar(comp) => {
            let bytes: Vec<u8> = match comp {
                Some(Compression::Gzip) => match gzip_decode(data) {
                    Ok(b) => b,
                    Err(m) => {
                        return Err(Error::ArchiveFormat(m));
                    },
                },
                None => clone_bytes(data),
            };
            let entries = match tar_entries(&bytes) {
                Ok(es) => es,
                Err(m) => {
                    return Err(Error::ArchiveFormat(m));
                },
            };
            plan_entries(&entries, &pkg)
        },
        ArchiveKind::Zip => {
            let entries = match zip_entries(data) {
                Ok(es) => es,
                Err(m) => {
                    return Err(Error::ArchiveFormat(m));
                },
            };
            plan_entries(&entries, &pkg)
        },
    }
}

} // verus!
