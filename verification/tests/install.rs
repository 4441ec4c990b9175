use std::io::Write;

use rpk::archive::{detect_archive, ArchiveKind, Compression};
use rpk::error::Error;
use rpk::installer::{install_package, link_target};
use rpk::text::chars_of;

fn detect(name: &str) -> ArchiveKind {
    detect_archive(&chars_of(name))
}

#[test]
fn archive_kind_by_extension() {
    assert_eq!(detect("tool.zip"), ArchiveKind::Zip);
    assert_eq!(detect("tool.tar"), ArchiveKind::Tar(None));
    assert_eq!(detect("tool.tgz"), ArchiveKind::Tar(Some(Compression::Gzip)));
    assert_eq!(detect("tool.tar.gz"), ArchiveKind::Tar(Some(Compression::Gzip)));
    assert_eq!(detect("tool.gz"), ArchiveKind::Plain(Some(Compression::Gzip)));
    assert_eq!(detect("tool"), ArchiveKind::Plain(None));
    assert_eq!(detect("tool.exe"), ArchiveKind::Plain(None));
    assert_eq!(detect(".tar"), ArchiveKind::Plain(None));
}

fn tar_bytes(entries: &[(&str, &[u8], u32)]) -> Vec<u8> {
    let mut b = tar::Builder::new(Vec::new());
    for (path, data, mode) in entries {
        let mut h = tar::Header::new_gnu();
        h.set_size(data.len() as u64);
        h.set_mode(*mode);
        h.set_cksum();
        b.append_data(&mut h, path, *data).unwrap();
    }
    b.into_inner().unwrap()
}

fn gzip(data: &[u8]) -> Vec<u8> {
    let mut e = flate2::write::GzEncoder::new(Vec::new(), flate2::Compression::default());
    e.write_all(data).unwrap();
    e.finish().unwrap()
}

fn zip_bytes(entries: &[(&str, &[u8], Option<u32>)]) -> Vec<u8> {
    let cur = std::io::Cursor::new(Vec::new());
    let mut w = zip::ZipWriter::new(cur);
    for (path, data, mode) in entries {
        let mut opts = zip::write::SimpleFileOptions::default()
            .compression_method(zip::CompressionMethod::Stored);
        if let Some(m) = mode {
            opts = opts.unix_permissions(*m);
        }
        w.start_file(*path, opts).unwrap();
        w.write_all(data).unwrap();
    }
    w.finish().unwrap().into_inner()
}

#[test]
fn tar_common_prefix_is_stripped() {
    let data = tar_bytes(&[
        ("myapp-v1.0/bin/myapp", b"#!bin", 0o644),
        ("myapp-v1.0/README", b"docs", 0o644),
    ]);
    let plan = install_package("myapp", "myapp.tar", &data).unwrap();
    let paths: Vec<&str> = plan.files.iter().map(|f| f.path.as_str()).collect();
    assert_eq!(paths, vec!["bin/myapp", "README"]);
    assert_eq!(plan.bin_index, 0);
    assert_eq!(plan.files[0].mode, 0o755);
    assert_eq!(plan.files[1].mode, 0o644);
    assert_eq!(plan.files[0].data, b"#!bin");
}

#[test]
fn tar_without_shared_top_segment_is_unstripped() {
    let data = tar_bytes(&[
        ("alpha/myapp", b"bin", 0o755),
        ("beta/README", b"docs", 0o644),
    ]);
    let plan = install_package("myapp", "myapp.tar", &data).unwrap();
    let paths: Vec<&str> = plan.files.iter().map(|f| f.path.as_str()).collect();
    assert_eq!(paths, vec!["alpha/myapp", "beta/README"]);
    assert_eq!(plan.files[plan.bin_index].path, "alpha/myapp");
}

#[test]
fn targz_extracts_like_tar() {
    let data = gzip(&tar_bytes(&[("pkg-1.2/pkg", b"elf", 0o750)]));
    let plan = install_package("pkg", "pkg-1.2.tar.gz", &data).unwrap();
    assert_eq!(plan.files.len(), 1);
    // A single-file archive is the candidate even before the name matches.
    assert_eq!(plan.files[0].path, "pkg");
    assert_eq!(plan.files[0].mode, 0o750 | 0o111);
}

#[test]
fn zip_entries_are_planned() {
    let data = zip_bytes(&[
        ("tool-2.0/tool", b"elf", Some(0o700)),
        ("tool-2.0/LICENSE", b"mit", None),
    ]);
    let plan = install_package("tool", "tool.zip", &data).unwrap();
    let paths: Vec<&str> = plan.files.iter().map(|f| f.path.as_str()).collect();
    assert_eq!(paths, vec!["tool", "LICENSE"]);
    assert_eq!(plan.bin_index, 0);
    // The zip crate reports the stored Unix mode with the file-type bits on.
    assert_eq!(plan.files[0].mode & 0o777, 0o711);
    assert_eq!(plan.files[1].mode & 0o777, 0o644);
}

#[test]
fn plain_gzip_asset_is_the_binary_itself() {
    let data = gzip(b"a plain binary");
    let plan = install_package("mybin", "mybin.gz", &data).unwrap();
    assert_eq!(plan.files.len(), 1);
    assert_eq!(plan.files[0].path, "mybin");
    assert_eq!(plan.files[0].data, b"a plain binary");
    assert_eq!(plan.files[0].mode, 0o755);
    assert_eq!(plan.bin_index, 0);
}

#[test]
fn plain_asset_is_copied_verbatim() {
    let data = b"raw binary".to_vec();
    let plan = install_package("raw", "raw-linux-amd64", &data).unwrap();
    assert_eq!(plan.files[0].data, b"raw binary");
}

#[test]
fn corrupt_gzip_is_an_archive_format_error() {
    let err = install_package("x", "x.gz", &b"not gzip".to_vec()).unwrap_err();
    assert!(matches!(err, Error::ArchiveFormat(_)));
}

#[test]
fn corrupt_zip_is_an_archive_format_error() {
    let err = install_package("x", "x.zip", &b"not a zip".to_vec()).unwrap_err();
    assert!(matches!(err, Error::ArchiveFormat(_)));
}

#[test]
fn archive_without_binary_is_no_binary_found() {
    let data = tar_bytes(&[("doc/README", b"d", 0o644), ("doc/NEWS", b"n", 0o644)]);
    let err = install_package("myapp", "myapp.tar", &data).unwrap_err();
    assert_eq!(err, Error::NoBinaryFound);
}

#[test]
fn escaping_path_is_refused() {
    let data = zip_bytes(&[("a/../../etc/passwd", b"x", None), ("a/myapp", b"x", None)]);
    let err = install_package("myapp", "myapp.zip", &data).unwrap_err();
    assert!(matches!(err, Error::ArchiveFormat(_)));
    let abs = zip_bytes(&[("/etc/passwd", b"x", None), ("usr/bin/x", b"x", None)]);
    let err = install_package("passwd", "x.zip", &abs).unwrap_err();
    assert!(matches!(err, Error::ArchiveFormat(_)));
}

#[test]
fn multiple_candidates_keep_first_and_warn_rest() {
    let data = tar_bytes(&[
        ("v1/bin/tool", b"one", 0o755),
        ("v1/sbin/tool", b"two", 0o755),
    ]);
    let plan = install_package("tool", "tool.tar", &data).unwrap();
    assert_eq!(plan.bin_index, 0);
    assert_eq!(plan.extra_candidates, vec!["sbin/tool".to_string()]);
}

#[test]
fn installing_v2_redirects_the_symlink() {
    let v1 = tar_bytes(&[("tool-1/tool", b"one", 0o755)]);
    let v2 = tar_bytes(&[("tool-2/tool", b"two", 0o755)]);
    let p1 = install_package("tool", "tool-1.tar", &v1).unwrap();
    let p2 = install_package("tool", "tool-2.tar", &v2).unwrap();
    let t1 = link_target("/data", "tool", "1.0.0", &p1);
    let t2 = link_target("/data", "tool", "2.0.0", &p2);
    assert_eq!(t1, "/data/tool/1.0.0/tool");
    assert_eq!(t2, "/data/tool/2.0.0/tool");
    // The refresh replaces the old target: the map model in the library is
    // exercised here by its executable shadow, the target strings.
    assert_ne!(t1, t2);
    assert!(p2.files.iter().any(|f| t2.ends_with(f.path.as_str())));
}
