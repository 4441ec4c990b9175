use rpk::codec::{encode_locked, parse_locked};
use rpk::error::Error;
use rpk::lockfile::LockedConfig;
use rpk::pkg::{LockedPackage, Package, Source};
use rpk::sync::{sync_packages, update_target};

fn locked(name: &str, version: &str, repo: &str) -> LockedPackage {
    LockedPackage {
        name: name.to_string(),
        version: version.to_string(),
        source: Source::Github { repo: repo.to_string() },
        desc: None,
        filename: format!("{name}-{version}.tar.gz"),
        download_url: Some(format!("https://example.invalid/{name}")),
    }
}

fn fields(p: &LockedPackage) -> (String, String, String, Option<String>, String, Option<String>) {
    let Source::Github { repo } = &p.source;
    (
        p.name.clone(),
        p.version.clone(),
        repo.clone(),
        p.desc.clone(),
        p.filename.clone(),
        p.download_url.clone(),
    )
}

#[test]
fn upsert_replaces_by_name() {
    let mut store = LockedConfig::new();
    store.upsert(locked("fd", "9.0.0", "sharkdp/fd"));
    store.upsert(locked("rg", "14.0.0", "BurntSushi/ripgrep"));
    store.upsert(locked("fd", "10.0.0", "sharkdp/fd"));
    assert_eq!(store.pkgs.len(), 2);
    assert_eq!(store.get("fd").unwrap().version, "10.0.0");
    assert_eq!(store.get("rg").unwrap().version, "14.0.0");
    assert!(store.get("bat").is_none());
}

#[test]
fn save_then_load_round_trips() {
    let mut store = LockedConfig::new();
    let mut with_desc = locked("fd", "9.0.0", "sharkdp/fd");
    with_desc.desc = Some("a \"simple\" finder\nwith newline, tab\t and \\backslash".to_string());
    store.upsert(with_desc);
    let mut no_url = locked("rg", "14.1.0", "BurntSushi/ripgrep");
    no_url.download_url = None;
    store.upsert(no_url);
    store.upsert(locked("bat", "0.24.0", "sharkdp/bat"));
    let mut desc_no_url = locked("eza", "0.18.0", "eza-community/eza");
    desc_no_url.desc = Some("a modern ls — unicode ✓".to_string());
    desc_no_url.download_url = None;
    store.upsert(desc_no_url);

    let text = encode_locked(&store);
    let loaded = parse_locked(&text).unwrap();

    assert_eq!(loaded.pkgs.len(), store.pkgs.len());
    for (a, b) in store.pkgs.iter().zip(loaded.pkgs.iter()) {
        assert_eq!(fields(a), fields(b));
    }
}

#[test]
fn lock_file_text_is_stable() {
    let mut store = LockedConfig::new();
    let mut p = locked("fd", "9.0.0", "sharkdp/fd");
    p.desc = Some("find files".to_string());
    store.upsert(p);
    let text = encode_locked(&store);
    assert_eq!(
        text,
        "[fd]\nversion = \"9.0.0\"\nsource = \"github\"\nrepo = \"sharkdp/fd\"\ndesc = \"find files\"\nfilename = \"fd-9.0.0.tar.gz\"\ndownload_url = \"https://example.invalid/fd\"\n"
    );
}

#[test]
fn parse_rejects_garbage() {
    let err = parse_locked("not a lock file").unwrap_err();
    assert!(matches!(err, Error::Parse(_)));
}

#[test]
fn parse_rejects_duplicate_names() {
    let mut store = LockedConfig::new();
    store.upsert(locked("fd", "9.0.0", "sharkdp/fd"));
    let mut text = encode_locked(&store);
    let again = text.clone();
    text.push_str(&again);
    let err = parse_locked(&text).unwrap_err();
    assert!(matches!(err, Error::Parse(_)));
}

#[test]
fn parse_accepts_empty_file() {
    let store = parse_locked("").unwrap();
    assert!(store.pkgs.is_empty());
}

#[test]
fn batch_failure_keeps_succeeded_entries() {
    let mut store = LockedConfig::new();
    store.upsert(locked("old", "1.0.0", "o/old"));
    let results = vec![
        Ok(locked("fd", "9.0.0", "sharkdp/fd")),
        Err(Error::Network("connection reset".to_string())),
        Ok(locked("bat", "0.24.0", "sharkdp/bat")),
    ];
    let errs = sync_packages(&mut store, results);
    assert_eq!(errs.len(), 1);
    assert!(matches!(errs[0], Error::Network(_)));
    assert_eq!(store.get("fd").unwrap().version, "9.0.0");
    assert_eq!(store.get("bat").unwrap().version, "0.24.0");
    assert_eq!(store.get("old").unwrap().version, "1.0.0");
}

#[test]
fn update_target_prefers_manifest_then_lock() {
    let cfg = rpk::pkg::Config {
        pkgs: vec![Package {
            name: "fd".to_string(),
            version: Some("9.0.0".to_string()),
            source: Source::Github { repo: "sharkdp/fd".to_string() },
            desc: None,
        }],
    };
    let mut store = LockedConfig::new();
    store.upsert(locked("rg", "14.0.0", "BurntSushi/ripgrep"));

    let (pkg, old) = update_target(&cfg, &store, "fd").unwrap();
    assert_eq!(pkg.name, "fd");
    assert!(old.is_none());

    let (pkg, old) = update_target(&cfg, &store, "rg").unwrap();
    assert_eq!(pkg.name, "rg");
    assert_eq!(pkg.version.as_deref(), Some("14.0.0"));
    assert_eq!(old.unwrap().version, "14.0.0");

    let err = update_target(&cfg, &store, "bat").unwrap_err();
    assert!(matches!(err, Error::NotFound(_)));
}
