use rpk::context::{Context, Output, Verbosity};
use rpk::error::{not_found_err, prettyify_error, Error};
use rpk::pkg::{Asset, LockedPackage, Package, Release, Source};
use rpk::provider::{fetch_asset, find_asset_exact, locked_package_for, parse_repo, resolve_asset, trim, AssetChoice, FetchPlan};
use rpk::selector::{Arch, Os};
use rpk::sync::{classify, restore_package, sync_package, RestoreAction, SyncAction, SyncResult};
use rpk::util::{emojify, Emojify};

fn pkg(name: &str, version: Option<&str>) -> Package {
    Package {
        name: name.to_string(),
        version: version.map(|v| v.to_string()),
        source: Source::Github { repo: format!("owner/{name}") },
        desc: None,
    }
}

fn locked(name: &str, version: &str) -> LockedPackage {
    LockedPackage {
        name: name.to_string(),
        version: version.to_string(),
        source: Source::Github { repo: format!("owner/{name}") },
        desc: None,
        filename: format!("{name}-{version}-linux-amd64.tar.gz"),
        download_url: Some(format!("https://example.invalid/{name}/{version}")),
    }
}

fn release(tag: &str, assets: &[(&str, &str)]) -> Release {
    Release {
        tag_name: tag.to_string(),
        assets: assets
            .iter()
            .map(|(n, u)| Asset { name: n.to_string(), download_url: u.to_string() })
            .collect(),
    }
}

#[test]
fn pinned_version_equal_to_locked_is_checked_without_network() {
    let action = sync_package(&pkg("fd", Some("9.0.0")), Some(&locked("fd", "9.0.0")), false);
    match action {
        SyncAction::Keep(l) => assert_eq!(l.version, "9.0.0"),
        SyncAction::Fetch { .. } => panic!("a matching pin must not fetch"),
    }
}

#[test]
fn pinned_version_different_from_locked_fetches_and_updates() {
    let action = sync_package(&pkg("fd", Some("10.0.0")), Some(&locked("fd", "9.0.0")), false);
    match action {
        SyncAction::Fetch { repo, tag } => {
            assert_eq!(repo, "owner/fd");
            assert_eq!(tag.as_deref(), Some("10.0.0"));
        },
        SyncAction::Keep(_) => panic!("a changed pin must fetch"),
    }
    let result = classify(Some(&locked("fd", "9.0.0")), &locked("fd", "10.0.0"));
    assert_eq!(result, SyncResult::Updated);
}

#[test]
fn unpinned_plain_sync_trusts_existing_install() {
    let action = sync_package(&pkg("fd", None), Some(&locked("fd", "9.0.0")), false);
    assert!(matches!(action, SyncAction::Keep(_)));
}

#[test]
fn unpinned_update_fetches() {
    let action = sync_package(&pkg("fd", None), Some(&locked("fd", "9.0.0")), true);
    match action {
        SyncAction::Fetch { repo, tag } => {
            assert_eq!(repo, "owner/fd");
            assert_eq!(tag, None);
        },
        SyncAction::Keep(_) => panic!("an explicit update must fetch"),
    }
}

#[test]
fn identical_reinstall_is_checked() {
    assert_eq!(classify(Some(&locked("fd", "9.0.0")), &locked("fd", "9.0.0")), SyncResult::Checked);
    assert_eq!(classify(None, &locked("fd", "9.0.0")), SyncResult::Checked);
}

#[test]
fn download_skips_transfer_on_cache_hit() {
    let a = Asset { name: "t.tar.gz".into(), download_url: "https://e.invalid/t".into() };
    // First call: cache miss, one transfer; second call: hit, none.
    match fetch_asset(&a, false) {
        FetchPlan::Transfer(u) => assert_eq!(u, "https://e.invalid/t"),
        FetchPlan::Reuse => panic!("a miss must transfer"),
    }
    assert!(matches!(fetch_asset(&a, true), FetchPlan::Reuse));
}

#[test]
fn restore_prefers_cache_then_url_then_resolving() {
    let l = locked("fd", "9.0.0");
    assert!(matches!(restore_package(&l, true), RestoreAction::Cached));
    match restore_package(&l, false) {
        RestoreAction::Direct(u) => assert_eq!(u, "https://example.invalid/fd/9.0.0"),
        _ => panic!("a remembered URL must be used"),
    }
    let mut no_url = locked("fd", "9.0.0");
    no_url.download_url = None;
    match restore_package(&no_url, false) {
        RestoreAction::Resolve { repo, tag } => {
            assert_eq!(repo, "owner/fd");
            assert_eq!(tag, "9.0.0");
        },
        _ => panic!("without a URL the release must be resolved again"),
    }
}

#[test]
fn resolve_asset_picks_platform_asset() {
    let r = release("v1.2.3", &[
        ("tool-darwin-amd64.tar.gz", "https://e.invalid/mac"),
        ("tool-linux-amd64.tar.gz", "https://e.invalid/linux"),
    ]);
    let AssetChoice { index, asset, matches } = resolve_asset("o/tool", &r, Os::Linux, Arch::X8664).unwrap();
    assert_eq!(index, 1);
    assert_eq!(asset.name, "tool-linux-amd64.tar.gz");
    assert_eq!(matches, vec![1]);
}

#[test]
fn resolve_asset_failure_names_repo_and_tag() {
    let r = release("v1.2.3", &[("tool-windows.msi", "https://e.invalid/w")]);
    match resolve_asset("o/tool", &r, Os::Linux, Arch::X8664).unwrap_err() {
        Error::NoMatchingAsset { repo, tag } => {
            assert_eq!(repo, "o/tool");
            assert_eq!(tag, "v1.2.3");
        },
        e => panic!("wrong error: {e:?}"),
    }
}

#[test]
fn find_asset_exact_matches_remembered_filename() {
    let r = release("v1", &[("a.tar.gz", "u1"), ("b.tar.gz", "u2")]);
    assert_eq!(find_asset_exact(&r, "b.tar.gz").unwrap().download_url, "u2");
    let err = find_asset_exact(&r, "gone.tar.gz").unwrap_err();
    assert!(not_found_err(&err));
}

#[test]
fn parse_repo_splits_at_first_slash() {
    assert_eq!(parse_repo("sharkdp/fd").unwrap(), ("sharkdp".to_string(), "fd".to_string()));
    assert_eq!(parse_repo("a/b/c").unwrap(), ("a".to_string(), "b/c".to_string()));
    assert!(matches!(parse_repo("noslash").unwrap_err(), Error::Parse(_)));
}

#[test]
fn locked_package_trims_description() {
    let p = pkg("fd", Some("9.0.0"));
    let a = Asset { name: "fd.tar.gz".into(), download_url: "https://e.invalid/fd".into() };
    let l = locked_package_for(&p, "v9.0.0", &a, Some("  a finder \t\n".to_string()));
    assert_eq!(l.desc.as_deref(), Some("a finder"));
    assert_eq!(l.version, "v9.0.0");
    assert_eq!(l.filename, "fd.tar.gz");
    assert_eq!(l.download_url.as_deref(), Some("https://e.invalid/fd"));
    assert_eq!(trim("   "), "");
}

#[test]
fn emojify_replaces_known_shortcodes() {
    assert_eq!(emojify("launch :rocket: now"), "launch 🚀 now");
    assert_eq!(emojify("no emoji here"), "no emoji here");
    assert_eq!(emojify(":not_a_real_code: x :+1:"), ":not_a_real_code: x 👍");
    assert_eq!("a :tada: b".to_string().emojify(), "a 🎉 b");
}

#[test]
fn error_chain_prints_causes() {
    let msgs = vec![
        "failed to sync `fd`".to_string(),
        "failed to get release: `sharkdp/fd@latest`".to_string(),
        "connection reset".to_string(),
    ];
    assert_eq!(
        prettyify_error(&msgs),
        "failed to sync `fd`\n  due to: failed to get release: `sharkdp/fd@latest`\n  due to: connection reset"
    );
    assert_eq!(prettyify_error(&vec![]), "");
}

#[test]
fn context_path_helpers() {
    let ctx = Context {
        version: "0.1.0".to_string(),
        config_file: "/home/u/.config/rpk/packages.toml".to_string(),
        config_dir: "/home/u/.config/rpk".to_string(),
        cache_dir: "/home/u/.cache/rpk".to_string(),
        data_dir: "/home/u/.local/share/rpk/packages".to_string(),
        bin_dir: "/home/u/.local/share/rpk/bin".to_string(),
        home: "/home/u".to_string(),
        lock_file: "/home/u/.config/rpk/packages.lock".to_string(),
        output: Output { verbosity: Verbosity::Quiet, no_color: true },
    };
    assert_eq!(ctx.verbosity(), Verbosity::Quiet);
    assert_eq!(ctx.expand_tilde("~/x/y".to_string()), "/home/u/x/y");
    assert_eq!(ctx.expand_tilde("~".to_string()), "/home/u");
    assert_eq!(ctx.expand_tilde("/abs".to_string()), "/abs");
    assert_eq!(ctx.expand_tilde("~abc".to_string()), "~abc");
    assert_eq!(ctx.replace_home("/home/u/x".to_string()), "~/x");
    assert_eq!(ctx.replace_home("/home/u".to_string()), "~");
    assert_eq!(ctx.replace_home("/opt/x".to_string()), "/opt/x");
    assert!(Verbosity::Verbose.at_least(Verbosity::Normal));
    assert!(!Verbosity::Quiet.at_least(Verbosity::Normal));
}

#[test]
fn error_messages_name_their_cause() {
    assert_eq!(
        Error::NoMatchingAsset { repo: "o/t".to_string(), tag: "v1".to_string() }.message(),
        "no matching asset for o/t@v1"
    );
    assert_eq!(Error::NotFound("repo `o/t`".to_string()).message(), "not found: repo `o/t`");
    assert_eq!(Error::NoBinaryFound.message(), "no binary found in archive");
    assert_eq!(
        Error::LockConflict.message(),
        "another invocation holds the directory lock"
    );
    assert_eq!(Error::Network("reset".to_string()).message(), "network failure: reset");
    assert_eq!(Error::RateLimited("quota".to_string()).message(), "rate limited: quota");
    assert_eq!(Error::ArchiveFormat("bad".to_string()).message(), "unsupported or corrupt archive: bad");
    assert_eq!(Error::Parse("line 3".to_string()).message(), "parse failure: line 3");
}
