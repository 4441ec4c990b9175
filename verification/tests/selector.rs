use rpk::selector::{filter_assets, is_aarch64, is_arm, is_linux, is_macos, is_musl, is_x86, is_x86_64, priority, Arch, Os};

fn names(v: &[&str]) -> Vec<String> {
    v.iter().map(|s| s.to_string()).collect()
}

#[test]
fn selects_musl_variant_on_linux_x86_64() {
    let assets = names(&[
        "tool-linux-amd64.tar.gz",
        "tool-linux-amd64-musl.tar.gz",
        "tool-darwin-amd64.tar.gz",
    ]);
    let sel = filter_assets(Os::Linux, Arch::X8664, &assets).unwrap();
    assert_eq!(sel.index, 1);
}

#[test]
fn does_not_select_arm64_asset_on_arm() {
    let assets = names(&["tool-arm64-linux.tar.gz"]);
    assert!(filter_assets(Os::Linux, Arch::Arm, &assets).is_none());
}

#[test]
fn arm_asset_still_matches_on_arm() {
    let assets = names(&["tool-arm-linux.tar.gz", "tool-arm64-linux.tar.gz"]);
    let sel = filter_assets(Os::Linux, Arch::Arm, &assets).unwrap();
    assert_eq!(sel.index, 0);
    assert_eq!(sel.matches, vec![0]);
}

#[test]
fn does_not_select_x86_asset_on_x86_64_when_x86_64_exists() {
    let assets = names(&["tool-x86-linux.tar.gz", "tool-x86_64-linux.tar.gz"]);
    let sel = filter_assets(Os::Linux, Arch::X8664, &assets).unwrap();
    assert_eq!(sel.index, 1);
    assert_eq!(sel.matches, vec![1]);
}

#[test]
fn x86_asset_rejected_on_plain_x86_when_named_x86_64() {
    assert!(is_x86("tool-386-linux.tar.gz"));
    assert!(!is_x86("tool-x86_64-linux.tar.gz"));
    assert!(is_x86("tool-i686-linux.tar.gz"));
}

#[test]
fn os_matchers_are_case_insensitive() {
    assert!(is_linux("Tool-LINUX-amd64.zip"));
    assert!(is_macos("tool-Darwin-x64.tar.gz"));
    assert!(is_macos("tool-OSX.tar.gz"));
    assert!(is_macos("tool-Apple-silicon.tar.gz"));
    assert!(is_macos("tool-mac.tar.gz"));
    assert!(!is_linux("tool-darwin-amd64.tar.gz"));
}

#[test]
fn arch_matchers() {
    assert!(is_x86_64("tool-amd64.tar.gz"));
    assert!(is_x86_64("tool-x64.tar.gz"));
    assert!(is_x86_64("tool-x86-64.tar.gz"));
    assert!(is_aarch64("tool-arm64.tar.gz"));
    assert!(is_aarch64("tool-aarch64.tar.gz"));
    assert!(is_arm("tool-armv7.tar.gz"));
    assert!(!is_arm("tool-arm64.tar.gz"));
    assert!(is_musl("tool-x86_64-unknown-linux-MUSL.tar.gz"));
}

#[test]
fn denylisted_extensions_are_dropped() {
    for bad in [
        "tool-linux-amd64.deb",
        "tool-linux-amd64.rpm",
        "tool-linux-amd64.sig",
        "tool-linux-amd64.dmg",
        "tool-linux-amd64.apk",
        "tool-linux-amd64.msi",
        "tool-linux-amd64.sbom",
        "tool-linux-amd64.checksum",
        "tool-linux-amd64.sha256sum",
    ] {
        let assets = names(&[bad]);
        assert!(
            filter_assets(Os::Linux, Arch::X8664, &assets).is_none(),
            "{bad} should have been dropped"
        );
    }
}

#[test]
fn priority_prefers_musl_then_aarch64() {
    assert_eq!(priority("tool-linux-amd64.tar.gz"), 0);
    assert_eq!(priority("tool-linux-arm64.tar.gz"), 1);
    assert_eq!(priority("tool-linux-amd64-musl.tar.gz"), 2);
    assert_eq!(priority("tool-linux-arm64-musl.tar.gz"), 3);
}

#[test]
fn aarch64_host_accepts_macos_x86_64_assets() {
    let assets = names(&["tool-darwin-amd64.tar.gz"]);
    let sel = filter_assets(Os::Macos, Arch::Aarch64, &assets).unwrap();
    assert_eq!(sel.index, 0);
}

#[test]
fn ties_are_reported_and_first_wins() {
    let assets = names(&["a-linux-amd64.tar.gz", "b-linux-amd64.tar.gz"]);
    let sel = filter_assets(Os::Linux, Arch::X8664, &assets).unwrap();
    assert_eq!(sel.index, 0);
    assert_eq!(sel.matches, vec![0, 1]);
}
