use rpk::cli::{ColorChoice, RawCommand, RawOpt};
use rpk::context::Verbosity;
use rpk::pkg::{LockedPackage, Package, Source};

fn opts(quiet: bool, verbose: bool, color: ColorChoice) -> RawOpt {
    RawOpt {
        quiet,
        verbose,
        color,
        config_dir: None,
        data_dir: None,
        cache_dir: None,
        bin_dir: None,
        command: RawCommand::Sync,
    }
}

#[test]
fn output_opt_resolves_verbosity() {
    assert_eq!(opts(false, false, ColorChoice::Auto).output_opt().verbosity, Verbosity::Normal);
    assert_eq!(opts(false, true, ColorChoice::Auto).output_opt().verbosity, Verbosity::Verbose);
    assert_eq!(opts(true, false, ColorChoice::Auto).output_opt().verbosity, Verbosity::Quiet);
    // Quiet wins over verbose.
    assert_eq!(opts(true, true, ColorChoice::Auto).output_opt().verbosity, Verbosity::Quiet);
    assert!(opts(false, false, ColorChoice::Never).output_opt().no_color);
    assert!(!opts(false, false, ColorChoice::Always).output_opt().no_color);
}

#[test]
fn package_from_locked_pins_the_installed_version() {
    let l = LockedPackage {
        name: "fd".to_string(),
        version: "9.0.0".to_string(),
        source: Source::Github { repo: "sharkdp/fd".to_string() },
        desc: Some("finder".to_string()),
        filename: "fd.tar.gz".to_string(),
        download_url: None,
    };
    let p = Package::from(l);
    assert_eq!(p.name, "fd");
    assert_eq!(p.version.as_deref(), Some("9.0.0"));
    assert_eq!(p.desc.as_deref(), Some("finder"));
}

#[test]
fn display_strings() {
    let p = Package {
        name: "fd".to_string(),
        version: None,
        source: Source::Github { repo: "sharkdp/fd".to_string() },
        desc: None,
    };
    assert_eq!(p.source.display_string(), "github.com:sharkdp/fd");
    assert_eq!(p.display_string(), "fd@latest from github.com:sharkdp/fd");
    let pinned = Package { version: Some("9.0.0".to_string()), ..p };
    assert_eq!(pinned.display_string(), "fd@9.0.0 from github.com:sharkdp/fd");
}

#[test]
fn default_verbosity_is_normal() {
    assert_eq!(Verbosity::default(), Verbosity::Normal);
}

#[test]
fn lock_text_written_by_hand_parses() {
    let text = "[fd]\nversion = \"9.0.0\"\nsource = \"github\"\nrepo = \"sharkdp/fd\"\nfilename = \"fd.tar.gz\"\n";
    let store = rpk::codec::parse_locked(text).unwrap();
    assert_eq!(store.pkgs.len(), 1);
    assert_eq!(store.pkgs[0].name, "fd");
    assert_eq!(store.pkgs[0].version, "9.0.0");
    assert_eq!(store.pkgs[0].desc, None);
    assert_eq!(store.pkgs[0].download_url, None);
}

#[test]
fn emojify_leaves_unpaired_colons_alone() {
    assert_eq!(rpk::util::emojify("half :rocket"), "half :rocket");
    assert_eq!(rpk::util::emojify(":"), ":");
    assert_eq!(rpk::util::emojify(""), "");
}
