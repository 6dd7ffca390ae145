//! Releases and versions.
use rift_counterpick::update::{
    is_plausible_installer, latest_release_url, name_or_default, normalize_version,
    offer_from_release, parse_version, pick_setup_asset, safe_filename, version_is_newer,
    GithubAsset, GithubRelease,
};

#[test]
fn newer_versions_compare_numerically() {
    assert!(version_is_newer("1.0.2", "1.0.1"));
    assert!(version_is_newer("v1.1.0", "1.0.9"));
    assert!(!version_is_newer("1.0.1", "1.0.1"));
    assert!(!version_is_newer("1.0.0", "1.0.1"));
}

#[test]
fn versions_are_read_leniently() {
    assert_eq!(normalize_version(" vvV1.2 "), "1.2");
    assert_eq!(parse_version("v1"), Some((1, 0, 0)));
    assert_eq!(parse_version("1.2.3.4"), Some((1, 2, 3)));
    assert_eq!(parse_version("1.x"), None);
    assert_eq!(parse_version(""), None);
    assert_eq!(parse_version("1.18446744073709551616"), None);
    assert!(!version_is_newer("2.0", "not a version"));
    assert!(version_is_newer("1.10.0", "1.9.9"));
}

#[test]
fn picks_nsis_setup_exe() {
    let assets = vec![
        GithubAsset {
            name: "notes.txt".into(),
            browser_download_url: "https://example.com/notes".into(),
        },
        GithubAsset {
            name: "Rift.Counterpick_1.0.2_x64-setup.exe".into(),
            browser_download_url: "https://example.com/setup.exe".into(),
        },
    ];
    let picked = pick_setup_asset(&assets).unwrap();
    assert!(picked.name.ends_with("setup.exe"));
}

fn named(name: &str) -> GithubAsset {
    GithubAsset { name: name.into(), browser_download_url: format!("u/{name}") }
}

#[test]
fn any_program_will_do_without_a_setup() {
    let assets = vec![named("setup.msi"), named("Portable.EXE"), named("b.exe")];
    assert_eq!(pick_setup_asset(&assets).map(|a| a.name.as_str()), Some("Portable.EXE"));
    assert!(pick_setup_asset(&vec![named("setup.msi")]).is_none());
}

#[test]
fn offer_skips_same_or_older_releases() {
    let release = GithubRelease {
        tag_name: "v1.0.1".into(),
        assets: vec![GithubAsset {
            name: "Rift.Counterpick_1.0.1_x64-setup.exe".into(),
            browser_download_url: "https://example.com/setup.exe".into(),
        }],
    };
    assert!(offer_from_release(&release, "1.0.1").is_none());
    assert!(offer_from_release(&release, "1.0.2").is_none());
    let offer = offer_from_release(&release, "1.0.0").unwrap();
    assert_eq!(offer.version, "1.0.1");
    assert_eq!(offer.status, "available");
    assert_eq!(offer.message, "Version 1.0.1 is available");
    assert_eq!(offer.download_url, "https://example.com/setup.exe");
    assert_eq!(offer.asset_name, "Rift.Counterpick_1.0.1_x64-setup.exe");
}

#[test]
fn no_offer_without_a_program() {
    let release = GithubRelease { tag_name: "9.0".into(), assets: vec![named("notes.txt")] };
    assert!(offer_from_release(&release, "1.0.0").is_none());
}

#[test]
fn rejects_path_traversal_in_asset_names() {
    assert_eq!(safe_filename("../../evil.exe"), "evil.exe");
    assert_eq!(
        safe_filename("Rift.Counterpick_1.0.1_x64-setup.exe"),
        "Rift.Counterpick_1.0.1_x64-setup.exe"
    );
}

#[test]
fn names_that_stand_for_directories_are_replaced() {
    for name in ["", ".", "..", "/", "a/.."] {
        assert_eq!(safe_filename(name), "RiftCounterpick-setup.exe");
    }
    assert_eq!(name_or_default(Some("..".into())), "RiftCounterpick-setup.exe");
    assert_eq!(name_or_default(Some(".".into())), "RiftCounterpick-setup.exe");
    assert_eq!(name_or_default(Some("x.exe".into())), "x.exe");
    assert_eq!(name_or_default(None), "RiftCounterpick-setup.exe");
}

#[test]
fn trailing_slashes_and_dots_do_not_count() {
    for name in ["x.exe/", "x.exe/.", "a/x.exe//", "./x.exe/./"] {
        assert_eq!(safe_filename(name), "x.exe");
    }
    for name in ["x.exe/..", "//.", "./.", "a/../.."] {
        assert_eq!(safe_filename(name), "RiftCounterpick-setup.exe");
    }
}

#[test]
fn a_safe_name_stays_as_it_is() {
    for name in ["a/b/x.exe", "", "..", "x y.exe", "ab:c", "/"] {
        let safe = safe_filename(name);
        assert_eq!(safe_filename(&safe), safe);
    }
}

#[test]
fn where_releases_are_and_how_small_an_installer_is() {
    assert_eq!(
        latest_release_url(),
        "https://api.github.com/repos/brandonrstone/league-of-legends-counterpicker/releases/latest"
    );
    assert!(!is_plausible_installer(1023));
    assert!(is_plausible_installer(1024));
}
