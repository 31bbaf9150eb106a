use cargo_switch::error::SwitchError;
use cargo_switch::listing::{list_lines, PackageVersions};
use cargo_switch::path::join;
use cargo_switch::switcher::Switcher;

fn switcher() -> Switcher {
    Switcher::new("/usr/bin:/home/me/.cargo/bin:/bin").unwrap()
}

fn names(v: &[&str]) -> Vec<String> {
    v.iter().map(|s| s.to_string()).collect()
}

#[test]
fn has_version_tag() {
    assert!(Switcher::get_version_tag("sqlx-cli@0.7.2").is_some());
    assert!(Switcher::get_version_tag("zig@1.0.0-rc0").is_some());

    assert!(Switcher::get_version_tag("zig@rc").is_none());
    assert!(Switcher::get_version_tag("zig@").is_none());
    assert!(Switcher::get_version_tag("@0.7.2").is_none());
}

#[test]
fn version_tag_parts() {
    assert_eq!(Switcher::get_version_tag("sqlx-cli@0.7.2"), Some(("sqlx-cli", "0.7.2")));
    assert_eq!(Switcher::get_version_tag("zig@1.0.0-rc0"), Some(("zig", "1.0.0-rc0")));
}

#[test]
fn version_tag_without_at() {
    assert_eq!(Switcher::get_version_tag("sqlx-cli"), None);
    assert_eq!(Switcher::get_version_tag("0.7.2"), None);
    assert_eq!(Switcher::get_version_tag(""), None);
}

#[test]
fn version_tag_splits_at_first_at() {
    assert_eq!(Switcher::get_version_tag("a@b@1"), Some(("a", "b@1")));
    assert_eq!(Switcher::get_version_tag("tool@v2"), Some(("tool", "v2")));
    assert_eq!(Switcher::get_version_tag("héllo@1"), Some(("héllo", "1")));
}

#[test]
fn join_paths() {
    assert_eq!(join("/a/b", "c"), "/a/b/c");
    assert_eq!(join("/a/b/", "c"), "/a/b/c");
    assert_eq!(join("", "c"), "c");
    assert_eq!(join("/a", "/etc"), "/etc");
}

#[test]
fn cargo_bin_is_first_matching_entry() {
    assert_eq!(
        Switcher::get_cargo_bin("/usr/bin:/home/me/.cargo/bin:/x/.cargo/bin"),
        Ok("/home/me/.cargo/bin".to_string())
    );
    assert_eq!(Switcher::get_cargo_bin("/root/.cargo/bin/"), Ok("/root/.cargo/bin/".to_string()));
    assert_eq!(Switcher::get_cargo_bin("/usr/bin:/bin"), Err(SwitchError::BinDirNotFound));
    assert_eq!(Switcher::get_cargo_bin(""), Err(SwitchError::BinDirNotFound));
    assert_eq!(Switcher::get_cargo_bin("/a/.cargo:bin"), Err(SwitchError::BinDirNotFound));
}

#[test]
fn new_places_registry_in_bin_dir() {
    let sw = switcher();
    assert_eq!(sw.bin_dir, "/home/me/.cargo/bin");
    assert_eq!(sw.registry, "/home/me/.cargo/bin/cargo-switch-registry");
    assert!(matches!(Switcher::new("/usr/bin"), Err(SwitchError::BinDirNotFound)));
}

#[test]
fn target_path_is_registry_name_version() {
    let sw = switcher();
    assert_eq!(
        sw.build_target_path("sqlx-cli@0.7.2"),
        Ok("/home/me/.cargo/bin/cargo-switch-registry/sqlx-cli/0.7.2".to_string())
    );
    assert_eq!(sw.build_target_path("zig@rc"), Err(SwitchError::InvalidSpecifier));
}

#[test]
fn install_command_line() {
    let sw = switcher();
    let cmd = sw.install_package("zig@1.0.0-rc0").unwrap();
    assert_eq!(cmd.program, "cargo");
    assert_eq!(
        cmd.args,
        names(&[
            "install",
            "zig@1.0.0-rc0",
            "--root",
            "/home/me/.cargo/bin/cargo-switch-registry/zig/1.0.0-rc0",
        ])
    );
    assert!(matches!(sw.install_package("@0.7.2"), Err(SwitchError::InvalidSpecifier)));
}

#[test]
fn switch_links_each_executable() {
    let sw = switcher();
    let links = sw.switch_package("tool@1.0.0", &names(&["a", "b"])).unwrap();
    assert_eq!(links.len(), 2);
    assert_eq!(links[0].link, "/home/me/.cargo/bin/a");
    assert_eq!(links[0].source, "/home/me/.cargo/bin/cargo-switch-registry/tool/1.0.0/bin/a");
    assert_eq!(links[1].link, "/home/me/.cargo/bin/b");
    assert_eq!(links[1].source, "/home/me/.cargo/bin/cargo-switch-registry/tool/1.0.0/bin/b");
}

#[test]
fn switch_other_version_moves_link() {
    let sw = switcher();
    let first = sw.switch_package("tool@1.0.0", &names(&["a"])).unwrap();
    let second = sw.switch_package("tool@2.0.0", &names(&["a", "c"])).unwrap();
    assert_eq!(first[0].link, second[0].link);
    assert_ne!(first[0].source, second[0].source);
    assert_eq!(second[0].source, "/home/me/.cargo/bin/cargo-switch-registry/tool/2.0.0/bin/a");
}

#[test]
fn switch_rejects_bad_specifier() {
    let sw = switcher();
    assert!(matches!(sw.switch_package("zig@", &names(&["zig"])), Err(SwitchError::InvalidSpecifier)));
    assert!(sw.switch_package("zig@1", &Vec::new()).unwrap().is_empty());
}

#[test]
fn listing_reports_each_package_and_its_versions() {
    let packages = vec![
        PackageVersions { name: "pkg1".to_string(), versions: names(&["1.0.0", "1.1.0"]) },
        PackageVersions { name: "pkg2".to_string(), versions: names(&["2.0.0"]) },
    ];
    assert_eq!(
        list_lines(&packages),
        names(&["pkg1:", "  - 1.0.0", "  - 1.1.0", "pkg2:", "  - 2.0.0"])
    );
    assert!(list_lines(&Vec::new()).is_empty());
}

#[test]
fn error_messages() {
    assert_eq!(
        SwitchError::InvalidSpecifier.message(),
        "Expected input in the form `NAME@VERSION`"
    );
    assert_eq!(
        SwitchError::BinDirNotFound.message(),
        "Failed to find your .cargo/bin directory. Is Cargo configured in your PATH?"
    );
}
