use deb_assets::asset::{
    Asset, AssetCommon, AssetSource, DiskStatus, IsBuilt, Platform, UnresolvedAsset,
};
use deb_assets::config::{Config, ManifestExtras, ManifestFound};
use deb_assets::layout::BuildLayout;
use deb_assets::manifest::{CargoDeb, CargoMetadataTarget, ManifestPackage};
use deb_assets::ready::file_can_resolve;
use deb_assets::resolve::SourceFile;

fn suffixed() -> Platform {
    Platform {
        dll_prefix: String::new(),
        dll_suffix: ".dll".to_owned(),
        exe_suffix: ".exe".to_owned(),
    }
}

fn list(l: &[&str]) -> Vec<String> {
    l.iter().map(|s| s.to_string()).collect()
}

fn target(name: &str, kind: &str) -> CargoMetadataTarget {
    CargoMetadataTarget {
        name: name.to_owned(),
        kind: list(&[kind]),
        crate_types: list(&[kind]),
        src_path: "/w/src/main.rs".to_owned(),
    }
}

fn layout<'a>(platform: &'a Platform, targets: &'a Vec<CargoMetadataTarget>) -> BuildLayout<'a> {
    BuildLayout {
        manifest_dir: "/w",
        target_dir: "/w/target",
        profile: "bench",
        platform,
        targets,
    }
}

fn found() -> ManifestFound {
    ManifestFound {
        targets: vec![target("tool", "bin")],
        manifest_path: "/w/Cargo.toml".to_owned(),
        target_dir: "/w/target".to_owned(),
        package: Some(ManifestPackage {
            name: "tool".to_owned(),
            authors: list(&["A"]),
            ..ManifestPackage::default()
        }),
        debug_flag: false,
        root_debug_flag: None,
        default_timestamp: 0,
    }
}

fn extras() -> ManifestExtras {
    ManifestExtras {
        version: "1".to_owned(),
        architecture: "amd64".to_owned(),
        license: Ok((None, 0)),
        description_text: None,
        existing_files: vec![],
    }
}

fn config() -> Config {
    let mut listener = vec![];
    let c = Config::from_manifest(
        found(),
        CargoDeb::default(),
        extras(),
        None,
        None,
        None,
        None,
        &mut listener,
        "release",
        None,
        None,
        &suffixed(),
    );
    c.unwrap()
}

fn unresolved(source: &str, target: &str) -> UnresolvedAsset {
    UnresolvedAsset {
        source_path: source.to_owned(),
        c: AssetCommon {
            target_path: target.to_owned(),
            chmod: 0o755,
            is_built: IsBuilt::SamePackage,
            is_example: false,
        },
    }
}

#[test]
fn built_files_are_found_by_name() {
    let p = suffixed();
    let mut targets = vec![target("tool", "bin"), target("demo", "example"), target("far", "bin")];
    targets[2].src_path = "/elsewhere/main.rs".to_owned();
    let l = layout(&p, &targets);
    let find = |rel: &str, kind: &str| l.find_is_built_file_in_package(rel, kind);
    assert_eq!(find("tool", "bin"), IsBuilt::SamePackage);
    assert_eq!(find("x/tool.exe", "bin"), IsBuilt::SamePackage);
    assert_eq!(find("tool", "example"), IsBuilt::Workspace);
    assert_eq!(find("examples/demo.exe", "example"), IsBuilt::SamePackage);
    assert_eq!(find("far", "bin"), IsBuilt::Workspace);
    assert_eq!(find("other", "bin"), IsBuilt::Workspace);
    assert_eq!(l.is_built_file_in_package(&targets[0]), IsBuilt::SamePackage);
    assert_eq!(l.is_built_file_in_package(&targets[2]), IsBuilt::Workspace);
    assert_eq!(l.path_in_build("tool"), "/w/target/bench/tool");
}

#[test]
fn sources_can_be_placed_if_they_have_names() {
    let file = AssetSource::Path("a/b".to_owned());
    let no_name = AssetSource::Path("a/..".to_owned());
    let data = AssetSource::Data(vec![]);
    for s in [&file, &no_name, &data] {
        assert!(s.can_be_placed("usr/x"));
    }
    assert!(file.can_be_placed("usr/"));
    assert!(!no_name.can_be_placed("usr/"));
    assert!(!data.can_be_placed("usr/"));
}

#[test]
fn entries_need_names_where_they_are_built() {
    let p = suffixed();
    let targets = vec![];
    let l = layout(&p, &targets);
    let given = |lines: &[&[&str]]| {
        l.names_are_given(&Some(lines.iter().map(|x| list(x)).collect::<Vec<_>>()))
    };
    assert!(given(&[]));
    assert!(given(&[&["target/release/x", "a", "644"], &["..", "a", "644"]]));
    assert!(!given(&[&["target/release", "a", "644"]]));
    assert!(!given(&[&["target/bench/..", "a", "644"]]));
    assert!(given(&[&["target/other/..", "a", "644"]]));
    // Nothing counts behind what cannot be read.
    assert!(given(&[&["x", "a", "9"], &["target/release", "a", "644"]]));
    assert!(given(&[&[], &["target/release", "a", "644"]]));
    assert!(!given(&[&["target/release"]]));
}

#[test]
fn targets_need_names() {
    let p = suffixed();
    for (name, kind, ready) in [
        ("tool", "bin", true),
        ("", "bin", true),
        ("..", "bin", true),
        ("x/", "bin", true),
        ("../", "bin", false),
        ("../", "cdylib", true),
        ("../", "lib", true),
    ] {
        let targets = vec![target(name, kind)];
        assert_eq!(layout(&p, &targets).names_are_given(&None), ready, "{name} {kind}");
    }
}

#[test]
fn files_resolve_below_their_pattern() {
    let file = |path: &str| SourceFile {
        path: path.to_owned(),
        is_dir: false,
        disk: DiskStatus { exists: true, is_symlink: false },
    };
    assert!(file_can_resolve(&unresolved("/w/a/*", "etc"), &file("/w/a/x"), false));
    assert!(!file_can_resolve(&unresolved("/w/a/*", "etc"), &file("/w/b/x"), false));
    assert!(file_can_resolve(&unresolved("/w/a", "etc/"), &file("/w/a"), false));
    assert!(!file_can_resolve(&unresolved("/w/..", "etc/"), &file("/w/.."), false));
    assert!(file_can_resolve(&unresolved("/w/[.]./*", "etc"), &file("/w"), false));
}

#[test]
fn programs_need_names() {
    let p = suffixed();
    let mut c = config();
    assert!(c.programs_are_named(&vec![], &p));
    c.deb.assets.unresolved = vec![unresolved("..", "usr/bin/x")];
    assert!(!c.programs_are_named(&vec![], &p));
    assert!(c.programs_are_named(&list(&["--all"]), &p));
    c.deb.assets.unresolved.push(unresolved("*", "usr/bin/x"));
    assert!(c.programs_are_named(&vec![], &p));
    c.deb.assets.unresolved = vec![unresolved("..", "usr/bin/x.dll")];
    assert!(c.programs_are_named(&vec![], &p));
    c.deb.assets.unresolved.clear();
    c.deb.assets.resolved = vec![Asset::new(
        AssetSource::Path("/".to_owned()),
        "usr/bin/x".to_owned(),
        0o755,
        IsBuilt::Workspace,
        false,
    )];
    assert!(!c.programs_are_named(&vec![], &p));
    c.deb.assets.resolved[0].c.chmod = 0o644;
    assert!(c.programs_are_named(&vec![], &p));
}

#[test]
fn sizes_must_fit() {
    let mut c = config();
    let one = c.deb.assets.resolved[0].clone();
    c.deb.assets.resolved.push(one);
    assert!(c.deb.sizes_are_computable(&vec![Some(1), None]));
    assert!(!c.deb.sizes_are_computable(&vec![Some(1)]));
    assert!(c.deb.sizes_are_computable(&vec![Some(u64::MAX - 2047), Some(u64::MAX - 2047)]));
    assert!(!c.deb.sizes_are_computable(&vec![None, Some(u64::MAX - 2046)]));
}

#[test]
fn manifests_are_ready_if_their_assets_are_or_do_not_matter() {
    let ready = |found: &ManifestFound, deb: &CargoDeb, extras: &ManifestExtras| {
        Config::manifest_is_ready(found, deb, extras, &None, "release", &suffixed())
    };
    let nameless = CargoDeb {
        assets: Some(vec![list(&["target/release", "a", "644"])]),
        ..CargoDeb::default()
    };
    assert!(ready(&found(), &CargoDeb::default(), &extras()));
    assert!(!ready(&found(), &nameless, &extras()));
    // Other errors come first.
    let mut no_package = found();
    no_package.package = None;
    assert!(ready(&no_package, &nameless, &extras()));
    let mut no_authors = found();
    no_authors.package.as_mut().unwrap().authors.clear();
    assert!(ready(&no_authors, &nameless, &extras()));
    let owned = CargoDeb { copyright: Some("C".to_owned()), ..nameless.clone() };
    assert!(ready(&no_authors, &owned, &extras()));
    let owned = CargoDeb { maintainer: Some("M".to_owned()), ..owned };
    assert!(!ready(&no_authors, &owned, &extras()));
    let described =
        CargoDeb { extended_description_file: Some("d".to_owned()), ..nameless.clone() };
    assert!(!ready(&found(), &described, &extras()));
    let mut unread = extras();
    unread.description_text = Some(Err("gone".to_owned()));
    assert!(ready(&found(), &described, &unread));
    unread.description_text = Some(Ok(String::new()));
    assert!(!ready(&found(), &described, &unread));
}
