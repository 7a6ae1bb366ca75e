use deb_assets::asset::{
    Asset, AssetCommon, AssetSource, DiskStatus, IsBuilt, Platform, UnresolvedAsset,
};
use deb_assets::config::{Config, ManifestExtras, ManifestFound};
use deb_assets::error::CargoDebError;
use deb_assets::flags::is_glob_pattern;
use deb_assets::manifest::{CargoDeb, CargoMetadataTarget, ManifestPackage};
use deb_assets::resolve::{find_pattern_base, target_of_file, SourceFile};

fn linux() -> Platform {
    Platform {
        dll_prefix: "lib".to_owned(),
        dll_suffix: ".so".to_owned(),
        exe_suffix: String::new(),
    }
}

fn list(l: &[&str]) -> Vec<String> {
    l.iter().map(|s| s.to_string()).collect()
}

fn target(name: &str, kind: &str, src_path: &str) -> CargoMetadataTarget {
    CargoMetadataTarget {
        name: name.to_owned(),
        kind: list(&[kind]),
        crate_types: list(&[if kind == "example" { "bin" } else { kind }]),
        src_path: src_path.to_owned(),
    }
}

fn config(assets: &[&[&str]]) -> Config {
    let found = ManifestFound {
        targets: vec![
            target("tool", "bin", "/w/src/main.rs"),
            target("demo", "example", "/w/examples/demo.rs"),
        ],
        manifest_path: "/w/Cargo.toml".to_owned(),
        target_dir: "/w/target".to_owned(),
        package: Some(ManifestPackage {
            name: "tool".to_owned(),
            authors: list(&["A"]),
            ..ManifestPackage::default()
        }),
        debug_flag: false,
        root_debug_flag: None,
        default_timestamp: 0,
    };
    let extras = ManifestExtras {
        version: "1".to_owned(),
        architecture: "amd64".to_owned(),
        license: Ok((None, 0)),
        description_text: None,
        existing_files: vec![],
    };
    let deb = CargoDeb {
        assets: Some(assets.iter().map(|l| list(l)).collect()),
        ..CargoDeb::default()
    };
    let mut listener = vec![];
    Config::from_manifest(
        found, deb, extras, None, None, None, None, &mut listener, "release", None, None, &linux(),
    )
    .unwrap()
}

fn there(path: &str) -> SourceFile {
    SourceFile {
        path: path.to_owned(),
        is_dir: false,
        disk: DiskStatus { exists: true, is_symlink: false },
    }
}

fn dir(path: &str) -> SourceFile {
    SourceFile { is_dir: true, ..there(path) }
}

fn targets(c: &Config) -> Vec<&str> {
    c.deb.assets.resolved.iter().map(|a| a.c.target_path.as_str()).collect()
}

#[test]
fn patterns() {
    for p in ["*", "a[b", "a]b", "!", "a/b*/c"] {
        assert!(is_glob_pattern(p), "{p}");
    }
    for p in ["", "a", "a?b", "a/{b,c}"] {
        assert!(!is_glob_pattern(p), "{p}");
    }
}

#[test]
fn patterns_start_from_a_directory() {
    for (p, base) in [
        ("/w/conf/*.toml", "/w/conf"),
        ("conf/**/x", "conf"),
        ("*", ""),
        ("/*", "/"),
        ("/a//b/./c[d]/e", "/a/b"),
        ("./a/b*", "./a"),
        ("a/b", "a/b"),
        ("", ""),
    ] {
        assert_eq!(find_pattern_base(p), base, "{p}");
    }
}

#[test]
fn targets_of_files() {
    let u = |source: &str| UnresolvedAsset {
        source_path: source.to_owned(),
        c: AssetCommon {
            target_path: "etc".to_owned(),
            chmod: 0o644,
            is_built: IsBuilt::No,
            is_example: false,
        },
    };
    assert_eq!(target_of_file(&u("/w/*/x"), "/w/a/x").as_deref(), Some("etc/a/x"));
    assert_eq!(target_of_file(&u("/w/*/x"), "/v/a/x"), None);
    assert_eq!(target_of_file(&u("/w/x"), "/v/a/x").as_deref(), Some("etc"));
}

#[test]
fn files_keep_their_places_below_a_pattern() {
    let mut c = config(&[
        &["conf/**/*", "/etc/tool/", "600"],
        &["target/release/tool", "usr/bin/", "755"],
        &["README", "usr/share/doc/tool/readme", "644"],
    ]);
    c.resolve_assets(vec![
        Ok(vec![
            there("/w/conf/a.toml"),
            dir("/w/conf/sub"),
            there("/w/conf/sub/b.toml"),
        ]),
        Ok(vec![there("/w/target/release/tool")]),
        Ok(vec![there("/w/README")]),
    ])
    .unwrap();
    assert!(c.deb.assets.unresolved.is_empty());
    assert_eq!(
        targets(&c),
        vec![
            "etc/tool/a.toml",
            "etc/tool/sub/b.toml",
            "usr/bin/tool",
            "usr/share/doc/tool/readme",
        ]
    );
    let a = &c.deb.assets.resolved;
    assert_eq!(a[1].source.path().unwrap(), "/w/conf/sub/b.toml");
    assert_eq!(a[1].c.chmod, 0o600);
    assert_eq!(a[1].c.is_built, IsBuilt::No);
    assert_eq!(a[2].c.chmod, 0o755);
    assert_eq!(a[2].c.is_built, IsBuilt::SamePackage);
}

#[test]
fn examples_stay_examples() {
    let mut c = config(&[&["target/release/examples/demo", "usr/bin/", "755"]]);
    c.resolve_assets(vec![Ok(vec![there("/w/target/release/examples/demo")])]).unwrap();
    assert!(c.deb.assets.resolved[0].c.is_example);
}

#[test]
fn files_of_one_name_can_be_installed_side_by_side() {
    let mut c = config(&[&["conf/*", "/etc/tool", "600"], &["a", "b/", "644"]]);
    c.resolve_assets(vec![
        Ok(vec![there("/w/conf/x"), there("/w/conf/y")]),
        Ok(vec![there("/w/a"), there("/w/a2")]),
    ])
    .unwrap();
    assert_eq!(targets(&c), vec!["etc/tool/x", "etc/tool/y", "b/a", "b/a2"]);
}

#[test]
fn symlinks_are_resolved_as_asked_for() {
    for (preserve, exists, is_link) in [(true, true, true), (false, true, false), (false, false, true)]
    {
        let mut c = config(&[&["l", "usr/l", "644"]]);
        c.deb.preserve_symlinks = preserve;
        let file = SourceFile { disk: DiskStatus { exists, is_symlink: true }, ..there("/w/l") };
        c.resolve_assets(vec![Ok(vec![file])]).unwrap();
        let source = &c.deb.assets.resolved[0].source;
        assert_eq!(source.archive_as_symlink_only(), is_link);
        assert_eq!(source.path().unwrap(), "/w/l");
    }
}

#[test]
fn assets_that_are_not_found() {
    let mut c = config(&[
        &["a", "usr/a", "644"],
        &["d/*", "usr/d", "644"],
        &["b", "usr/b", "644"],
    ]);
    c.deb.assets.resolved.push(Asset::new(
        AssetSource::Data(vec![]),
        "first".to_owned(),
        0o644,
        IsBuilt::No,
        false,
    ));
    let r = c.resolve_assets(vec![
        Ok(vec![there("/w/a")]),
        Ok(vec![dir("/w/d/x")]),
        Ok(vec![there("/w/b")]),
    ]);
    assert!(matches!(r, Err(CargoDebError::AssetFileNotFound(p)) if p == "/w/d/*"));
    assert_eq!(targets(&c), vec!["first", "usr/a"]);
    assert!(c.deb.assets.unresolved.is_empty());
}

#[test]
fn searches_that_fail() {
    let mut c = config(&[&["a", "usr/a", "644"], &["b", "usr/b", "644"]]);
    let r = c.resolve_assets(vec![
        Ok(vec![there("/w/a")]),
        Err(CargoDebError::Glob("bad pattern".to_owned())),
    ]);
    assert!(matches!(r, Err(CargoDebError::Glob(m)) if m == "bad pattern"));
    assert_eq!(targets(&c), vec!["usr/a"]);
    // Nothing has to be searched for behind it.
    let mut c = config(&[&["a", "usr/a", "644"], &["b", "usr/b", "644"]]);
    let r = c.resolve_assets(vec![Ok(vec![])]);
    assert!(matches!(r, Err(CargoDebError::AssetFileNotFound(p)) if p == "/w/a"));
    assert_eq!(targets(&c), Vec::<&str>::new());
    assert!(c.deb.assets.unresolved.is_empty());
}

#[test]
fn nothing_is_left_to_resolve() {
    let mut c = config(&[&["a", "usr/a", "644"]]);
    c.resolve_assets(vec![Ok(vec![there("/w/a")])]).unwrap();
    c.resolve_assets(vec![]).unwrap();
    assert_eq!(targets(&c), vec!["usr/a"]);
    c.resolve_assets(vec![Ok(vec![there("/w/b")])]).unwrap();
    assert_eq!(targets(&c), vec!["usr/a"]);
}

fn flags(c: &Config, given: &[&str]) -> Vec<String> {
    let mut flags = list(given);
    c.extend_cargo_build_flags(&mut flags, &linux());
    flags
}

#[test]
fn flags_for_what_is_built() {
    let c = config(&[
        &["target/release/tool", "usr/bin/", "755"],
        &["target/release/examples/demo", "usr/bin/", "755"],
        &["target/release/tool", "usr/share/data", "644"],
        &["README", "usr/bin/readme", "755"],
    ]);
    assert_eq!(flags(&c, &["-v"]), list(&["-v", "--bin=tool", "--example=demo"]));
    for given in ["--workspace", "--all"] {
        assert_eq!(flags(&c, &["-v", given]), list(&["-v", given]));
    }
}

#[test]
fn flags_for_other_packages() {
    let c = config(&[
        &["target/release/tool", "usr/bin/", "755"],
        &["target/release/other", "usr/bin/", "755"],
        &["target/release/libx.so", "usr/lib/", "755"],
    ]);
    let once = flags(&c, &[]);
    assert_eq!(once, list(&["--workspace", "--bin=tool", "--bin=other", "--lib"]));
    let given: Vec<&str> = once.iter().map(|f| f.as_str()).collect();
    assert_eq!(flags(&c, &given), once);
}

#[test]
fn flags_for_patterns() {
    let c = config(&[
        &["target/release/tool", "usr/bin/", "755"],
        &["target/release/t*", "usr/bin/", "755"],
    ]);
    assert_eq!(flags(&c, &["-q"]), list(&["-q", "--workspace"]));
    assert_eq!(flags(&c, &["-q", "--workspace"]), list(&["-q", "--workspace"]));
    // What is not built does not count.
    let c = config(&[&["conf/*", "etc/", "755"], &["target/release/tool", "usr/bin/", "755"]]);
    assert_eq!(flags(&c, &[]), list(&["--bin=tool"]));
}

#[test]
fn flags_for_resolved_assets() {
    let mut c = config(&[&["target/release/tool", "usr/bin/", "755"]]);
    let built = |source, target: &str, chmod| {
        Asset::new(source, target.to_owned(), chmod, IsBuilt::SamePackage, false)
    };
    c.deb.assets.resolved = vec![
        built(AssetSource::Path("/x/first.exe".to_owned()), "usr/bin/f", 0o755),
        built(AssetSource::Path("/x/liby.so".to_owned()), "usr/y", 0o644),
        built(AssetSource::Data(vec![]), "usr/bin/data", 0o755),
    ];
    let suffixed = Platform {
        dll_prefix: String::new(),
        dll_suffix: ".so".to_owned(),
        exe_suffix: ".exe".to_owned(),
    };
    let mut f = vec![];
    c.extend_cargo_build_flags(&mut f, &suffixed);
    assert_eq!(f, list(&["--bin=first", "--bin=tool", "--lib"]));
}
