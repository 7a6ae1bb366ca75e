use deb_assets::asset::{AssetSource, IsBuilt, Platform};
use deb_assets::config::{Config, ManifestExtras, ManifestFound};
use deb_assets::error::{CDResult, CargoDebError, ParseOctalError};
use deb_assets::manifest::{
    CargoDeb, CargoMetadataTarget, DebugSymbols, ManifestPackage, Notice,
    SystemUnitsSingleOrMultiple, SystemdUnitsConfig,
};

fn linux() -> Platform {
    Platform {
        dll_prefix: "lib".to_owned(),
        dll_suffix: ".so".to_owned(),
        exe_suffix: String::new(),
    }
}

fn list(l: &[&str]) -> Vec<String> {
    l.iter().map(|s| s.to_string()).collect()
}

fn target(name: &str, kind: &str, src_path: &str) -> CargoMetadataTarget {
    CargoMetadataTarget {
        name: name.to_owned(),
        kind: list(&[kind]),
        crate_types: list(&[if kind == "example" { "bin" } else { kind }]),
        src_path: src_path.to_owned(),
    }
}

fn found() -> ManifestFound {
    ManifestFound {
        targets: vec![
            target("tool", "bin", "/w/tool/src/main.rs"),
            target("demo", "example", "/w/tool/examples/demo.rs"),
            target("dyn", "cdylib", "/w/other/src/lib.rs"),
        ],
        manifest_path: "/w/tool/Cargo.toml".to_owned(),
        target_dir: "/w/target".to_owned(),
        package: Some(ManifestPackage {
            name: "my_tool".to_owned(),
            authors: list(&["A. Author <a@example.org>", "B. Author"]),
            description: Some("A tool.".to_owned()),
            ..ManifestPackage::default()
        }),
        debug_flag: false,
        root_debug_flag: None,
        default_timestamp: 1234,
    }
}

fn extras() -> ManifestExtras {
    ManifestExtras {
        version: "1.2.3-1".to_owned(),
        architecture: "amd64".to_owned(),
        license: Ok((None, 0)),
        description_text: None,
        existing_files: vec![],
    }
}

fn make(found: ManifestFound, deb: CargoDeb, extras: ManifestExtras) -> (CDResult<Config>, Vec<Notice>) {
    let mut listener = vec![];
    let c = Config::from_manifest(
        found, deb, extras, None, None, None, None, &mut listener, "release", None, None, &linux(),
    );
    (c, listener)
}

fn config(found: ManifestFound, deb: CargoDeb) -> Config {
    make(found, deb, extras()).0.unwrap()
}

fn with_assets(lines: &[&[&str]]) -> CargoDeb {
    CargoDeb { assets: Some(lines.iter().map(|l| list(l)).collect()), ..CargoDeb::default() }
}

#[test]
fn defaults_of_a_package() {
    let (c, notices) = make(found(), CargoDeb::default(), extras());
    let c = c.unwrap();
    assert_eq!(notices.len(), 1);
    assert!(matches!(
        &notices[0],
        Notice::Warning(m) if m == "license field is missing in Cargo.toml"
    ));
    assert_eq!(c.package_manifest_dir, "/w/tool");
    assert_eq!(c.target_dir, "/w/target");
    assert_eq!(c.target, None);
    assert_eq!(c.deb_output_path, None);
    assert_eq!(c.features, Vec::<String>::new());
    assert!(c.default_features);
    assert_eq!(c.debug_symbols, DebugSymbols::Strip);
    let p = &c.deb;
    assert_eq!(p.name, "my_tool");
    assert_eq!(p.deb_name, "my-tool");
    assert_eq!(p.deb_version, "1.2.3-1");
    assert_eq!(p.copyright, "A. Author <a@example.org>, B. Author");
    assert_eq!(p.maintainer, "A. Author <a@example.org>");
    assert_eq!(p.description, "A tool.");
    assert_eq!(p.extended_description, None);
    assert_eq!(p.depends, "$auto");
    assert_eq!(p.priority, "optional");
    assert_eq!(p.architecture, "amd64");
    assert_eq!(p.conf_files, None);
    assert_eq!(p.default_timestamp, 1234);
    assert!(!p.preserve_symlinks);
    assert!(p.systemd_units.is_none());
}

#[test]
fn settings_of_a_package() {
    let deb = CargoDeb {
        name: Some("named".to_owned()),
        maintainer: Some("M".to_owned()),
        copyright: Some("C".to_owned()),
        changelog: Some("debian/changelog".to_owned()),
        depends: Some("libc6".to_owned()),
        pre_depends: Some("pre".to_owned()),
        recommends: Some("rec".to_owned()),
        suggests: Some("sug".to_owned()),
        enhances: Some("enh".to_owned()),
        conflicts: Some("con".to_owned()),
        breaks: Some("bre".to_owned()),
        replaces: Some("rep".to_owned()),
        provides: Some("pro".to_owned()),
        extended_description: Some("long".to_owned()),
        section: Some("utils".to_owned()),
        priority: Some("extra".to_owned()),
        conf_files: Some(list(&["etc/x"])),
        triggers_file: Some("debian/triggers".to_owned()),
        maintainer_scripts: Some("debian".to_owned()),
        features: Some(list(&["f", "g"])),
        default_features: Some(false),
        separate_debug_symbols: Some(true),
        preserve_symlinks: Some(true),
        systemd_units: Some(SystemUnitsSingleOrMultiple::Single(SystemdUnitsConfig {
            unit_name: Some("u".to_owned()),
            ..SystemdUnitsConfig::default()
        })),
        ..CargoDeb::default()
    };
    let mut found = found();
    let package = found.package.as_mut().unwrap();
    package.homepage = Some("h".to_owned());
    package.documentation = Some("d".to_owned());
    package.license = Some("MIT".to_owned());
    package.repository = Some("r".to_owned());
    package.description = None;
    let mut extras = extras();
    extras.license = Ok((Some("LICENSE".to_owned()), 4));
    let mut listener = vec![];
    let c = Config::from_manifest(
        found,
        deb,
        extras,
        Some("out.deb".to_owned()),
        Some("arm-unknown-linux-gnueabihf".to_owned()),
        Some("small"),
        Some("9".to_owned()),
        &mut listener,
        "release",
        None,
        Some(true),
        &linux(),
    )
    .unwrap();
    assert_eq!(c.target.as_deref(), Some("arm-unknown-linux-gnueabihf"));
    assert_eq!(c.target_dir, "/w/target/arm-unknown-linux-gnueabihf");
    assert_eq!(c.deb_output_path.as_deref(), Some("out.deb"));
    assert_eq!(c.features, list(&["f", "g"]));
    assert!(!c.default_features);
    assert_eq!(c.debug_symbols, DebugSymbols::Separate { compress: true });
    let p = &c.deb;
    assert_eq!(p.name, "my_tool-small");
    assert_eq!(p.deb_name, "named");
    assert_eq!(p.deb_version, "9");
    assert_eq!(p.license.as_deref(), Some("MIT"));
    assert_eq!(p.license_file.as_deref(), Some("LICENSE"));
    assert_eq!(p.license_file_skip_lines, 4);
    assert_eq!(p.copyright, "C");
    assert_eq!(p.changelog.as_deref(), Some("debian/changelog"));
    assert_eq!(p.homepage.as_deref(), Some("h"));
    assert_eq!(p.documentation.as_deref(), Some("d"));
    assert_eq!(p.repository.as_deref(), Some("r"));
    assert_eq!(p.description, "[generated from Rust crate my_tool-small]");
    assert_eq!(p.extended_description.as_deref(), Some("long"));
    assert_eq!(p.maintainer, "M");
    assert_eq!(p.depends, "libc6");
    assert_eq!(p.pre_depends.as_deref(), Some("pre"));
    assert_eq!(p.recommends.as_deref(), Some("rec"));
    assert_eq!(p.suggests.as_deref(), Some("sug"));
    assert_eq!(p.enhances.as_deref(), Some("enh"));
    assert_eq!(p.conflicts.as_deref(), Some("con"));
    assert_eq!(p.breaks.as_deref(), Some("bre"));
    assert_eq!(p.replaces.as_deref(), Some("rep"));
    assert_eq!(p.provides.as_deref(), Some("pro"));
    assert_eq!(p.section.as_deref(), Some("utils"));
    assert_eq!(p.priority, "extra");
    assert_eq!(p.conf_files.as_deref(), Some("/etc/x\n"));
    assert_eq!(p.triggers_file.as_deref(), Some("debian/triggers"));
    assert_eq!(p.maintainer_scripts.as_deref(), Some("debian"));
    assert!(p.preserve_symlinks);
    let units = p.systemd_units.as_ref().unwrap();
    assert_eq!(units.len(), 1);
    assert_eq!(units[0].unit_name.as_deref(), Some("u"));
}

#[test]
fn variants_are_named_after_the_package() {
    let mut listener = vec![];
    let c = Config::from_manifest(
        found(), CargoDeb::default(), extras(), None, None, Some("v_1"), None, &mut listener,
        "release", None, None, &linux(),
    )
    .unwrap();
    assert_eq!(c.deb.name, "my_tool-v_1");
    assert_eq!(c.deb.deb_name, "my-tool-v-1");
}

#[test]
fn debug_symbols_are_kept_in_release_builds_that_have_them() {
    for (flag, root, profile, expected) in [
        (true, None, "release", DebugSymbols::Keep),
        (false, Some(true), "release", DebugSymbols::Keep),
        (false, Some(false), "release", DebugSymbols::Strip),
        (true, Some(true), "dev", DebugSymbols::Strip),
    ] {
        let mut found = found();
        found.debug_flag = flag;
        found.root_debug_flag = root;
        let mut listener = vec![];
        let c = Config::from_manifest(
            found, CargoDeb::default(), extras(), None, None, None, None, &mut listener, profile,
            None, None, &linux(),
        )
        .unwrap();
        assert_eq!(c.debug_symbols, expected);
    }
}

#[test]
fn manifests_that_cannot_be_used() {
    let mut no_package = found();
    no_package.package = None;
    let (r, notices) = make(no_package, CargoDeb::default(), extras());
    assert!(matches!(r, Err(CargoDebError::Str("bad package"))));
    assert_eq!(notices.len(), 0);

    let no_authors = || {
        let mut f = found();
        f.package.as_mut().unwrap().authors = vec![];
        f
    };
    let (r, notices) = make(no_authors(), CargoDeb::default(), extras());
    assert!(matches!(
        r,
        Err(CargoDebError::Str("The package must have a copyright or authors property"))
    ));
    assert_eq!(notices.len(), 1);
    let deb = CargoDeb { copyright: Some("C".to_owned()), ..CargoDeb::default() };
    let (r, _) = make(no_authors(), deb, extras());
    assert!(matches!(
        r,
        Err(CargoDebError::Str("The package must have a maintainer or authors property"))
    ));
    let deb = CargoDeb {
        copyright: Some("C".to_owned()),
        maintainer: Some("M".to_owned()),
        ..CargoDeb::default()
    };
    assert!(make(no_authors(), deb, extras()).0.is_ok());

    // A license file that cannot be used comes first, but for what is said of debug symbols.
    let mut unlicensed = extras();
    unlicensed.license = Err(CargoDebError::Str("bad license-file"));
    let deb = CargoDeb { separate_debug_symbols: Some(true), ..CargoDeb::default() };
    let (r, notices) = make(no_authors(), deb, unlicensed);
    assert!(matches!(r, Err(CargoDebError::Str("bad license-file"))));
    assert!(matches!(
        &notices[..],
        [Notice::Log(m)] if m == "separate-debug-symbols implies strip"
    ));

    // A description that cannot be read comes next.
    let deb = CargoDeb { extended_description_file: Some("d".to_owned()), ..CargoDeb::default() };
    let mut unread = extras();
    unread.description_text = Some(Err("gone".to_owned()));
    let (r, _) = make(no_authors(), deb, unread);
    assert!(matches!(
        r,
        Err(CargoDebError::IoFile("unable to read extended description from file", e, p))
            if e == "gone" && p == "d"
    ));
}

#[test]
fn extended_descriptions_are_read_from_the_readme() {
    let mut f = found();
    f.package.as_mut().unwrap().readme = Some("README.md".to_owned());
    let mut e = extras();
    e.description_text = Some(Ok("# my tool".to_owned()));
    let c = make(f, CargoDeb::default(), e).0.unwrap();
    assert_eq!(c.deb.extended_description.as_deref(), Some("# my tool"));
    // The readme is an asset, too.
    let last = c.deb.assets.resolved.last().unwrap();
    assert_eq!(last.c.target_path, "usr/share/doc/my_tool/README.md");
    assert_eq!(last.source.path().unwrap(), "/w/tool/README.md");
    assert_eq!(last.c.chmod, 0o644);
}

#[test]
fn readmes_without_a_name_are_bad() {
    let mut f = found();
    f.package.as_mut().unwrap().readme = Some("..".to_owned());
    let mut e = extras();
    e.description_text = Some(Ok(String::new()));
    assert!(matches!(
        make(f, CargoDeb::default(), e).0,
        Err(CargoDebError::Str("bad README path"))
    ));
}

#[test]
fn targets_are_assets_by_default() {
    let c = config(found(), CargoDeb::default());
    let a = &c.deb.assets;
    assert!(a.unresolved.is_empty());
    assert_eq!(a.resolved.len(), 2);
    assert_eq!(a.resolved[0].c.target_path, "usr/bin/tool");
    assert_eq!(a.resolved[0].source.path().unwrap(), "/w/target/release/tool");
    assert_eq!(a.resolved[0].c.chmod, 0o755);
    assert_eq!(a.resolved[0].c.is_built, IsBuilt::SamePackage);
    assert_eq!(a.resolved[1].c.target_path, "usr/lib/libdyn.so");
    assert_eq!(a.resolved[1].source.path().unwrap(), "/w/target/release/libdyn.so");
    assert_eq!(a.resolved[1].c.chmod, 0o644);
    assert_eq!(a.resolved[1].c.is_built, IsBuilt::Workspace);
}

#[test]
fn packages_are_not_empty() {
    let mut nothing = found();
    nothing.targets = vec![];
    let message = "No binaries or cdylibs found. The package is empty. Please specify some assets to package in Cargo.toml";
    assert!(matches!(
        make(nothing, CargoDeb::default(), extras()).0,
        Err(CargoDebError::Str(m)) if m == message
    ));
    assert!(matches!(
        make(found(), with_assets(&[]), extras()).0,
        Err(CargoDebError::Str(m)) if m == message
    ));
}

#[test]
fn assets_of_a_manifest() {
    let deb = with_assets(&[
        &["target/release/tool", "usr/bin/", "755"],
        &["target/release/examples/demo", "usr/bin/demo", "0755"],
        &["target/release/dyn", "usr/lib/", "644"],
        &["conf/*.toml", "/etc/tool/", "600", "ignored"],
        &["/abs/file", "usr/share/file", "644"],
    ]);
    let (c, notices) = make(found(), deb, extras());
    let c = c.unwrap();
    assert_eq!(notices.len(), 1);
    let a = &c.deb.assets;
    assert!(a.resolved.is_empty());
    let expected = [
        ("/w/target/release/tool", "usr/bin/", 0o755, IsBuilt::SamePackage, false),
        ("/w/target/release/examples/demo", "usr/bin/demo", 0o755, IsBuilt::SamePackage, true),
        ("/w/target/release/dyn", "usr/lib/", 0o644, IsBuilt::Workspace, false),
        ("/w/tool/conf/*.toml", "/etc/tool/", 0o600, IsBuilt::No, false),
        ("/abs/file", "usr/share/file", 0o644, IsBuilt::No, false),
    ];
    assert_eq!(a.unresolved.len(), expected.len());
    for (u, e) in a.unresolved.iter().zip(expected) {
        let c = &u.c;
        assert_eq!(
            (u.source_path.as_str(), c.target_path.as_str(), c.chmod, c.is_built, c.is_example),
            e
        );
    }
}

#[test]
fn release_stands_for_any_profile() {
    let deb = with_assets(&[
        &["target/release/tool", "usr/bin/", "755"],
        &["target/dev/tool", "usr/bin/", "755"],
        &["target/debug/tool", "usr/bin/", "755"],
    ]);
    let mut listener = vec![];
    let c = Config::from_manifest(
        found(), deb, extras(), None, None, None, None, &mut listener, "dev", None, None, &linux(),
    )
    .unwrap();
    let paths: Vec<&str> =
        c.deb.assets.unresolved.iter().map(|u| u.source_path.as_str()).collect();
    assert_eq!(
        paths,
        vec!["/w/target/debug/tool", "/w/target/debug/tool", "/w/tool/target/debug/tool"]
    );
    assert_eq!(listener.len(), 2);
    let expected = "Packaging of development-only binaries is intentionally unsupported in cargo-deb.
    Please only use `target/release/` directory for built products, not `target/debug/tool`.
    To add debug information or additional assertions use `[profile.release]` in `Cargo.toml` instead.
    This will be hard error in a future release of cargo-deb.";
    assert!(matches!(&listener[1], Notice::Warning(m) if m == expected));
}

#[test]
fn assets_that_cannot_be_read() {
    let error = |line: &[&str]| make(found(), with_assets(&[line]), extras()).0.unwrap_err();
    assert!(matches!(
        error(&[]),
        CargoDebError::Str("missing path (first array entry) for asset in Cargo.toml")
    ));
    assert!(matches!(
        error(&["a"]),
        CargoDebError::Str("missing target (second array entry) for asset in Cargo.toml. Use something like \"usr/local/bin/\".")
    ));
    assert!(matches!(
        error(&["a", "b"]),
        CargoDebError::Str("missing chmod (third array entry) for asset in Cargo.toml. Use an octal string like \"777\".")
    ));
    assert!(matches!(
        error(&["a", "b", "9"]),
        CargoDebError::NumParse("unable to parse chmod argument", ParseOctalError::InvalidDigit)
    ));
    assert!(matches!(
        error(&["a", "b", ""]),
        CargoDebError::NumParse("unable to parse chmod argument", ParseOctalError::Empty)
    ));
    assert!(matches!(
        error(&["a", "b", "77777777777"]),
        CargoDebError::NumParse("unable to parse chmod argument", ParseOctalError::PosOverflow)
    ));
}

#[test]
fn paths_of_a_configuration() {
    let mut c = config(found(), CargoDeb::default());
    assert_eq!(c.path_in_build("x/y", "release"), "/w/target/release/x/y");
    assert_eq!(c.path_in_build("x", "dev"), "/w/target/debug/x");
    assert_eq!(c.path_in_build("x", "bench"), "/w/target/bench/x");
    assert_eq!(c.path_in_package("x"), "/w/tool/x");
    assert_eq!(c.path_in_package("/x"), "/x");
    assert_eq!(c.default_deb_output_dir(), "/w/target/debian");
    assert_eq!(c.deb_temp_dir(), "/w/target/debian/my_tool");
    let name = "my-tool_1.2.3-1_amd64.deb";
    assert_eq!(c.deb_output_path(false), format!("/w/target/debian/{name}"));
    c.deb_output_path = Some("out".to_owned());
    assert_eq!(c.deb_output_path(false), "out");
    assert_eq!(c.deb_output_path(true), format!("out/{name}"));
    c.deb_output_path = Some("out/".to_owned());
    assert_eq!(c.deb_output_path(false), format!("out/{name}"));
    assert_eq!(c.deb.filename_glob(), "my-tool_*_amd64.deb");
    assert_eq!(c.deb.filename_glob().replace('*', &c.deb.deb_version), name);
}

#[test]
fn assets_are_replaced_as_a_whole() {
    let mut c = config(found(), CargoDeb::default());
    let targets = vec![target("one", "bin", "/w/tool/src/one.rs")];
    let mut listener = vec![];
    c.take_assets(&None, &None, &targets, "release", &linux(), &mut listener).unwrap();
    assert_eq!(c.deb.assets.resolved.len(), 1);
    assert!(matches!(
        &c.deb.assets.resolved[0].source,
        AssetSource::Path(p) if p == "/w/target/release/one"
    ));
    // Where it fails, the assets stay.
    assert!(c.take_assets(&None, &None, &vec![], "release", &linux(), &mut listener).is_err());
    assert_eq!(c.deb.assets.resolved.len(), 1);
}
