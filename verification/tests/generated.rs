use deb_assets::asset::{AssetSource, DiskStatus, IsBuilt, Platform};
use deb_assets::config::{Config, ManifestExtras, ManifestFound};
use deb_assets::error::{Attempt, CargoDebError};
use deb_assets::generated::{ChangelogRead, FoundUnit};
use deb_assets::manifest::{
    CargoDeb, CargoMetadataTarget, ManifestPackage, SystemUnitsSingleOrMultiple,
    SystemdUnitsConfig,
};
use deb_assets::path::starts_with_path;

fn linux() -> Platform {
    Platform {
        dll_prefix: "lib".to_owned(),
        dll_suffix: ".so".to_owned(),
        exe_suffix: String::new(),
    }
}

fn list(l: &[&str]) -> Vec<String> {
    l.iter().map(|s| s.to_string()).collect()
}

fn config(deb: CargoDeb, license_file: Option<&str>) -> Config {
    let found = ManifestFound {
        targets: vec![CargoMetadataTarget {
            name: "cargo-deb".to_owned(),
            kind: list(&["bin"]),
            crate_types: list(&["bin"]),
            src_path: "/w/src/main.rs".to_owned(),
        }],
        manifest_path: "/w/Cargo.toml".to_owned(),
        target_dir: "/w/target".to_owned(),
        package: Some(ManifestPackage {
            name: "cargo-deb".to_owned(),
            authors: list(&["A"]),
            ..ManifestPackage::default()
        }),
        debug_flag: false,
        root_debug_flag: None,
        default_timestamp: 0,
    };
    let extras = ManifestExtras {
        version: "1".to_owned(),
        architecture: "amd64".to_owned(),
        license: Ok((license_file.map(|s| s.to_owned()), 1)),
        description_text: None,
        existing_files: vec![],
    };
    let mut listener = vec![];
    Config::from_manifest(
        found, deb, extras, None, None, None, None, &mut listener, "release", None, None, &linux(),
    )
    .unwrap()
}

fn unit(source: &str, target_path: &str) -> FoundUnit {
    FoundUnit {
        source: source.to_owned(),
        disk: DiskStatus { exists: true, is_symlink: false },
        target_path: target_path.to_owned(),
        mode: 0o644,
    }
}

/// The units that are found where `cargo-deb.service` is the only file there is.
fn find_units(config: &Config) -> Vec<Vec<FoundUnit>> {
    config
        .systemd_searches()
        .iter()
        .map(|s| {
            assert_eq!(s.package, "cargo-deb");
            assert_eq!(s.unit_name, None);
            let dir = s.search_path.trim_end_matches('/');
            vec![unit(
                &format!("{dir}/cargo-deb.service"),
                "lib/systemd/system/cargo-deb.service",
            )]
        })
        .collect()
}

fn unit_assets(config: &Config) -> usize {
    config.deb.assets.resolved.iter()
        .filter(|a| starts_with_path(&a.c.target_path, "lib/systemd/system/"))
        .count()
}

#[test]
fn add_systemd_assets_with_no_config_does_nothing() {
    // supply a systemd unit file as if it were available on disk
    let mut config = config(CargoDeb::default(), None);
    let units = find_units(&config);
    config.add_generated_assets(None, None, units).unwrap();

    let num_unit_assets = unit_assets(&config);

    assert_eq!(0, num_unit_assets);
}

#[test]
fn add_systemd_assets_with_config_adds_unit_assets() {
    // supply a systemd unit file as if it were available on disk
    let mut config = config(CargoDeb::default(), None);
    let units = find_units(&config);
    config.add_generated_assets(None, None, units).unwrap();

    config.deb.systemd_units.get_or_insert(vec![SystemdUnitsConfig::default()]);
    config.deb.maintainer_scripts.get_or_insert(String::new());

    let units = find_units(&config);
    config.add_systemd_assets(units).unwrap();

    let num_unit_assets = unit_assets(&config);

    assert_eq!(1, num_unit_assets);
}

#[test]
fn units_are_searched_for_where_their_scripts_are() {
    let deb = CargoDeb {
        maintainer_scripts: Some("debian".to_owned()),
        systemd_units: Some(SystemUnitsSingleOrMultiple::Multi(vec![
            SystemdUnitsConfig { unit_name: Some("u".to_owned()), ..SystemdUnitsConfig::default() },
            SystemdUnitsConfig {
                unit_scripts: Some("/abs/units".to_owned()),
                ..SystemdUnitsConfig::default()
            },
        ])),
        ..CargoDeb::default()
    };
    let mut c = config(deb, None);
    let s = c.systemd_searches();
    assert_eq!(s.len(), 2);
    assert_eq!(s[0].search_path, "/w/debian");
    assert_eq!(s[0].unit_name.as_deref(), Some("u"));
    assert_eq!(s[1].search_path, "/abs/units");
    assert_eq!(s[1].unit_name, None);

    // A unit keeps its name in a directory, and each search may find several.
    let mut link = unit("/abs/units/c.timer", "lib/systemd/system/c.timer");
    link.disk.is_symlink = true;
    link.mode = 0o600;
    c.deb.preserve_symlinks = true;
    let before = c.deb.assets.resolved.len();
    c.add_systemd_assets(vec![
        vec![unit("/w/debian/a.service", "/lib/systemd/system/"), unit("/w/debian/b.service", "b")],
        vec![link],
    ])
    .unwrap();
    let a = &c.deb.assets.resolved[before..];
    let targets: Vec<&str> = a.iter().map(|a| a.c.target_path.as_str()).collect();
    assert_eq!(targets, vec!["lib/systemd/system/a.service", "b", "lib/systemd/system/c.timer"]);
    assert!(matches!(&a[0].source, AssetSource::Path(p) if p == "/w/debian/a.service"));
    assert!(matches!(&a[2].source, AssetSource::Symlink(p) if p == "/abs/units/c.timer"));
    assert_eq!(a[2].c.chmod, 0o600);

    c.deb.maintainer_scripts = None;
    assert_eq!(c.systemd_searches().len(), 1);
}

#[test]
fn copyright_without_a_license_file() {
    let mut c = config(CargoDeb::default(), None);
    assert_eq!(c.license_source(), None);
    let before = c.deb.assets.resolved.len();
    c.add_copyright_asset(None).unwrap();
    assert_eq!(c.deb.assets.resolved.len(), before + 1);
    let a = c.deb.assets.resolved.last().unwrap();
    assert_eq!(a.c.target_path, "usr/share/doc/cargo-deb/copyright");
    assert_eq!((a.c.chmod, a.c.is_built, a.c.is_example), (0o644, IsBuilt::No, false));
    let from = a.processed_from.as_ref().unwrap();
    assert_eq!(from.action, "generated");
    assert_eq!(from.original_path.as_deref(), Some("Cargo.toml"));
    let expected = "Format: https://www.debian.org/doc/packaging-manuals/copyright-format/1.0/\nUpstream-Name: cargo-deb\nCopyright: A\n";
    assert!(matches!(&a.source, AssetSource::Data(d) if d == expected.as_bytes()));
}

#[test]
fn copyright_from_a_license_file() {
    let mut c = config(CargoDeb::default(), Some("LICENSE"));
    assert_eq!(c.license_source().as_deref(), Some("/w/LICENSE"));
    c.add_copyright_asset(Some(Ok("head\ntext\n \nend".to_owned()))).unwrap();
    let a = c.deb.assets.resolved.last().unwrap();
    assert_eq!(a.processed_from.as_ref().unwrap().original_path.as_deref(), Some("/w/LICENSE"));
    let expected = "Format: https://www.debian.org/doc/packaging-manuals/copyright-format/1.0/\nUpstream-Name: cargo-deb\nCopyright: A\ntext\n .\nend\n";
    assert!(matches!(&a.source, AssetSource::Data(d) if d == expected.as_bytes()));

    let before = c.deb.assets.resolved.len();
    let r = c.add_copyright_asset(Some(Err("gone".to_owned())));
    assert!(matches!(
        r,
        Err(CargoDebError::IoFile("unable to read license file", e, p))
            if e == "gone" && p == "LICENSE"
    ));
    assert_eq!(c.deb.assets.resolved.len(), before);
}

fn read(content: Attempt<Vec<u8>>, gzipped: Option<Attempt<Vec<u8>>>) -> Option<ChangelogRead> {
    Some(ChangelogRead { content, gzipped })
}

#[test]
fn changelogs() {
    let deb = |path: Option<&str>| CargoDeb {
        changelog: path.map(|s| s.to_owned()),
        ..CargoDeb::default()
    };
    let c = config(deb(None), None);
    assert!(c.changelog_source().is_none());

    let c = config(deb(Some("debian/changelog.gz")), None);
    let s = c.changelog_source().unwrap();
    assert_eq!((s.path.as_str(), s.compressed), ("/w/debian/changelog.gz", true));

    let mut c = config(deb(Some("debian/changelog")), None);
    let s = c.changelog_source().unwrap();
    assert_eq!((s.path.as_str(), s.compressed), ("/w/debian/changelog", false));
    c.add_changelog_asset(read(Ok(vec![1]), Some(Ok(vec![31, 139])))).unwrap();
    let a = c.deb.assets.resolved.last().unwrap();
    assert_eq!(a.c.target_path, "usr/share/doc/cargo-deb/changelog.Debian.gz");
    assert_eq!(a.c.chmod, 0o644);
    let from = a.processed_from.as_ref().unwrap();
    assert_eq!(from.action, "generated");
    assert_eq!(from.original_path.as_deref(), Some("/w/debian/changelog"));
    assert!(matches!(&a.source, AssetSource::Data(d) if d == &vec![31, 139]));

    for changelog in [
        read(Err("gone".to_owned()), None),
        read(Ok(vec![1]), Some(Err("gone".to_owned()))),
    ] {
        let r = c.add_changelog_asset(changelog);
        assert!(matches!(
            r,
            Err(CargoDebError::IoFile("unable to read changelog file", e, p))
                if e == "gone" && p == "/w/debian/changelog"
        ));
    }

    // What is compressed already is taken as it is.
    let mut c = config(deb(Some("debian/changelog.gz")), None);
    for gzipped in [None, Some(Ok(vec![7])), Some(Err("unused".to_owned()))] {
        c.add_changelog_asset(read(Ok(vec![1, 2]), gzipped)).unwrap();
        let a = c.deb.assets.resolved.last().unwrap();
        assert!(matches!(&a.source, AssetSource::Data(d) if d == &vec![1, 2]));
    }
}

#[test]
fn generated_assets_come_in_order() {
    let deb = CargoDeb {
        name: Some("other".to_owned()),
        changelog: Some("log".to_owned()),
        maintainer_scripts: Some("debian".to_owned()),
        systemd_units: Some(SystemUnitsSingleOrMultiple::Single(SystemdUnitsConfig::default())),
        ..CargoDeb::default()
    };
    let mut c = config(deb, Some("LICENSE"));
    let first = c.deb.assets.resolved[0].c.target_path.clone();
    let units = find_units(&c);
    let changelog = read(Ok(vec![]), Some(Ok(vec![])));
    c.add_generated_assets(Some(Ok(String::new())), changelog, units).unwrap();
    let targets: Vec<&str> =
        c.deb.assets.resolved.iter().map(|a| a.c.target_path.as_str()).collect();
    assert_eq!(
        targets,
        vec![
            first.as_str(),
            "usr/share/doc/other/copyright",
            "usr/share/doc/other/changelog.Debian.gz",
            "lib/systemd/system/cargo-deb.service",
        ]
    );

    // What comes behind an error is not added.
    let units = find_units(&c);
    let changelog = read(Err("e".to_owned()), None);
    let r = c.add_generated_assets(Some(Ok(String::new())), changelog, units);
    assert!(matches!(r, Err(CargoDebError::IoFile("unable to read changelog file", _, _))));
    assert_eq!(c.deb.assets.resolved.len(), 5);
    assert_eq!(c.deb.assets.resolved[4].c.target_path, "usr/share/doc/other/copyright");

    // Nor does it have to be read.
    let r = c.add_generated_assets(Some(Err("e".to_owned())), None, vec![]);
    assert!(matches!(r, Err(CargoDebError::IoFile("unable to read license file", _, _))));
    assert_eq!(c.deb.assets.resolved.len(), 5);
}
