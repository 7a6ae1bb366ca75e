use deb_assets::asset::{Asset, AssetSource, IsBuilt, Platform};
use deb_assets::config::{Config, ManifestExtras, ManifestFound};
use deb_assets::manifest::{CargoDeb, CargoMetadataTarget, ManifestPackage};
use deb_assets::package::{has_copyright_metadata, Package, DESCRIPTION_WIDTH};
use std::path::{Path, PathBuf};

fn linux() -> Platform {
    Platform {
        dll_prefix: "lib".to_owned(),
        dll_suffix: ".so".to_owned(),
        exe_suffix: String::new(),
    }
}

fn list(l: &[&str]) -> Vec<String> {
    l.iter().map(|s| s.to_string()).collect()
}

fn package() -> Package {
    let found = ManifestFound {
        targets: vec![CargoMetadataTarget {
            name: "tool".to_owned(),
            kind: list(&["bin"]),
            crate_types: list(&["bin"]),
            src_path: "/w/src/main.rs".to_owned(),
        }],
        manifest_path: "/w/Cargo.toml".to_owned(),
        target_dir: "/w/target".to_owned(),
        package: Some(ManifestPackage {
            name: "tool".to_owned(),
            authors: list(&["A"]),
            ..ManifestPackage::default()
        }),
        debug_flag: false,
        root_debug_flag: None,
        default_timestamp: 0,
    };
    let extras = ManifestExtras {
        version: "1.0-1".to_owned(),
        architecture: "amd64".to_owned(),
        license: Ok((None, 0)),
        description_text: None,
        existing_files: vec![],
    };
    let mut listener = vec![];
    let c = Config::from_manifest(
        found,
        CargoDeb::default(),
        extras,
        None,
        None,
        None,
        None,
        &mut listener,
        "release",
        None,
        None,
        &linux(),
    );
    c.unwrap().deb
}

fn data(n: usize, target: &str, chmod: u32) -> Asset {
    Asset::new(AssetSource::Data(vec![0; n]), target.to_owned(), chmod, IsBuilt::No, false)
}

fn path(p: &str, target: &str, chmod: u32, is_built: IsBuilt) -> Asset {
    Asset::new(AssetSource::Path(p.to_owned()), target.to_owned(), chmod, is_built, false)
}

fn control(p: &Package, deps: &str, description: &[&str], extended: &[&str]) -> String {
    let on_disk = vec![None; p.assets.resolved.len()];
    let bytes = p.generate_control(deps, &on_disk, &list(description), &list(extended)).unwrap();
    String::from_utf8(bytes).unwrap()
}

#[test]
fn smallest_control_file() {
    let mut p = package();
    p.assets.resolved = vec![];
    assert_eq!(
        control(&p, "", &["A tool."], &["never"]),
        "Package: tool\nVersion: 1.0-1\nArchitecture: amd64\nPriority: optional\nMaintainer: A\nInstalled-Size: 0\nDescription: A tool.\n\n"
    );
}

#[test]
fn largest_control_file() {
    let mut p = package();
    p.assets.resolved = vec![data(1025, "a", 0o644)];
    p.repository = Some("https://github.com/x/y".to_owned());
    p.homepage = Some("https://h".to_owned());
    p.documentation = Some("https://d".to_owned());
    p.section = Some("utils".to_owned());
    p.pre_depends = Some(" pre ".to_owned());
    p.recommends = Some("rec".to_owned());
    p.suggests = Some("\tsug\n".to_owned());
    p.enhances = Some("enh".to_owned());
    p.conflicts = Some(" con ".to_owned());
    p.breaks = Some("bre".to_owned());
    p.replaces = Some("rep".to_owned());
    p.provides = Some("".to_owned());
    p.extended_description = Some("more".to_owned());
    let text = control(&p, "libc6, x", &["One", "Two"], &["Three", ""]);
    let expected = [
        "Package: tool",
        "Version: 1.0-1",
        "Architecture: amd64",
        "Vcs-Browser: https://github.com/x/y",
        "Vcs-Git: https://github.com/x/y",
        "Homepage: https://h",
        "Section: utils",
        "Priority: optional",
        "Maintainer: A",
        "Installed-Size: 3",
        "Depends: libc6, x",
        "Pre-Depends: pre",
        "Recommends: rec",
        "Suggests: sug",
        "Enhances: enh",
        "Conflicts:  con ",
        "Breaks: bre",
        "Replaces: rep",
        "Provides: ",
        "Description: One",
        " Two",
        " Three",
        " ",
        "",
        "",
    ];
    assert_eq!(text, expected.join("\n"));
    assert!(text.starts_with("Package: tool\n"));
    assert!(text.ends_with('\n'));
}

#[test]
fn blank_dependencies_are_left_out() {
    let mut p = package();
    p.pre_depends = Some(" \n".to_owned());
    p.recommends = Some(String::new());
    p.suggests = Some("\t".to_owned());
    p.enhances = Some(" ".to_owned());
    p.documentation = Some("https://d".to_owned());
    let text = control(&p, "", &["d"], &[]);
    for label in ["Depends:", "Pre-Depends:", "Recommends:", "Suggests:", "Enhances:"] {
        assert!(!text.contains(label), "{text}");
    }
    assert!(text.contains("Homepage: https://d\n"));
}

#[test]
fn sizes_are_rounded_up_with_some_overhead() {
    let mut p = package();
    for (n, kb) in [(0, 1), (1, 2), (1024, 2), (1025, 3), (2048, 3), (2049, 4)] {
        p.assets.resolved = vec![data(n, "a", 0o644)];
        assert_eq!(p.installed_size(&vec![None]), kb, "{n}");
    }
    p.assets.resolved = vec![
        data(1, "a", 0o644),
        path("/b", "b", 0o644, IsBuilt::No),
        path("/c", "c", 0o644, IsBuilt::No),
        Asset::new(AssetSource::Symlink("/d".to_owned()), "d".to_owned(), 0o644, IsBuilt::No, false),
    ];
    assert_eq!(p.installed_size(&vec![None, Some(4096), None, Some(9999)]), 2 + 5 + 1 + 1);
}

#[test]
fn repositories_are_guessed() {
    let mut p = package();
    assert_eq!(p.repository_type(), None);
    for (repo, kind) in [
        ("git+ssh://x", Some("Git")),
        ("https://x/y.git", Some("Git")),
        ("git@x:y", Some("Git")),
        ("https://github.com/x", Some("Git")),
        ("https://gitlab.com/x", Some("Git")),
        ("cvs+x", Some("Cvs")),
        (":pserver:x", Some("Cvs")),
        ("x@cvs.y", Some("Cvs")),
        ("hg+x", Some("Hg")),
        ("hg@x", Some("Hg")),
        ("https://x/hg.y", Some("Hg")),
        ("svn+x", Some("Svn")),
        ("https://x/svn.y", Some("Svn")),
        ("svn+https://github.com/x", Some("Git")),
        ("https://example.org", None),
        ("", None),
    ] {
        p.repository = Some(repo.to_owned());
        assert_eq!(p.repository_type(), kind, "{repo}");
    }
    p.repository = Some("http://example.org".to_owned());
    let text = control(&p, "", &["d"], &[]);
    assert!(text.contains("Vcs-Browser: http://example.org\n"));
    assert!(!text.contains("Vcs-Git"));
    p.repository = Some("git@x:y".to_owned());
    let text = control(&p, "", &["d"], &[]);
    assert!(!text.contains("Vcs-Browser"));
    assert!(text.contains("Vcs-Git: git@x:y\n"));
}

#[test]
fn digests_are_listed_for_known_assets() {
    let mut p = package();
    p.assets.resolved = vec![
        data(0, "usr/b", 0o644),
        data(0, "usr/link", 0o644),
        data(0, "usr//a", 0o644),
    ];
    let mut one = [0u8; 32];
    one[0] = 0xab;
    one[31] = 0x01;
    let hashes = vec![
        ("usr/a".to_owned(), one),
        ("usr/b".to_owned(), [0xff; 32]),
        ("unused".to_owned(), [1; 32]),
    ];
    let text = String::from_utf8(p.generate_sha256sums(&hashes).unwrap()).unwrap();
    let expected = format!(
        "{}  usr/b\nab{}01  usr//a\n",
        "ff".repeat(32),
        "00".repeat(30)
    );
    assert_eq!(text, expected);
    assert_eq!(p.generate_sha256sums(&vec![]).unwrap(), Vec::<u8>::new());
}

#[test]
fn copyright_metadata_are_found_in_the_first_lines() {
    for label in ["License: ", "Source: ", "Upstream-Name: ", "Format: "] {
        assert!(has_copyright_metadata(&format!("{label}x")));
        assert!(has_copyright_metadata(&format!("{}{label}\n", "\n".repeat(9))));
        assert!(!has_copyright_metadata(&format!("{}{label}\n", "\n".repeat(10))));
        assert!(!has_copyright_metadata(&format!(" {label}")));
    }
    assert!(!has_copyright_metadata("License:\nCopyright: x"));
    assert!(!has_copyright_metadata(""));
}

fn copyright(p: &Package, license: Option<&str>) -> String {
    let license = license.map(|s| s.to_owned());
    String::from_utf8(p.copyright_file(license.as_ref()).unwrap()).unwrap()
}

#[test]
fn copyright_files_have_metadata() {
    let mut p = package();
    p.license = Some("MIT".to_owned());
    p.homepage = Some("https://h".to_owned());
    let head = "Format: https://www.debian.org/doc/packaging-manuals/copyright-format/1.0/\nUpstream-Name: tool\nSource: https://h\nCopyright: A\nLicense: MIT\n";
    assert_eq!(copyright(&p, None), head);
    assert_eq!(copyright(&p, Some("a\r\n \nb")), format!("{head}a\n .\nb\n"));
    p.repository = Some("https://r".to_owned());
    assert!(copyright(&p, None).contains("Source: https://r\n"));
    // Metadata of the license file stay alone.
    let own = "x\nLicense: y\r\n\n";
    assert_eq!(copyright(&p, Some(own)), "x\nLicense: y\n\n");
    for text in [copyright(&p, None), copyright(&p, Some("a")), copyright(&p, Some(own))] {
        assert!(has_copyright_metadata(&text));
        assert_eq!(copyright(&p, Some(&text)), text);
    }
    let mut bytes = b"x".to_vec();
    p.append_copyright_metadata(&mut bytes).unwrap();
    assert_eq!(bytes, format!("x{}", copyright(&p, None)).into_bytes());
}

#[test]
fn lines_of_a_license_are_skipped() {
    let mut p = package();
    let own = "a\nFormat: x\nb\n";
    p.license_file_skip_lines = 2;
    assert_eq!(copyright(&p, Some(own)), "b\n");
    p.license_file_skip_lines = 3;
    assert_eq!(copyright(&p, Some(own)), "");
    p.license_file_skip_lines = usize::MAX;
    assert_eq!(copyright(&p, Some(own)), "");
    assert!(!has_copyright_metadata(&copyright(&p, Some(own))));
}

#[test]
fn binaries_are_executables_and_libraries() {
    let mut p = package();
    p.assets.resolved = vec![
        path("/a", "usr/bin/a", 0o755, IsBuilt::SamePackage),
        path("/b", "usr/lib/b.so", 0o644, IsBuilt::Workspace),
        path("/c", "usr/bin/c", 0o755, IsBuilt::No),
        path("/d", "usr/share/d", 0o644, IsBuilt::SamePackage),
        Asset::new(
            AssetSource::Symlink("/e".to_owned()),
            "usr/bin/e".to_owned(),
            0o755,
            IsBuilt::No,
            false,
        ),
        data(3, "usr/bin/f", 0o755),
    ];
    let all = p.all_binaries(&linux());
    assert_eq!(all.len(), 5);
    assert_eq!(all[1].path().unwrap(), "/b");
    assert!(all[3].archive_as_symlink_only());
    assert_eq!(p.binaries_to_resolve(&linux()), list(&["/a", "/b", "/c"]));
    assert_eq!(p.built_binaries(&linux()), vec![0, 1]);
}

/// What assets are sorted by, as std orders it.
fn key(a: &Asset) -> (bool, bool, Option<String>, PathBuf) {
    let path = Path::new(&a.c.target_path);
    (
        a.c.is_executable(),
        a.c.is_dynamic_library(&linux()),
        path.extension().map(|e| e.to_str().unwrap().to_owned()),
        path.to_owned(),
    )
}

#[test]
fn assets_are_sorted_as_by_std() {
    let mut p = package();
    let mut n = 0;
    for chmod in [0o755, 0o644] {
        for target in [
            "usr/lib/b.so", "usr/lib/a.so", "etc/x.toml", "etc/x.conf", "etc/x", "etc//x", "etc/x/y",
            "./etc/x", "../etc", "etc.conf", "z", "usr/lib/a.so.1", "häß", "etc/x.", ".a", "usr-b/a",
        ] {
            for _ in 0..2 {
                n += 1;
                p.assets.resolved.push(data(n, target, chmod));
            }
        }
    }
    p.assets.resolved.reverse();
    let mut expected = p.assets.resolved.clone();
    expected.sort_by(|a, b| key(a).cmp(&key(b)));
    let shape = |l: &[Asset]| {
        l.iter()
            .map(|a| (a.c.target_path.clone(), a.c.chmod, a.source.file_size(None)))
            .collect::<Vec<_>>()
    };
    p.sort_assets_by_type(&linux());
    assert_eq!(shape(&p.assets.resolved), shape(&expected));
    p.sort_assets_by_type(&linux());
    assert_eq!(shape(&p.assets.resolved), shape(&expected));
    // Those of one kind stand together.
    let first = p.assets.resolved.iter().position(|a| a.c.is_executable()).unwrap();
    assert!(p.assets.resolved[first..].iter().all(|a| a.c.is_executable()));
}

#[test]
fn control_file_does_not_depend_on_the_order_of_assets() {
    let mut p = package();
    p.assets.resolved = vec![
        path("/c", "usr/bin/c", 0o755, IsBuilt::No),
        data(5000, "usr/b.txt", 0o644),
        path("/a", "usr/a", 0o644, IsBuilt::No),
    ];
    let size = |a: &Asset| a.source.path().map(|p| p.as_bytes()[1] as u64 * 100);
    let write = |p: &Package| {
        let on_disk = p.assets.resolved.iter().map(size).collect();
        p.generate_control("x", &on_disk, &list(&["d"]), &vec![]).unwrap()
    };
    let before = write(&p);
    p.sort_assets_by_type(&linux());
    assert_eq!(p.assets.resolved[0].c.target_path, "usr/a");
    assert_eq!(write(&p), before);
    // Nor on what it does not name, nor on white space around relations.
    p.name = "other".to_owned();
    p.depends = "other".to_owned();
    p.license = Some("MIT".to_owned());
    p.copyright = "B".to_owned();
    p.changelog = Some("log".to_owned());
    p.conf_files = Some("/x\n".to_owned());
    p.recommends = Some(" \t".to_owned());
    assert_eq!(write(&p), before);
    assert!(String::from_utf8(before).unwrap().contains("Installed-Size: 28\n"));
}

#[test]
fn descriptions_have_a_width() {
    assert_eq!(DESCRIPTION_WIDTH, 79);
}
