use deb_assets::error::CargoDebError;
use deb_assets::manifest::{
    choose_debug_symbols, debian_package_name, extended_description_file, format_conffiles,
    manifest_check_config, manifest_extended_description, readme_candidates, take_variant, version_revision, CargoDeb,
    DebugSymbols, ManifestPackage, Notice, Options, SystemdUnitsConfig,
};

fn list(l: &[&str]) -> Vec<String> {
    l.iter().map(|s| s.to_string()).collect()
}

#[test]
fn format_conffiles_empty() {
    let actual = format_conffiles(&list(&[]));
    assert_eq!("", actual);
}

#[test]
fn format_conffiles_one() {
    let actual = format_conffiles(&list(&["/etc/my-pkg/conf.toml"]));
    assert_eq!("/etc/my-pkg/conf.toml\n", actual);
}

#[test]
fn format_conffiles_multiple() {
    let actual = format_conffiles(&list(&["/etc/my-pkg/conf.toml", "etc/my-pkg/conf2.toml"]));

    assert_eq!("/etc/my-pkg/conf.toml\n/etc/my-pkg/conf2.toml\n", actual);
}

#[test]
fn conffiles_of_two_lists() {
    let (a, b) = (list(&["etc/a", "/etc/b"]), list(&["", "etc/c"]));
    let both: Vec<String> = a.iter().chain(b.iter()).cloned().collect();
    assert_eq!(format_conffiles(&both), format_conffiles(&a) + &format_conffiles(&b));
    assert_eq!(format_conffiles(&both), "/etc/a\n/etc/b\n/\n/etc/c\n");
    assert!(format_conffiles(&both).lines().all(|l| l.starts_with('/')));
    // A carriage return is part of a path.
    let odd = format_conffiles(&list(&["etc/a\r", "\r", "etc/b"]));
    assert_eq!(odd.split('\n').collect::<Vec<_>>(), vec!["/etc/a\r", "/\r", "/etc/b", ""]);
    assert_eq!(odd.lines().collect::<Vec<_>>(), vec!["/etc/a", "/", "/etc/b"]);
}

#[test]
fn package_names_hold_no_underscore() {
    assert_eq!(debian_package_name("my_Crate-2"), "my-crate-2");
    assert_eq!(debian_package_name("__"), "--");
    assert_eq!(debian_package_name(""), "");
    assert_eq!(debian_package_name(&debian_package_name("A_B")), "a-b");
    // Each byte becomes a character.
    assert_eq!(debian_package_name("É_"), "\u{c3}\u{89}-");
}

#[test]
fn systemd_options_follow_their_defaults() {
    let o = Options::from(&SystemdUnitsConfig::default());
    assert_eq!(
        o,
        Options {
            no_enable: false,
            no_start: false,
            restart_after_upgrade: true,
            no_stop_on_upgrade: false,
        }
    );
    let config = SystemdUnitsConfig {
        enable: Some(false),
        start: Some(true),
        restart_after_upgrade: Some(false),
        stop_on_upgrade: Some(false),
        ..SystemdUnitsConfig::default()
    };
    assert_eq!(
        Options::from(&config),
        Options {
            no_enable: true,
            no_start: false,
            restart_after_upgrade: false,
            no_stop_on_upgrade: true,
        }
    );
}

fn notices(package: &ManifestPackage, deb: &CargoDeb, existing: &[&str]) -> Vec<String> {
    let mut l: Vec<Notice> = vec![];
    manifest_check_config(package, deb, &list(existing), &mut l);
    l.into_iter()
        .map(|n| match n {
            Notice::Warning(m) => format!("warning: {m}"),
            Notice::Info(m) => format!("info: {m}"),
            Notice::Log(m) => format!("log: {m}"),
        })
        .collect()
}

#[test]
fn manifests_are_checked() {
    let mut package = ManifestPackage::default();
    let mut deb = CargoDeb::default();
    assert_eq!(
        notices(&package, &deb, &["README", "README.txt", "x"]),
        vec![
            "warning: description field is missing in Cargo.toml",
            "warning: license field is missing in Cargo.toml",
            "warning: README.txt file exists, but is not specified in `readme` Cargo.toml field",
        ]
    );
    package.description = Some("d".to_owned());
    package.has_license_file = true;
    assert_eq!(notices(&package, &deb, &[]), Vec::<String>::new());
    package.has_license_file = false;
    package.license = Some("MIT".to_owned());
    package.readme = Some("docs/READ.markdown".to_owned());
    let markdown = vec![
        "info: extended-description field missing. Using docs/READ.markdown, but markdown may not render well.",
    ];
    assert_eq!(notices(&package, &deb, &["README.md"]), markdown);
    deb.extended_description_file = Some("x".to_owned());
    assert_eq!(notices(&package, &deb, &[]), Vec::<String>::new());
    deb.extended_description_file = None;
    package.readme = Some("README.txt".to_owned());
    assert_eq!(notices(&package, &deb, &[]), Vec::<String>::new());
}

#[test]
fn extended_descriptions() {
    let mut deb = CargoDeb::default();
    let readme = Some("README.md".to_owned());
    assert_eq!(extended_description_file(&deb, &None, "/p"), None);
    assert_eq!(extended_description_file(&deb, &readme, "/p").as_deref(), Some("/p/README.md"));
    deb.extended_description_file = Some("desc.txt".to_owned());
    assert_eq!(extended_description_file(&deb, &readme, "/p").as_deref(), Some("desc.txt"));
    deb.extended_description = Some("long".to_owned());
    assert_eq!(extended_description_file(&deb, &readme, "/p"), None);

    let given = manifest_extended_description(Some("long".to_owned()), None, None);
    assert_eq!(given.unwrap().as_deref(), Some("long"));
    let path = Some("f".to_owned());
    let read = manifest_extended_description(None, path.clone(), Some(Ok("text".to_owned())));
    assert_eq!(read.unwrap().as_deref(), Some("text"));
    let failed = manifest_extended_description(None, path, Some(Err("denied".to_owned())));
    assert!(matches!(
        failed,
        Err(CargoDebError::IoFile("unable to read extended description from file", e, p))
            if e == "denied" && p == "f"
    ));
    assert_eq!(manifest_extended_description(None, None, None).unwrap(), None);
}

#[test]
fn revisions() {
    let mut deb = CargoDeb::default();
    assert_eq!(version_revision(None, &deb), None);
    deb.revision = Some("2".to_owned());
    assert_eq!(version_revision(None, &deb).as_deref(), Some("2"));
    assert_eq!(version_revision(Some("3".to_owned()), &deb).as_deref(), Some("3"));
}

#[test]
fn variants_are_found_by_name() {
    let named = |n: &str| CargoDeb { name: Some(n.to_owned()), ..CargoDeb::default() };
    let variants = || Some(vec![("a".to_owned(), named("x")), ("b".to_owned(), named("y"))]);
    assert_eq!(take_variant(variants(), "b").unwrap().name.as_deref(), Some("y"));
    assert!(matches!(
        take_variant(variants(), "c"),
        Err(CargoDebError::VariantNotFound(v)) if v == "c"
    ));
    assert!(matches!(
        take_variant(None, "a"),
        Err(CargoDebError::VariantNotFound(v)) if v == "a"
    ));
}

#[test]
fn debug_symbols_are_kept_stripped_or_separated() {
    let mut deb = CargoDeb::default();
    let s = |deb: &CargoDeb, separate, compress, enabled| {
        choose_debug_symbols(separate, compress, deb, enabled, &mut vec![])
    };
    assert_eq!(s(&deb, None, None, true), DebugSymbols::Keep);
    assert_eq!(s(&deb, None, None, false), DebugSymbols::Strip);
    assert_eq!(s(&deb, None, Some(true), true), DebugSymbols::Keep);
    assert_eq!(s(&deb, Some(true), None, false), DebugSymbols::Separate { compress: false });
    assert_eq!(s(&deb, Some(true), Some(true), true), DebugSymbols::Separate { compress: true });
    deb.separate_debug_symbols = Some(true);
    deb.compress_debug_symbols = Some(true);
    assert_eq!(s(&deb, None, None, true), DebugSymbols::Separate { compress: true });
    assert_eq!(s(&deb, None, Some(false), true), DebugSymbols::Separate { compress: false });
    assert_eq!(s(&deb, Some(false), None, false), DebugSymbols::Strip);
}

#[test]
fn debug_symbol_settings_without_effect_are_logged() {
    let deb = CargoDeb::default();
    let separate = "separate-debug-symbols implies strip";
    let compress = "separate-debug-symbols required to compress";
    for (s, c, enabled, expected) in [
        (true, false, false, Some(separate)),
        (true, true, false, Some(separate)),
        (true, true, true, None),
        (false, true, true, Some(compress)),
        (false, true, false, None),
        (false, false, true, None),
    ] {
        let mut l: Vec<Notice> = vec![];
        choose_debug_symbols(Some(s), Some(c), &deb, enabled, &mut l);
        match expected {
            Some(m) => assert!(matches!(&l[..], [Notice::Log(x)] if x == m)),
            None => assert!(l.is_empty()),
        }
    }
}

#[test]
fn readmes_are_looked_for_in_this_order() {
    assert_eq!(
        readme_candidates(),
        list(&["README.md", "README.markdown", "README.txt", "README"])
    );
}
