use deb_assets::asset::{Asset, AssetSource, IsBuilt, Platform};
use deb_assets::config::{Config, ManifestExtras, ManifestFound};
use deb_assets::dependency::ArchSpec::{NegRequire, Require};
use deb_assets::dependency::{
    architecture_query, get_architecture_specification, match_architecture, ArchSpec, BinaryAnswer,
    DependencyAnswer, DependencyRequest,
};
use deb_assets::error::{CDResult, CargoDebError};
use deb_assets::manifest::{CargoDeb, CargoMetadataTarget, ManifestPackage, Notice};

fn linux() -> Platform {
    Platform {
        dll_prefix: "lib".to_owned(),
        dll_suffix: ".so".to_owned(),
        exe_suffix: String::new(),
    }
}

fn list(l: &[&str]) -> Vec<String> {
    l.iter().map(|s| s.to_string()).collect()
}

fn config(depends: &str) -> Config {
    let found = ManifestFound {
        targets: vec![CargoMetadataTarget {
            name: "tool".to_owned(),
            kind: list(&["bin"]),
            crate_types: list(&["bin"]),
            src_path: "/w/src/main.rs".to_owned(),
        }],
        manifest_path: "/w/Cargo.toml".to_owned(),
        target_dir: "/w/target".to_owned(),
        package: Some(ManifestPackage {
            name: "tool".to_owned(),
            authors: list(&["A"]),
            ..ManifestPackage::default()
        }),
        debug_flag: false,
        root_debug_flag: None,
        default_timestamp: 0,
    };
    let extras = ManifestExtras {
        version: "1".to_owned(),
        architecture: "amd64".to_owned(),
        license: Ok((None, 0)),
        description_text: None,
        existing_files: vec![],
    };
    let deb = CargoDeb { depends: Some(depends.to_owned()), ..CargoDeb::default() };
    let mut listener = vec![];
    Config::from_manifest(
        found, deb, extras, None, None, None, None, &mut listener, "release", None, None, &linux(),
    )
    .unwrap()
}

fn spec(s: &str) -> (String, Option<ArchSpec>) {
    get_architecture_specification(s).unwrap()
}

#[test]
fn arch_spec() {
    // req
    assert_eq!(
        get_architecture_specification("libjpeg64-turbo [armhf]").expect("arch"),
        ("libjpeg64-turbo".to_owned(), Some(Require("armhf".to_owned()))));
    // neg
    assert_eq!(
        get_architecture_specification("libjpeg64-turbo [!amd64]").expect("arch"),
        ("libjpeg64-turbo".to_owned(), Some(NegRequire("amd64".to_owned()))));
}

#[test]
fn dependencies_without_architecture() {
    for s in ["", "libc6", "libc6 (>= 2.0)", "a [b", "a] [b", "[", "]", " a ", "a [\n]"] {
        assert_eq!(spec(s), (s.to_owned(), None), "{s:?}");
    }
}

#[test]
fn brackets_that_count() {
    let some = |d: &str, a: ArchSpec| (d.to_owned(), Some(a));
    assert_eq!(spec("a[b]"), some("a", Require("b".to_owned())));
    assert_eq!(spec("[]"), some("", Require(String::new())));
    assert_eq!(spec("a [!]"), some("a", NegRequire(String::new())));
    assert_eq!(spec("a [!!b]"), some("a", NegRequire("!b".to_owned())));
    assert_eq!(spec("a [ !b]"), some("a", Require(" !b".to_owned())));
    // The last opening bracket that has a closing one behind it, and the last closing one.
    assert_eq!(spec("a [b] [c] x"), some("a [b]", Require("c".to_owned())));
    assert_eq!(spec("a [b]]"), some("a", Require("b]".to_owned())));
    assert_eq!(spec("a [[b]"), some("a [", Require("b".to_owned())));
    assert_eq!(spec("a [b] ["), some("a", Require("b".to_owned())));
    // The first line that has them.
    assert_eq!(spec("x\ny [b]\nz [c]"), some("y", Require("b".to_owned())));
    assert_eq!(spec("x [\n] y [b]"), some("] y", Require("b".to_owned())));
    assert_eq!(spec("\u{2003}ä \t[ö]"), some("ä", Require("ö".to_owned())));
}

#[test]
fn architecture_specifications_are_read_back() {
    for dep in ["libc6", "lib (>= 1.2)", "ä"] {
        for arch in ["amd64", "linux-any", "any-i386 hurd-any"] {
            assert_eq!(
                spec(&format!("{dep} [{arch}]")),
                (dep.to_owned(), Some(Require(arch.to_owned())))
            );
            assert_eq!(
                spec(&format!("{dep} [!{arch}]")),
                (dep.to_owned(), Some(NegRequire(arch.to_owned())))
            );
            assert_eq!(
                spec(&format!(" {dep}[{arch}]")),
                (dep.to_owned(), Some(Require(arch.to_owned())))
            );
            assert_eq!(
                spec(&format!("{dep}\t [!{arch}]")),
                (dep.to_owned(), Some(NegRequire(arch.to_owned())))
            );
        }
    }
}

#[test]
fn architectures_are_asked_for_and_matched() {
    let yes = Require("armhf".to_owned());
    let no = NegRequire("armhf".to_owned());
    for s in [&yes, &no] {
        assert_eq!(architecture_query(s, "amd64"), list(&["-a", "amd64", "-i", "armhf"]));
        assert!(matches!(
            match_architecture(s, &Err("not found".to_owned())),
            Err(CargoDebError::CommandFailed(e, "dpkg-architecture")) if e == "not found"
        ));
    }
    for found in [true, false] {
        assert_eq!(match_architecture(&yes, &Ok(found)).unwrap(), found);
        assert_eq!(match_architecture(&no, &Ok(found)).unwrap(), !found);
    }
}

fn answer(c: &Config, answers: Vec<DependencyAnswer>) -> (CDResult<String>, Vec<String>) {
    let mut listener = vec![];
    let r = c.get_dependencies(&answers, &linux(), &mut listener);
    let said = listener
        .into_iter()
        .map(|n| match n {
            Notice::Warning(m) => m,
            Notice::Info(m) | Notice::Log(m) => panic!("{m}"),
        })
        .collect();
    (r, said)
}

#[test]
fn requests_for_the_entries_of_a_list() {
    let c = config(" $auto, libc6 ,foo [armhf], bar[!amd64],$auto [x],");
    let r = c.dependency_requests();
    assert_eq!(r.len(), 6);
    assert!(matches!(&r[0], DependencyRequest::Auto));
    assert!(matches!(&r[1], DependencyRequest::Plain(d) if d == "libc6"));
    assert!(matches!(
        &r[2],
        DependencyRequest::Conditional(d, Require(a)) if d == "foo" && a == "armhf"
    ));
    assert!(matches!(
        &r[3],
        DependencyRequest::Conditional(d, NegRequire(a)) if d == "bar" && a == "amd64"
    ));
    assert!(matches!(&r[4], DependencyRequest::Conditional(d, _) if d == "$auto"));
    assert!(matches!(&r[5], DependencyRequest::Plain(d) if d.is_empty()));
}

#[test]
fn dependencies_are_put_together_once_each() {
    let mut c = config("b, $auto, foo [armhf], bar [!armhf], b");
    c.deb.assets.resolved.push(Asset::new(
        AssetSource::Symlink("/l".to_owned()),
        "usr/bin/l".to_owned(),
        0o755,
        IsBuilt::No,
        false,
    ));
    c.deb.assets.resolved.push(Asset::new(
        AssetSource::Path("/x.so".to_owned()),
        "usr/lib/x.so".to_owned(),
        0o644,
        IsBuilt::No,
        false,
    ));
    assert_eq!(c.deb.binaries_to_resolve(&linux()), list(&["/w/target/release/tool", "/x.so"]));
    let answers = |found: bool| {
        vec![
            DependencyAnswer::Nothing,
            DependencyAnswer::Binaries(vec![
                BinaryAnswer::Packages(list(&["libc6", "b", "libgcc"])),
                BinaryAnswer::Packages(list(&["libc6", "libx"])),
            ]),
            DependencyAnswer::Command(Ok(found)),
            DependencyAnswer::Command(Ok(found)),
            DependencyAnswer::Nothing,
        ]
    };
    let (r, said) = answer(&c, answers(true));
    assert_eq!(r.unwrap(), "b, libc6, libgcc, libx, foo");
    assert_eq!(said, Vec::<String>::new());
    assert_eq!(answer(&c, answers(false)).0.unwrap(), "b, libc6, libgcc, libx, bar");
}

#[test]
fn binaries_without_known_dependencies_are_reported() {
    let c = config("$auto, x");
    let (r, said) = answer(
        &c,
        vec![
            DependencyAnswer::Binaries(vec![BinaryAnswer::Failed("bad file".to_owned())]),
            DependencyAnswer::Nothing,
        ],
    );
    assert_eq!(r.unwrap(), "x");
    assert_eq!(said, list(&["bad file (no auto deps for /w/target/release/tool)"]));
}

#[test]
fn commands_that_fail_end_it() {
    let c = config("a, b [x], $auto");
    let (r, said) = answer(
        &c,
        vec![
            DependencyAnswer::Nothing,
            DependencyAnswer::Command(Err("no dpkg".to_owned())),
            DependencyAnswer::Binaries(vec![BinaryAnswer::Failed("unheard".to_owned())]),
        ],
    );
    assert!(matches!(
        r,
        Err(CargoDebError::CommandFailed(e, "dpkg-architecture")) if e == "no dpkg"
    ));
    assert_eq!(said, Vec::<String>::new());
    // Nothing has to be found out behind it, and what was said before stays said.
    let c = config("$auto, b [x], $auto, y");
    let (r, said) = answer(
        &c,
        vec![
            DependencyAnswer::Binaries(vec![BinaryAnswer::Failed("heard".to_owned())]),
            DependencyAnswer::Command(Err("no dpkg".to_owned())),
        ],
    );
    assert!(matches!(r, Err(CargoDebError::CommandFailed(_, "dpkg-architecture"))));
    assert_eq!(said, list(&["heard (no auto deps for /w/target/release/tool)"]));
}

#[test]
fn an_empty_list_is_one_empty_dependency() {
    let c = config("");
    assert_eq!(answer(&c, vec![DependencyAnswer::Nothing]).0.unwrap(), "");
}
