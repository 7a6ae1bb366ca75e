use deb_assets::asset::{
    debug_filename, is_dynamic_library_filename, Asset, AssetData, AssetSource, Assets, DiskStatus,
    IsBuilt, Platform, UnresolvedAsset,
};
use deb_assets::error::CargoDebError;
use std::path::Path;

fn linux() -> Platform {
    Platform {
        dll_prefix: "lib".to_owned(),
        dll_suffix: ".so".to_owned(),
        exe_suffix: String::new(),
    }
}

fn file(path: &str, target: &str, chmod: u32) -> Asset {
    Asset::new(AssetSource::Path(path.to_owned()), target.to_owned(), chmod, IsBuilt::No, false)
}

#[test]
fn assets() {
    let a = Asset::new(
        AssetSource::Path("target/release/bar".to_owned()),
        "baz/".to_owned(),
        0o644,
        IsBuilt::SamePackage,
        false,
    );
    assert_eq!("baz/bar", a.c.target_path);
    assert!(a.c.is_built != IsBuilt::No);

    let a = Asset::new(
        AssetSource::Path("foo/bar".to_owned()),
        "/baz/quz".to_owned(),
        0o644,
        IsBuilt::No,
        false,
    );
    assert_eq!("baz/quz", a.c.target_path);
    assert!(a.c.is_built == IsBuilt::No);
}

/// Tests that getting the debug filename from a path returns the same path
/// with ".debug" appended
#[test]
fn test_debug_filename() {
    let path = "/my/test/file";
    assert_eq!(Path::new(&debug_filename(path)), Path::new("/my/test/file.debug"));
}

/// Tests that getting the debug target for an Asset that `is_built` returns
/// the path "/usr/lib/debug/<path-to-target>.debug"
#[test]
fn test_debug_target_ok() {
    let a = Asset::new(
        AssetSource::Path("target/release/bar".to_owned()),
        "/usr/bin/baz/".to_owned(),
        0o644,
        IsBuilt::SamePackage,
        false,
    );
    let debug_target = a.c.default_debug_target_path();
    assert_eq!(Path::new(&debug_target), Path::new("/usr/lib/debug/usr/bin/baz/bar.debug"));
    assert_eq!(debug_target, "/usr/lib/debug/usr/bin/baz/bar.debug");
}

/// Tests that getting the debug target for an Asset that `is_built` and that
/// has a relative path target returns the path "/usr/lib/debug/<path-to-target>.debug"
#[test]
fn test_debug_target_ok_relative() {
    let a = Asset::new(
        AssetSource::Path("target/release/bar".to_owned()),
        "baz/".to_owned(),
        0o644,
        IsBuilt::Workspace,
        false,
    );
    let debug_target = a.c.default_debug_target_path();
    assert_eq!(Path::new(&debug_target), Path::new("/usr/lib/debug/baz/bar.debug"));
    assert_eq!(debug_target, "/usr/lib/debug/baz/bar.debug");
}

#[test]
fn debug_target_of_an_absolute_path() {
    let mut a = file("bar", "bin/bar", 0o755);
    a.c.target_path = "/bin/bar".to_owned();
    assert_eq!(a.c.default_debug_target_path(), "/usr/lib/debug/bin/bar.debug");
}

#[test]
fn targets_are_relative_files() {
    for target in ["/", "a/", "/a/", "//a//", "a", "/a", "/a/b/../c", "", "/a//b/"] {
        let a = file("src/x.txt", target, 0o644);
        assert!(!a.c.target_path.starts_with('/'), "{}", a.c.target_path);
        assert!(!a.c.target_path.ends_with('/'), "{}", a.c.target_path);
    }
    assert_eq!(file("src/x.txt", "/", 0o644).c.target_path, "x.txt");
    assert_eq!(file("src/x.txt", "//a//", 0o644).c.target_path, "a//x.txt");
    assert_eq!(file("src/x.txt", "a//b/", 0o644).c.target_path, "a//b/x.txt");
}

#[test]
fn an_asset_keeps_its_parts() {
    let a = Asset::new(
        AssetSource::Data(vec![1, 2, 3]),
        "etc/data".to_owned(),
        0o600,
        IsBuilt::Workspace,
        true,
    );
    assert!(matches!(&a.source, AssetSource::Data(d) if d == &vec![1, 2, 3]));
    assert!(a.processed_from.is_none());
    assert_eq!(a.c.chmod, 0o600);
    assert_eq!(a.c.is_built, IsBuilt::Workspace);
    assert!(a.c.is_example);
    assert!(a.c.is_built());

    let a = a.processed("stripped", Some("/tmp/data".to_owned()));
    let p = a.processed_from.unwrap();
    assert_eq!(p.action, "stripped");
    assert_eq!(p.original_path.as_deref(), Some("/tmp/data"));
    assert_eq!(a.c.target_path, "etc/data");
}

#[test]
fn symlinks_are_kept_only_if_they_are_on_disk() {
    let at = |preserve, exists, is_symlink| {
        AssetSource::from_path("p".to_owned(), preserve, DiskStatus { exists, is_symlink })
    };
    assert!(matches!(at(true, true, true), AssetSource::Symlink(p) if p == "p"));
    assert!(matches!(at(true, false, true), AssetSource::Symlink(_)));
    assert!(matches!(at(false, false, true), AssetSource::Symlink(_)));
    assert!(matches!(at(false, true, true), AssetSource::Path(p) if p == "p"));
    assert!(matches!(at(true, true, false), AssetSource::Path(_)));
    assert!(matches!(at(false, false, false), AssetSource::Path(_)));
}

#[test]
fn sources_tell_their_paths_and_sizes() {
    let path = AssetSource::Path("a/b".to_owned());
    let link = AssetSource::Symlink("a/l".to_owned());
    let data = AssetSource::Data(vec![0; 5]);
    assert_eq!(path.path().map(|p| p.as_str()), Some("a/b"));
    assert_eq!(link.path().map(|p| p.as_str()), Some("a/l"));
    assert_eq!(data.path(), None);
    assert!(!path.archive_as_symlink_only());
    assert!(link.archive_as_symlink_only());
    assert!(!data.archive_as_symlink_only());
    assert_eq!(path.file_size(Some(7)), Some(7));
    assert_eq!(path.file_size(None), None);
    assert_eq!(link.file_size(Some(7)), None);
    assert_eq!(data.file_size(None), Some(5));
    assert_eq!(path.into_path().as_deref(), Some("a/b"));
    assert_eq!(link.into_path().as_deref(), Some("a/l"));
    assert_eq!(data.into_path(), None);
}

#[test]
fn sources_tell_their_data() {
    let path = AssetSource::Path("a/b".to_owned());
    assert!(matches!(path.data(), Ok(AssetData::File(p)) if p == "a/b"));
    assert_eq!(path.data().unwrap().bytes(Some(Ok(vec![9]))).unwrap(), vec![9]);
    let e = path.data().unwrap().bytes(Some(Err("no such file".to_owned()))).unwrap_err();
    assert!(matches!(
        e,
        CargoDebError::IoFile("unable to read asset to add to archive", e, p)
            if e == "no such file" && p == "a/b"
    ));

    let data = AssetSource::Data(vec![4, 2]);
    assert!(matches!(data.data(), Ok(AssetData::Inline(d)) if d == &vec![4, 2]));
    assert_eq!(data.data().unwrap().bytes(None).unwrap(), vec![4, 2]);

    let link = AssetSource::Symlink("a/l".to_owned());
    assert!(matches!(
        link.data(),
        Err(CargoDebError::Str("Symlink unexpectedly used to read file data"))
    ));
}

#[test]
fn executables_and_libraries() {
    for (chmod, executable) in [
        (0o644, false),
        (0o755, true),
        (0o100, true),
        (0o010, true),
        (0o001, true),
        (0o666, false),
        (0o4000, false),
    ] {
        assert_eq!(file("x", "usr/x", chmod).c.is_executable(), executable);
    }
    let p = linux();
    assert!(file("x", "usr/lib/libx.so", 0o644).c.is_dynamic_library(&p));
    assert!(!file("x", "usr/lib/libx.so.1", 0o644).c.is_dynamic_library(&p));
    assert!(is_dynamic_library_filename(".so", &p));
    assert!(is_dynamic_library_filename("a/b.so/", &p));
    assert!(!is_dynamic_library_filename("a.so/b", &p));
    assert!(!is_dynamic_library_filename("a.so/..", &p));
    assert!(!is_dynamic_library_filename("", &p));
}

#[test]
fn lists_of_assets() {
    assert!(Assets::new().is_empty());
    let a = Assets::with_resolved_assets(vec![file("x", "usr/x", 0o644)]);
    assert!(!a.is_empty());
    assert_eq!((a.resolved.len(), a.unresolved.len()), (1, 0));
    let u = UnresolvedAsset { source_path: "x".to_owned(), c: file("x", "usr/x", 0o644).c };
    let a = Assets::with_unresolved_assets(vec![u]);
    assert!(!a.is_empty());
    assert_eq!((a.resolved.len(), a.unresolved.len()), (0, 1));
}
