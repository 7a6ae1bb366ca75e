use deb_assets::path::{
    components_of, extension, file_name, is_absolute, join, pop, same_path, starts_with_path,
    strip_prefix, strip_root,
};
use std::path::{Path, PathBuf};

/// All paths of up to six characters out of a slash, a dot and a letter, and some longer ones.
fn paths() -> Vec<String> {
    let mut all = vec![String::new()];
    let mut last = all.clone();
    for _ in 0..6 {
        let mut next = Vec::new();
        for p in &last {
            for c in ['/', '.', 'a'] {
                next.push(format!("{p}{c}"));
            }
        }
        all.extend(next.iter().cloned());
        last = next;
    }
    for p in [
        "usr/share/doc",
        "/usr//lib/./x.tar.gz",
        "target/release/examples/foo",
        "häß/lich.öt",
        ".hidden",
        "a/.b.c",
        "../up/./and/../down/",
    ] {
        all.push(p.to_owned());
    }
    all
}

fn few() -> Vec<String> {
    paths().into_iter().filter(|p| p.len() <= 3 || p.len() > 6).collect()
}

fn text(p: &Path) -> String {
    p.to_str().unwrap().to_owned()
}

#[test]
fn components_are_those_of_std() {
    for p in paths() {
        let expected: Vec<String> =
            Path::new(&p).iter().map(|c| c.to_str().unwrap().to_owned()).collect();
        assert_eq!(components_of(&p), expected, "{p}");
        assert_eq!(is_absolute(&p), Path::new(&p).is_absolute(), "{p}");
    }
}

#[test]
fn names_are_those_of_std() {
    for p in paths() {
        let path = Path::new(&p);
        assert_eq!(file_name(&p).as_deref(), path.file_name().map(|n| n.to_str().unwrap()), "{p}");
        assert_eq!(extension(&p).as_deref(), path.extension().map(|n| n.to_str().unwrap()), "{p}");
    }
}

#[test]
fn popping_is_that_of_std() {
    for p in paths() {
        let mut b = PathBuf::from(&p);
        b.pop();
        assert_eq!(pop(&p), text(&b), "{p}");
    }
}

#[test]
fn roots_are_stripped_as_by_std() {
    for p in paths() {
        let expected = Path::new(&p).strip_prefix("/").map(text).unwrap_or_else(|_| p.clone());
        assert_eq!(strip_root(&p), expected, "{p}");
    }
}

#[test]
fn pairs_of_paths_are_treated_as_by_std() {
    let list = few();
    for a in &list {
        for b in &list {
            let (x, y) = (Path::new(a), Path::new(b));
            assert_eq!(join(a, b), text(&x.join(y)), "{a} {b}");
            assert_eq!(starts_with_path(a, b), x.starts_with(y), "{a} {b}");
            assert_eq!(same_path(a, b), x == y, "{a} {b}");
            assert_eq!(strip_prefix(a, b), x.strip_prefix(y).ok().map(text), "{a} {b}");
        }
    }
}

#[test]
fn long_prefixes_are_stripped_as_by_std() {
    for a in paths() {
        for b in ["/", "a", "./a", "/a", "a/a", "..", "."] {
            let expected = Path::new(&a).strip_prefix(b).ok().map(text);
            assert_eq!(strip_prefix(&a, b), expected, "{a} {b}");
        }
    }
}

#[test]
fn what_was_joined_is_stripped_off_again() {
    for base in few() {
        for rel in ["a", "a/b", "x.tar.gz", "a//b", "../x", "a/./b"] {
            assert_eq!(strip_prefix(&join(&base, rel), &base).as_deref(), Some(rel), "{base}");
            let mut expected = components_of(&base);
            expected.extend(components_of(rel));
            assert_eq!(components_of(&join(&base, rel)), expected, "{base}");
        }
    }
    // A dot at the beginning is lost behind a directory.
    assert_eq!(components_of("./a"), vec![".", "a"]);
    assert_eq!(components_of(&join("b", "./a")), vec!["b", "a"]);
}
