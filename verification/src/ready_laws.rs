//! When something can be done, and how modes are read, told from what is given.

use vstd::prelude::*;
use crate::asset::{
    asset_views, size_of_source, Asset, AssetSource, Platform, SourceView, UnresolvedAsset,
};
use crate::asset_laws::output_dir;
use crate::config::{assets_ready, Config, ManifestExtras, ManifestFound};
use crate::config_laws::{description_unread, places_of};
use crate::error::ParseOctalError;
use crate::flag_laws::{asks_for_program, has_built_pattern, lemma_built_pattern};
use crate::flags::build_items;
use crate::layout::{entry_views, BuildLayout, LayoutView};
use crate::manifest::{CargoDeb, TargetView};
use crate::octal::{octal_digit, parse_octal, read_digits, read_octal};
use crate::package::{installed_size, Package};
use crate::path::{name_of, path_join, path_strip_prefix};
use crate::ready::file_can_resolve;
use crate::resolve::{pattern_base, SourceFile};
use crate::resolve_laws::{holds_wildcard, lemma_wildcard};
use crate::text::texts;

verus! {

/// The path ends in a slash.
pub open spec fn ends_in_slash(p: Seq<char>) -> bool {
    p.len() > 0 && p[p.len() - 1] == '/'
}

/// A source can go to any target but a directory, and to a directory if it has a file name.
pub proof fn law_can_be_placed(source: &AssetSource, target: &str, r: bool)
    requires
        call_ensures(AssetSource::can_be_placed, (source, target), r),
    ensures
        r <==> (ends_in_slash(target@) ==> match *source {
            AssetSource::Path(p) => name_of(p@) is Some,
            AssetSource::Symlink(p) => name_of(p@) is Some,
            AssetSource::Data(_) => false,
        }),
{
}

/// A file can stand for an entry if it is below the directory that the pattern starts from, where
/// the entry is one, and if it has a name, where its target is a directory.
pub proof fn law_file_can_resolve(u: &UnresolvedAsset, file: &SourceFile, keep: bool, r: bool)
    requires
        call_ensures(file_can_resolve, (u, file, keep), r),
    ensures
        !holds_wildcard(u.source_path@) ==> (r <==> (ends_in_slash(u.c.target_path@) ==> name_of(
            file.path@,
        ) is Some)),
        holds_wildcard(u.source_path@) ==> match path_strip_prefix(
            file.path@,
            pattern_base(u.source_path@),
        ) {
            Some(rel) => r <==> (ends_in_slash(path_join(u.c.target_path@, rel)) ==> name_of(
                file.path@,
            ) is Some),
            None => !r,
        },
{
    lemma_wildcard(u.source_path@);
}

/// The source of an entry is not one of the build, or has a file name there.
pub open spec fn names_built_file(view: LayoutView, source: Seq<char>) -> bool {
    match path_strip_prefix(source, "target/release"@) {
        Some(rel) => name_of(rel) is Some,
        None => match path_strip_prefix(source, "target/"@ + view.profile) {
            Some(rel) => name_of(rel) is Some,
            None => true,
        },
    }
}

/// The target can be packaged: what it is built into has a file name, where it goes into a
/// directory.
pub open spec fn names_file(view: LayoutView, t: TargetView) -> bool {
    let runs = t.crate_types.contains("bin"@) && t.kind.contains("bin"@);
    let links = t.crate_types.contains("cdylib"@) && t.kind.contains("cdylib"@);
    let library = view.dll_prefix + t.name + view.dll_suffix;
    &&& runs && ends_in_slash(path_join("usr/bin"@, t.name)) ==> name_of(
        path_join(output_dir(view), t.name),
    ) is Some
    &&& !runs && links && ends_in_slash(path_join("usr/lib"@, library)) ==> name_of(
        path_join(output_dir(view), library),
    ) is Some
}

/// All names that are needed are given: of each entry that is come to, or of each target.
pub open spec fn all_named(view: LayoutView, assets: Option<Vec<Vec<String>>>) -> bool {
    match assets {
        Some(list) => forall|i: int|
            0 <= i < list@.len() && view.read_assets(
                #[trigger] entry_views(list@).take(i),
            ) is Ok && list@[i]@.len() > 0 ==> names_built_file(view, list@[i]@[0]@),
        None => forall|i: int|
            0 <= i < view.targets.len() ==> names_file(view, #[trigger] view.targets[i]),
    }
}

/// The names that the assets of a manifest need are given, or not.
pub proof fn law_names_are_given(
    layout: BuildLayout<'_>,
    assets: &Option<Vec<Vec<String>>>,
    r: bool,
)
    requires
        call_ensures(BuildLayout::names_are_given, (&layout, assets), r),
    ensures
        r <==> all_named(layout@, *assets),
{
    lemma_all_named(layout@, *assets);
}

/// Two ways to say that all names are given.
proof fn lemma_all_named(view: LayoutView, assets: Option<Vec<Vec<String>>>)
    ensures
        all_named(view, assets) == assets_ready(view, assets),
{
    match assets {
        Some(list) => {
            let given = entry_views(list@);
            assert(given.len() == list@.len());
            if all_named(view, assets) {
                assert forall|i: int|
                    0 <= i < given.len() && view.read_assets(#[trigger] given.take(i)) is Ok
                        && given[i].len() > 0 implies view.has_file_name(given[i][0]) by {
                    assert(names_built_file(view, list@[i]@[0]@));
                    assert(given[i] == texts(list@[i]@));
                    assert(given[i][0] == list@[i]@[0]@);
                }
            }
            if view.have_file_names(given) {
                assert forall|i: int|
                    0 <= i < list@.len() && view.read_assets(#[trigger] given.take(i)) is Ok
                        && list@[i]@.len() > 0 implies names_built_file(
                    view,
                    list@[i]@[0]@,
                ) by {
                    assert(given[i] == texts(list@[i]@));
                    assert(given[i][0] == list@[i]@[0]@);
                    assert(view.has_file_name(given[i][0]));
                }
            }
        },
        None => {
            assert forall|i: int| 0 <= i < view.targets.len() implies names_file(
                view,
                #[trigger] view.targets[i],
            ) == view.can_imply(view.targets[i]) by {}
            if view.can_imply_all() {
                assert forall|i: int| 0 <= i < view.targets.len() implies names_file(
                    view,
                    #[trigger] view.targets[i],
                ) by {
                    assert(view.can_imply(view.targets[i]));
                }
            }
            if all_named(view, assets) {
                assert forall|i: int| 0 <= i < view.targets.len() implies view.can_imply(
                    #[trigger] view.targets[i],
                ) by {
                    assert(names_file(view, view.targets[i]));
                }
            }
        },
    }
}

/// A manifest can be made a package if the file for its description, where one is needed, was
/// read, and, if it comes to its assets, the names that they need are given.
pub proof fn law_manifest_is_ready(
    found: &ManifestFound,
    deb: &CargoDeb,
    extras: &ManifestExtras,
    target: &Option<String>,
    profile: &str,
    platform: &Platform,
    r: bool,
)
    requires
        call_ensures(
            Config::manifest_is_ready,
            (found, deb, extras, target, profile, platform),
            r,
        ),
    ensures
        ({
            let m = found.package->0;
            let asks = found.package is Some && deb.extended_description is None && (
            deb.extended_description_file is Some || m.readme is Some);
            let fails = found.package is None || extras.license is Err || description_unread(
                *found,
                *deb,
                *extras,
            ) || (m.authors@.len() == 0 && (deb.copyright is None || deb.maintainer is None));
            let target_dir = match *target {
                Some(t) => path_join(found.target_dir@, t@),
                None => found.target_dir@,
            };
            r <==> (extras.license is Ok && asks ==> extras.description_text is Some) && (!fails
                ==> all_named(places_of(*found, target_dir, profile@, *platform), deb.assets))
        }),
{
    let target_dir = match *target {
        Some(t) => path_join(found.target_dir@, t@),
        None => found.target_dir@,
    };
    lemma_all_named(places_of(*found, target_dir, profile@, *platform), deb.assets);
}

/// The executables that have to be built have names, unless all is built anyway.
pub proof fn law_programs_are_named(c: &Config, flags: &Vec<String>, platform: &Platform, r: bool)
    requires
        call_ensures(Config::programs_are_named, (c, flags, platform), r),
    ensures
        ({
            let items = build_items(c.deb.assets);
            let everything = texts(flags@).contains("--workspace"@) || texts(flags@).contains(
                "--all"@,
            );
            r <==> everything || has_built_pattern(c.deb.assets) || forall|i: int|
                0 <= i < items.len() && asks_for_program(
                    #[trigger] items[i],
                    platform.dll_suffix@,
                ) ==> name_of(items[i].path->0) is Some
        }),
{
    lemma_built_pattern(c.deb.assets);
    let items = build_items(c.deb.assets);
    let suffix = platform.dll_suffix@;
    assert forall|i: int| 0 <= i < items.len() implies (#[trigger] items[i]).has_name(suffix) == (
    asks_for_program(items[i], suffix) ==> name_of(items[i].path->0) is Some) by {
        assert(items[i].is_program(suffix) == asks_for_program(items[i], suffix));
    }
    if forall|i: int| 0 <= i < items.len() ==> (#[trigger] items[i]).has_name(suffix) {
        assert forall|i: int| 0 <= i < items.len() && asks_for_program(
            #[trigger] items[i],
            suffix,
        ) implies name_of(items[i].path->0) is Some by {
            assert(items[i].has_name(suffix));
        }
    }
    if forall|i: int|
        0 <= i < items.len() && asks_for_program(#[trigger] items[i], suffix) ==> name_of(
            items[i].path->0,
        ) is Some {
        assert forall|i: int| 0 <= i < items.len() implies (#[trigger] items[i]).has_name(
            suffix,
        ) by {
            if asks_for_program(items[i], suffix) {
                assert(name_of(items[i].path->0) is Some);
            }
        }
    }
}

/// The bytes of the asset, where they are known.
pub open spec fn bytes_of(a: Asset, on_disk: Option<u64>) -> int {
    match a.source@ {
        SourceView::Path(_) => match on_disk {
            Some(n) => n as int,
            None => 0,
        },
        SourceView::Data(d) => d.len() as u64 as int,
        SourceView::Symlink(_) => 0,
    }
}

/// The size of a package can be computed with 64 bits: there is an entry for each asset, and
/// none is so large that rounding it up, nor are all together so large that adding them up, would
/// go beyond that.
pub proof fn law_sizes_are_computable(p: &Package, on_disk: &Vec<Option<u64>>, r: bool)
    requires
        call_ensures(Package::sizes_are_computable, (p, on_disk), r),
    ensures
        ({
            let list = p.assets.resolved@;
            r <==> {
                &&& on_disk@.len() == list.len()
                &&& forall|i: int|
                    0 <= i < list.len() ==> bytes_of(#[trigger] list[i], on_disk@[i]) + 2047
                        <= u64::MAX
                &&& installed_size(asset_views(list), on_disk@) <= u64::MAX
            }
        }),
{
    let list = p.assets.resolved@;
    let views = asset_views(list);
    assert(views.len() == list.len());
    assert forall|i: int| 0 <= i < list.len() implies (#[trigger] views[i]).source
        == list[i].source@ by {}
    if r {
        assert forall|i: int| 0 <= i < list.len() implies bytes_of(#[trigger] list[i], on_disk@[i])
            + 2047 <= u64::MAX by {
            assert(views[i].source == list[i].source@);
        }
    } else if on_disk@.len() == list.len() && installed_size(views, on_disk@) <= u64::MAX {
        let k = choose|k: int|
            0 <= k < views.len() && !(match size_of_source(
                (#[trigger] views[k]).source,
                on_disk@[k],
            ) {
                Some(n) => n + 2047 <= u64::MAX,
                None => true,
            });
        assert(bytes_of(list[k], on_disk@[k]) + 2047 > u64::MAX);
    }
}

/// How modes are read: a digit more makes eight times the number, and the digit. What is no
/// digit, or does not fit, is told, the first of them. A plus sign in front does not count.
pub proof fn law_octal_next(s: Seq<char>, c: char)
    ensures
        read_octal(Seq::empty()) == Err::<u32, ParseOctalError>(ParseOctalError::Empty),
        '0' <= c <= '7' ==> read_octal(seq![c]) == Ok::<u32, ParseOctalError>(
            (c as int - '0' as int) as u32,
        ),
        !('0' <= c <= '7') ==> read_octal(seq![c]) == Err::<u32, ParseOctalError>(
            ParseOctalError::InvalidDigit,
        ),
        s.len() > 0 && s != seq!['+'] ==> {
            &&& read_octal(s) is Err ==> read_octal(s.push(c)) == read_octal(s)
            &&& read_octal(s) matches Ok(v) ==> {
                let w = 8 * v + (c as int - '0' as int);
                &&& !('0' <= c <= '7') ==> read_octal(s.push(c)) == Err::<u32, ParseOctalError>(
                    ParseOctalError::InvalidDigit,
                )
                &&& '0' <= c <= '7' && w > u32::MAX ==> read_octal(s.push(c)) == Err::<
                    u32,
                    ParseOctalError,
                >(ParseOctalError::PosOverflow)
                &&& '0' <= c <= '7' && w <= u32::MAX ==> read_octal(s.push(c)) == Ok::<
                    u32,
                    ParseOctalError,
                >(w as u32)
            }
        },
        '0' <= c <= '7' ==> read_octal(seq!['+', c]) == read_octal(seq![c]),
{
    reveal_with_fuel(read_digits, 3);
    assert(seq!['+', c].skip(1) =~= seq![c]);
    if s.len() > 0 && s != seq!['+'] {
        if s.len() > 1 && s[0] == '+' {
            lemma_digits_next(s.skip(1), c, 0);
            assert(s.push(c).skip(1) =~= s.skip(1).push(c));
        } else {
            lemma_digits_next(s, c, 0);
            assert(s[0] != '+') by {
                if s[0] == '+' {
                    assert(s =~= seq!['+']);
                }
            }
        }
    }
}

/// What is read of digits and one more.
proof fn lemma_digits_next(s: Seq<char>, c: char, value: int)
    requires
        0 <= value <= u32::MAX,
    ensures
        read_digits(s.push(c), value) == (match read_digits(s, value) {
            Ok(v) => read_digits(seq![c], v as int),
            Err(e) => Err(e),
        }),
    decreases s.len(),
{
    if s.len() == 0 {
        assert(s.push(c) =~= seq![c]);
    } else {
        assert(s.push(c).skip(1) =~= s.skip(1).push(c));
        let more = 8 * value + (s[0] as int - '0' as int);
        if octal_digit(s[0]) && more <= u32::MAX {
            lemma_digits_next(s.skip(1), c, more);
        }
    }
}

/// What is read of a text is what its digits make.
pub proof fn law_parse_octal(s: &str, r: Result<u32, ParseOctalError>)
    requires
        call_ensures(parse_octal, (s,), r),
    ensures
        r == read_octal(s@),
{
}

} // verus!
