//! What the assets of a package are, told from the entries of its manifest and its targets.

use vstd::prelude::*;
use vstd::string::*;
use crate::asset::{
    can_place, names_directory, new_asset, source_at, AssetView, DiskStatus, IsBuilt, SourceView,
    UnresolvedView,
};
use crate::error::ErrorView;
use crate::layout::LayoutView;
use crate::manifest::{NoticeView, TargetView};
use crate::octal::read_octal;
use crate::path::{
    components, lemma_name_of, name_of, path_join, path_starts_with, path_strip_prefix, spans, spans_from,
    without_root,
};
use crate::text::{lemma_index_from_is, without_suffix};

verus! {

/// A source keeps the path that it was made for, and is a link only where a link is. Links are
/// all kept where that is asked for; elsewhere just those that lead nowhere are.
pub proof fn law_source_at(path: Seq<char>, disk: DiskStatus)
    ensures
        source_at(path, true, disk) == SourceView::Symlink(path) <==> disk.is_symlink,
        source_at(path, true, disk) == SourceView::Path(path) <==> !disk.is_symlink,
        source_at(path, false, disk) == SourceView::Symlink(path) <==> disk.is_symlink
            && !disk.exists,
        source_at(path, false, disk) == SourceView::Path(path) <==> !disk.is_symlink
            || disk.exists,
{
}

/// An asset is made of what it is given. It is installed at the target without the root, and
/// behind that under the name of its source, where the target ends in a slash.
pub proof fn law_asset_parts(
    source: SourceView,
    target: Seq<char>,
    chmod: u32,
    is_built: IsBuilt,
    is_example: bool,
)
    requires
        can_place(source, target),
    ensures
        ({
            let a = new_asset(source, target, chmod, is_built, is_example);
            let name = match source {
                SourceView::Path(p) => name_of(p)->0,
                SourceView::Symlink(p) => name_of(p)->0,
                SourceView::Data(_) => Seq::empty(),
            };
            let full = if target.len() > 0 && target.last() == '/' {
                target + name
            } else {
                target
            };
            &&& a.source == source
            &&& a.processed_from is None
            &&& a.c.chmod == chmod
            &&& a.c.is_built == is_built
            &&& a.c.is_example == is_example
            &&& a.c.target_path == without_root(full)
            &&& target.len() > 0 && target[0] != '/' ==> a.c.target_path == full
        }),
{
    if names_directory(target) {
        lemma_name_of(source.path()->0);
    }
}

/// Some target of the package has the name, and the kind, of what is built, and its source is
/// below the manifest.
pub open spec fn package_builds(view: LayoutView, file: Seq<char>, kind: Seq<char>) -> bool {
    exists|i: int|
        0 <= i < view.targets.len() && is_target_for(view, #[trigger] view.targets[i], file, kind)
}

/// The target is built into the file: the name of the file is that of the target, and may have
/// the ending of an executable behind it, which counts as such where it is there.
pub open spec fn is_target_for(
    view: LayoutView,
    t: TargetView,
    file: Seq<char>,
    kind: Seq<char>,
) -> bool {
    &&& (t.name + view.exe_suffix == file || (t.name == file && !view.exe_suffix.is_suffix_of(
        file,
    )))
    &&& exists|k: int| 0 <= k < t.kind.len() && #[trigger] t.kind[k] == kind
    &&& components(view.manifest_dir).is_prefix_of(components(t.src_path))
}

/// The directory that the files of the build are in.
pub open spec fn output_dir(view: LayoutView) -> Seq<char> {
    path_join(
        view.target_dir,
        if view.profile == "dev"@ {
            "debug"@
        } else {
            view.profile
        },
    )
}

/// What an asset from the directory of the build is: it lies in that directory as its entry says
/// behind `target/release`, or behind the profile, it is an example below `examples`, and it is
/// built along with the package, if a target of the package is built into it, and else by the
/// workspace.
pub open spec fn is_from_build(view: LayoutView, a: UnresolvedView, rel: Seq<char>) -> bool {
    &&& a.source_path == path_join(output_dir(view), rel)
    &&& a.c.is_example <==> components("examples"@).is_prefix_of(components(rel))
    &&& a.c.is_built != IsBuilt::No
    &&& a.c.is_built == IsBuilt::SamePackage <==> package_builds(
        view,
        name_of(rel)->0,
        if components("examples"@).is_prefix_of(components(rel)) {
            "example"@
        } else {
            "bin"@
        },
    )
}

/// An entry with a path, a target and a mode that can be read is read; what stands behind them
/// does not count. Target and mode are those of the entry. A path below `target/release`, or
/// else below the directory of the profile, is one of the build, and any other is seen from the
/// manifest and not built.
pub proof fn law_entry_is_read(view: LayoutView, entries: Seq<Seq<char>>, a: UnresolvedView)
    requires
        entries.len() >= 3,
        view.read_asset(entries) == Ok::<UnresolvedView, ErrorView>(a),
    ensures
        view.read_asset(entries.take(3)) == view.read_asset(entries),
        a.c.target_path == entries[1],
        read_octal(entries[2]) is Ok,
        read_octal(entries[2])->Ok_0 == a.c.chmod,
        path_strip_prefix(entries[0], "target/release"@) matches Some(rel) ==> is_from_build(
            view,
            a,
            rel,
        ),
        path_strip_prefix(entries[0], "target/release"@) is None ==> (path_strip_prefix(
            entries[0],
            "target/"@ + view.profile,
        ) matches Some(rel) ==> is_from_build(view, a, rel)),
        !path_starts_with(entries[0], "target/release"@) && !path_starts_with(
            entries[0],
            "target/"@ + view.profile,
        ) ==> {
            &&& a.source_path == path_join(view.manifest_dir, entries[0])
            &&& a.c.is_built == IsBuilt::No
            &&& !a.c.is_example
        },
{
    if let Some(rel) = view.build_relative(entries[0]) {
        lemma_package_builds(view, rel, "example"@);
        lemma_package_builds(view, rel, "bin"@);
    }
}

/// What the package builds, by the name of a file.
pub proof fn lemma_package_builds(view: LayoutView, rel: Seq<char>, kind: Seq<char>)
    ensures
        view.builds_in_package(name_of(rel)->0, kind) <==> package_builds(
            view,
            name_of(rel)->0,
            kind,
        ),
{
    let name = name_of(rel)->0;
    assert forall|i: int| 0 <= i < view.targets.len() implies is_target_for(
        view,
        #[trigger] view.targets[i],
        name,
        kind,
    ) == ({
        let t = view.targets[i];
        &&& t.name == without_suffix(name, view.exe_suffix)
        &&& t.kind.contains(kind)
        &&& view.target_is_built(t) == IsBuilt::SamePackage
    }) by {
        let t = view.targets[i];
        let suffix = view.exe_suffix;
        if suffix.is_suffix_of(name) {
            assert(name =~= name.subrange(0, name.len() - suffix.len()) + suffix);
            assert((t.name + suffix).subrange(0, t.name.len() as int) =~= t.name);
        } else if t.name + suffix == name {
            assert(name.subrange(name.len() - suffix.len(), name.len() as int) =~= suffix);
        }
    }
}

/// An entry that lacks one of its parts, or has a mode that is no octal number, is refused, and
/// the first part that is missing is told. Nothing else is.
pub proof fn law_entry_is_refused(view: LayoutView, entries: Seq<Seq<char>>)
    ensures
        view.read_asset(entries) is Ok <==> entries.len() >= 3 && read_octal(entries[2]) is Ok,
        entries.len() == 0 ==> view.read_asset(entries) == Err::<UnresolvedView, ErrorView>(
            ErrorView::Str("missing path (first array entry) for asset in Cargo.toml"@),
        ),
        entries.len() == 1 ==> view.read_asset(entries) == Err::<UnresolvedView, ErrorView>(
            ErrorView::Str(
                "missing target (second array entry) for asset in Cargo.toml. Use something like \"usr/local/bin/\"."@,
            ),
        ),
        entries.len() == 2 ==> view.read_asset(entries) == Err::<UnresolvedView, ErrorView>(
            ErrorView::Str(
                "missing chmod (third array entry) for asset in Cargo.toml. Use an octal string like \"777\"."@,
            ),
        ),
        entries.len() >= 3 ==> (read_octal(entries[2]) matches Err(e) ==> view.read_asset(entries)
            == Err::<UnresolvedView, ErrorView>(
            ErrorView::NumParse("unable to parse chmod argument"@, e),
        )),
{
}

/// One more entry is read behind those that were read, and adds one asset behind theirs; the
/// first that is refused is the answer for all. An entry that is looked at is warned about, if
/// its path is in the directory of development builds, and else nothing is said.
pub proof fn law_read_next(view: LayoutView, list: Seq<Seq<Seq<char>>>, entries: Seq<Seq<char>>)
    ensures
        view.read_assets(Seq::empty()) == Ok::<Seq<UnresolvedView>, ErrorView>(Seq::empty()),
        view.asset_notices(Seq::empty()) == Seq::<NoticeView>::empty(),
        view.read_assets(list) is Err ==> {
            &&& view.read_assets(list.push(entries)) == view.read_assets(list)
            &&& view.asset_notices(list.push(entries)) == view.asset_notices(list)
        },
        view.read_assets(list) matches Ok(sofar) ==> {
            &&& view.read_assets(list.push(entries)) == (match view.read_asset(entries) {
                Ok(a) => Ok::<Seq<UnresolvedView>, ErrorView>(sofar.push(a)),
                Err(e) => Err(e),
            })
            &&& entries.len() == 0 || !components("target/debug"@).is_prefix_of(
                components(entries[0]),
            ) ==> view.asset_notices(list.push(entries)) == view.asset_notices(list)
            &&& entries.len() > 0 && components("target/debug"@).is_prefix_of(
                components(entries[0]),
            ) ==> view.asset_notices(list.push(entries)) == view.asset_notices(list).push(
                NoticeView::Warning(
                    "Packaging of development-only binaries is intentionally unsupported in cargo-deb.\n    Please only use `target/release/` directory for built products, not `"@
                        + entries[0]
                        + "`.\n    To add debug information or additional assertions use `[profile.release]` in `Cargo.toml` instead.\n    This will be hard error in a future release of cargo-deb."@,
                ),
            )
        },
{
    assert(list.push(entries).drop_last() =~= list);
    let said = view.asset_notices(list);
    assert(said + Seq::empty() =~= said);
    lemma_slash_behind();
    assert forall|n: NoticeView| said + seq![n] =~= #[trigger] said.push(n) by {}
}

/// A slash at the end of a path is no component.
proof fn lemma_slash_behind()
    ensures
        components("target/debug/"@) == components("target/debug"@),
{
    reveal_strlit("target/debug/");
    reveal_strlit("target/debug");
    let a = "target/debug/"@;
    let b = "target/debug"@;
    lemma_index_from_is(a, '/', 0, 6);
    lemma_index_from_is(a, '/', 7, 12);
    lemma_index_from_is(b, '/', 0, 6);
    lemma_index_from_is(b, '/', 7, 12);
    reveal_with_fuel(spans_from, 5);
    assert(a.subrange(0, 6) =~= b.subrange(0, 6));
    assert(a.subrange(7, 12) =~= b.subrange(7, 12));
    assert(spans(a) =~= seq![(0int, 6int), (7int, 12int)]);
    assert(spans(b) =~= seq![(0int, 6int), (7int, 12int)]);
    assert(components(a) =~= components(b));
}

/// A target of the package is built along with it, one from elsewhere by the workspace.
pub open spec fn builder_of(view: LayoutView, t: TargetView) -> IsBuilt {
    if components(view.manifest_dir).is_prefix_of(components(t.src_path)) {
        IsBuilt::SamePackage
    } else {
        IsBuilt::Workspace
    }
}

/// One more target adds one asset behind those of the others, where no assets are asked for: an
/// executable, which goes to `usr/bin`, or else a dynamic library, which goes to `usr/lib` under
/// its full name. Another target adds nothing.
pub proof fn law_default_assets_next(view: LayoutView, t: TargetView, package: Seq<char>)
    ensures
        ({
            let more = LayoutView { targets: view.targets.push(t), ..view };
            let before = view.default_assets(package, None);
            let after = more.default_assets(package, None);
            let runs = t.crate_types.contains("bin"@) && t.kind.contains("bin"@);
            let links = t.crate_types.contains("cdylib"@) && t.kind.contains("cdylib"@);
            let library = view.dll_prefix + t.name + view.dll_suffix;
            &&& view.targets.len() == 0 ==> before == Ok::<Seq<AssetView>, ErrorView>(Seq::empty())
            &&& before is Ok
            &&& runs ==> after == Ok::<Seq<AssetView>, ErrorView>(
                before->Ok_0.push(
                    new_asset(
                        SourceView::Path(path_join(output_dir(view), t.name)),
                        path_join("usr/bin"@, t.name),
                        0o755,
                        builder_of(view, t),
                        false,
                    ),
                ),
            )
            &&& !runs && links ==> after == Ok::<Seq<AssetView>, ErrorView>(
                before->Ok_0.push(
                    new_asset(
                        SourceView::Path(path_join(output_dir(view), library)),
                        path_join("usr/lib"@, library),
                        0o644,
                        builder_of(view, t),
                        false,
                    ),
                ),
            )
            &&& !runs && !links ==> after == before
        }),
{
    let more = LayoutView { targets: view.targets.push(t), ..view };
    lemma_implied_front(view, more, view.targets.len());
    assert(more.targets[view.targets.len() as int] == t);
    assert(more.implied_asset(t) == view.implied_asset(t));
}

/// The assets of the first targets do not rest on the others.
proof fn lemma_implied_front(view: LayoutView, more: LayoutView, n: nat)
    requires
        more == (LayoutView { targets: more.targets, ..view }),
        n <= view.targets.len(),
        n <= more.targets.len(),
        forall|i: int| 0 <= i < n ==> view.targets[i] == more.targets[i],
    ensures
        view.implied_assets(n) == more.implied_assets(n),
    decreases n,
{
    if n > 0 {
        lemma_implied_front(view, more, (n - 1) as nat);
        assert(view.targets[n - 1] == more.targets[n - 1]);
    }
}

/// A readme is packaged behind all else, as a file that is not built, in the directory for the
/// documentation of the package, under its own name. One without a name is refused.
pub proof fn law_readme_is_packaged(view: LayoutView, package: Seq<char>, readme: Seq<char>)
    ensures
        ({
            let path = path_join(view.manifest_dir, readme);
            let others = view.default_assets(package, None);
            &&& others is Ok
            &&& name_of(path) is None ==> view.default_assets(package, Some(readme)) == Err::<
                Seq<AssetView>,
                ErrorView,
            >(ErrorView::Str("bad README path"@))
            &&& name_of(path) matches Some(name) ==> view.default_assets(package, Some(readme))
                == Ok::<Seq<AssetView>, ErrorView>(
                others->Ok_0.push(
                    new_asset(
                        SourceView::Path(path),
                        path_join(path_join("usr/share/doc"@, package), name),
                        0o644,
                        IsBuilt::No,
                        false,
                    ),
                ),
            )
        }),
{
}

} // verus!
