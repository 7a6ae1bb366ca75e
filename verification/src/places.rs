//! Assets are installed relative to the root and under the name of a file. This holds of every
//! asset that is made, and whatever is done with the assets of a package keeps it.

use vstd::prelude::*;
use crate::asset::{
    asset_views, can_place, law_placed_is_relative, names_directory, new_asset, source_at, Asset,
    AssetView, Assets, IsBuilt, SourceView, UnresolvedView,
};
use crate::config::{assets_are, assets_from, assets_ready};
use crate::error::ErrorView;
use crate::generated::{can_install, doc_path, generated_asset, unit_assets, UnitView};
use crate::layout::LayoutView;
use crate::path::{lemma_name_of, name_of, path_join, rooted};
use crate::resolve::{
    can_resolve, can_resolve_all, files_can_resolve, resolve_all, resolve_one, resolved_files,
    search_can_resolve, target_for, FileView,
};

verus! {

/// The asset is installed relative to the root, under the name of a file.
pub open spec fn well_placed(a: AssetView) -> bool {
    &&& !rooted(a.c.target_path)
    &&& !names_directory(a.c.target_path)
}

/// All assets are so installed.
pub open spec fn all_well_placed(list: Seq<AssetView>) -> bool {
    forall|i: int| 0 <= i < list.len() ==> well_placed(#[trigger] list[i])
}

/// An asset that is made is well placed.
proof fn lemma_new_asset(
    source: SourceView,
    target: Seq<char>,
    chmod: u32,
    is_built: IsBuilt,
    is_example: bool,
)
    requires
        can_place(source, target),
    ensures
        well_placed(new_asset(source, target, chmod, is_built, is_example)),
{
    law_placed_is_relative(source, target);
}

/// What the targets are packaged as is well placed.
proof fn lemma_implied_assets(layout: LayoutView, n: nat)
    requires
        layout.can_imply_all(),
        n <= layout.targets.len(),
    ensures
        all_well_placed(layout.implied_assets(n)),
    decreases n,
{
    if n > 0 {
        lemma_implied_assets(layout, (n - 1) as nat);
        let t = layout.targets[n - 1];
        assert(layout.can_imply(t));
        if t.crate_types.contains("bin"@) && t.kind.contains("bin"@) {
            lemma_new_asset(
                SourceView::Path(layout.in_build(t.name)),
                path_join("usr/bin"@, t.name),
                0o755,
                layout.target_is_built(t),
                false,
            );
        } else if t.crate_types.contains("cdylib"@) && t.kind.contains("cdylib"@) {
            lemma_new_asset(
                SourceView::Path(layout.in_build(layout.library_name(t.name))),
                path_join("usr/lib"@, layout.library_name(t.name)),
                0o644,
                layout.target_is_built(t),
                false,
            );
        }
    }
}

/// The assets that a configuration is made with are well placed.
pub proof fn law_manifest_assets_are_well_placed(
    layout: LayoutView,
    package: Seq<char>,
    readme: Option<Seq<char>>,
    given: Option<Vec<Vec<String>>>,
    assets: Assets,
)
    requires
        assets_ready(layout, given),
        assets_are(assets, assets_from(layout, package, readme, given)),
    ensures
        all_well_placed(asset_views(assets.resolved@)),
{
    if given is None {
        lemma_implied_assets(layout, layout.targets.len());
        if let Some(readme) = readme {
            let path = path_join(layout.manifest_dir, readme);
            if let Some(name) = name_of(path) {
                lemma_name_of(path);
                lemma_new_asset(
                    SourceView::Path(path),
                    path_join(path_join("usr/share/doc"@, package), name),
                    0o644,
                    IsBuilt::No,
                    false,
                );
            }
        }
    }
}

/// The assets that files are made are well placed.
proof fn lemma_resolved_files(u: UnresolvedView, files: Seq<FileView>, preserve_symlinks: bool)
    requires
        files_can_resolve(u, files, preserve_symlinks),
    ensures
        all_well_placed(resolved_files(u, files, preserve_symlinks)),
    decreases files.len(),
{
    if files.len() > 0 {
        let front = files.drop_last();
        assert forall|k: int| 0 <= k < front.len() && !(#[trigger] front[k]).is_dir implies
            can_resolve(u, front[k], preserve_symlinks) by {
            assert(front[k] == files[k]);
        }
        lemma_resolved_files(u, front, preserve_symlinks);
        let last = files[files.len() - 1];
        if !last.is_dir {
            lemma_new_asset(
                source_at(last.path, preserve_symlinks, last.disk),
                target_for(u, last.path),
                u.c.chmod,
                u.c.is_built,
                u.c.is_example,
            );
        }
    }
}

/// To resolve assets keeps all assets well placed.
pub proof fn law_resolved_assets_are_well_placed(
    before: Seq<AssetView>,
    list: Seq<UnresolvedView>,
    searches: Seq<Result<Seq<FileView>, ErrorView>>,
    preserve_symlinks: bool,
)
    requires
        all_well_placed(before),
        can_resolve_all(list, searches, preserve_symlinks),
    ensures
        all_well_placed(before + resolve_all(list, searches, preserve_symlinks).0),
{
    lemma_resolve_all(list, searches, preserve_symlinks, list.len() as int);
    assert(list.take(list.len() as int) =~= list);
}

/// What the first entries become is well placed.
proof fn lemma_resolve_all(
    list: Seq<UnresolvedView>,
    searches: Seq<Result<Seq<FileView>, ErrorView>>,
    preserve_symlinks: bool,
    n: int,
)
    requires
        can_resolve_all(list, searches, preserve_symlinks),
        0 <= n <= list.len(),
    ensures
        all_well_placed(resolve_all(list.take(n), searches, preserve_symlinks).0),
    decreases n,
{
    if n > 0 {
        lemma_resolve_all(list, searches, preserve_symlinks, n - 1);
        assert(list.take(n).drop_last() =~= list.take(n - 1));
        let u = list[n - 1];
        assert(list.take(n).last() == u);
        if resolve_all(list.take(n - 1), searches, preserve_symlinks).1 is None {
            assert(search_can_resolve(u, searches[n - 1], preserve_symlinks));
            if let Ok(files) = searches[n - 1] {
                lemma_resolved_files(u, files, preserve_symlinks);
            }
            assert(resolve_one(u, searches[n - 1], preserve_symlinks) matches Ok(more)
                ==> all_well_placed(more));
        }
    }
}

/// To add a file of the documentation keeps all assets well placed.
pub proof fn law_generated_asset_is_well_placed(
    before: Seq<AssetView>,
    deb_name: Seq<char>,
    file: Seq<char>,
    bytes: Seq<u8>,
    source_path: Seq<char>,
)
    requires
        all_well_placed(before),
        file.len() > 0,
        !names_directory(file),
    ensures
        all_well_placed(before + seq![generated_asset(deb_name, file, bytes, source_path)]),
{
    lemma_new_asset(
        SourceView::Data(bytes),
        doc_path(deb_name, file),
        0o644,
        IsBuilt::No,
        false,
    );
}

/// To add systemd units keeps all assets well placed.
pub proof fn law_unit_assets_are_well_placed(
    before: Seq<AssetView>,
    units: Seq<UnitView>,
    preserve_symlinks: bool,
)
    requires
        all_well_placed(before),
        forall|i: int| 0 <= i < units.len() ==> can_install(#[trigger] units[i], preserve_symlinks),
    ensures
        all_well_placed(before + unit_assets(units, preserve_symlinks)),
{
    assert forall|i: int| 0 <= i < units.len() implies well_placed(
        #[trigger] unit_assets(units, preserve_symlinks)[i],
    ) by {
        let u = units[i];
        assert(can_install(u, preserve_symlinks));
        lemma_new_asset(
            source_at(u.source, preserve_symlinks, u.disk),
            u.target_path,
            u.mode,
            IsBuilt::No,
            false,
        );
    }
}

/// To put assets into another order keeps them well placed.
pub proof fn law_reordered_assets_are_well_placed(before: Seq<Asset>, after: Seq<Asset>)
    requires
        all_well_placed(asset_views(before)),
        after.to_multiset() == before.to_multiset(),
    ensures
        all_well_placed(asset_views(after)),
{
    broadcast use vstd::seq_lib::group_to_multiset_ensures;

    assert forall|i: int| 0 <= i < asset_views(after).len() implies well_placed(
        #[trigger] asset_views(after)[i],
    ) by {
        let a = after[i];
        assert(after.to_multiset().contains(a)) by {
            assert(after.contains(a));
        }
        assert(before.contains(a));
        let k = choose|k: int| 0 <= k < before.len() && before[k] == a;
        assert(asset_views(before)[k] == a@);
    }
}

} // verus!
