//! Whether a step can be taken: tests for the conditions that steps ask for.

use vstd::prelude::*;
use vstd::string::*;
use crate::asset::{
    asset_views, can_place, is_dynamic_library_filename, size_of_source, unresolved_views,
    AssetCommon, AssetSource, IsBuilt, Platform, UnresolvedAsset,
};
use crate::config::{
    assets_ready, description_source, layout_of, manifest_error, Config, ManifestExtras,
    ManifestFound,
};
use crate::flags::{
    build_items, builds_everything, builds_pattern, is_glob_pattern, is_pattern,
    programs_have_names, BuildItem,
};
use crate::layout::{entry_views, BuildLayout, LayoutView};
use crate::manifest::{
    extended_description_file, holds_text, CargoDeb, CargoMetadataTarget, Notice,
};
use crate::package::{installed_size, lemma_installed_size_grows, sizes_fit, Package};
use crate::path::{file_name, join, pop, strip_prefix};
use crate::resolve::{can_resolve, target_of_file, SourceFile};
use crate::text::{ends_with_char, texts};

verus! {

impl AssetSource {
    /// Whether an asset can be made of the source and the target.
    pub fn can_be_placed(&self, target_path: &str) -> (r: bool)
        ensures
            r == can_place(self@, target_path@),
    {
        if !ends_with_char(target_path, '/') {
            return true;
        }
        match self.path() {
            Some(p) => file_name(p.as_str()).is_some(),
            None => false,
        }
    }
}

/// Whether a file that was found for an unresolved asset can be made an asset.
pub fn file_can_resolve(asset: &UnresolvedAsset, file: &SourceFile, preserve_symlinks: bool) -> (r:
    bool)
    ensures
        r == can_resolve(asset@, file@, preserve_symlinks),
{
    let target_file = match target_of_file(asset, file.path.as_str()) {
        Some(target_file) => target_file,
        None => return false,
    };
    let source = AssetSource::from_path(file.path.clone(), preserve_symlinks, file.disk);
    source.can_be_placed(target_file.as_str())
}

impl<'a> BuildLayout<'a> {
    /// Whether what is read from a manifest, or else what the targets build, has file names
    /// where it needs them.
    pub fn names_are_given(&self, assets: &Option<Vec<Vec<String>>>) -> (r: bool)
        ensures
            r == assets_ready(self@, *assets),
    {
        match assets {
            Some(list) => self.entries_have_names(list),
            None => self.targets_have_names(),
        }
    }

    fn entries_have_names(&self, list: &Vec<Vec<String>>) -> (r: bool)
        ensures
            r == self@.have_file_names(entry_views(list@)),
    {
        let ghost view = self@;
        let ghost all = entry_views(list@);
        let mut listener: Vec<Notice> = Vec::new();
        let mut i: usize = 0;
        assert(view.read_assets(all.take(0)) is Ok);
        while i < list.len()
            invariant
                view == self@,
                all == entry_views(list@),
                i <= list@.len(),
                view.read_assets(all.take(i as int)) is Ok,
                forall|k: int|
                    0 <= k < i && (#[trigger] all[k]).len() > 0 ==> view.has_file_name(all[k][0]),
            decreases list@.len() - i,
        {
            let entries = &list[i];
            assert(all[i as int] == texts(entries@));
            assert(all.take(i + 1).drop_last() =~= all.take(i as int));
            assert(all.take(i + 1).last() == all[i as int]);
            if entries.len() > 0 {
                assert(all[i as int][0] == entries@[0]@);
                if !self.source_has_name(entries[0].as_str()) {
                    assert(view.read_assets(all.take(i as int)) is Ok);
                    return false;
                }
            }
            match self.read_asset(entries, &mut listener) {
                Ok(_) => {},
                Err(_) => {
                    proof {
                        assert forall|k: int|
                            0 <= k < all.len() && view.read_assets(#[trigger] all.take(k)) is Ok
                                && all[k].len() > 0 implies view.has_file_name(all[k][0]) by {
                            if k > i {
                                lemma_unread(view, all, i + 1, k);
                            }
                        }
                    }
                    return true;
                },
            }
            i += 1;
        }
        true
    }

    /// Whether the source of an asset, if it is built, has a file name.
    fn source_has_name(&self, source_path: &str) -> (r: bool)
        ensures
            r == self@.has_file_name(source_path@),
    {
        let rel = match strip_prefix(source_path, "target/release") {
            Some(rel) => Some(rel),
            None => {
                let mut profile_target_dir = "target/".to_owned();
                profile_target_dir.append(self.profile);
                strip_prefix(source_path, profile_target_dir.as_str())
            },
        };
        match rel {
            Some(rel) => file_name(rel.as_str()).is_some(),
            None => true,
        }
    }

    fn targets_have_names(&self) -> (r: bool)
        ensures
            r == self@.can_imply_all(),
    {
        let ghost view = self@;
        let mut i: usize = 0;
        while i < self.targets.len()
            invariant
                view == self@,
                i <= self.targets@.len(),
                forall|k: int| 0 <= k < i ==> view.can_imply(#[trigger] view.targets[k]),
            decreases self.targets@.len() - i,
        {
            assert(view.targets[i as int] == self.targets@[i as int]@);
            if !self.target_has_name(&self.targets[i]) {
                return false;
            }
            i += 1;
        }
        assert(view.targets.len() == self.targets@.len());
        true
    }

    /// Whether the asset of a target, if there is one, can be made.
    fn target_has_name(&self, t: &CargoMetadataTarget) -> (r: bool)
        ensures
            r == self@.can_imply(t@),
    {
        if holds_text(&t.crate_types, "bin") && holds_text(&t.kind, "bin") {
            let source = AssetSource::Path(self.path_in_build(t.name.as_str()));
            source.can_be_placed(join("usr/bin", t.name.as_str()).as_str())
        } else if holds_text(&t.crate_types, "cdylib") && holds_text(&t.kind, "cdylib") {
            let mut lib_name = self.platform.dll_prefix.clone();
            lib_name.append(t.name.as_str());
            lib_name.append(self.platform.dll_suffix.as_str());
            let source = AssetSource::Path(self.path_in_build(lib_name.as_str()));
            source.can_be_placed(join("usr/lib", lib_name.as_str()).as_str())
        } else {
            true
        }
    }
}

/// Where one asset cannot be read, no list with it can.
proof fn lemma_unread(view: LayoutView, list: Seq<Seq<Seq<char>>>, n: int, k: int)
    requires
        0 <= n <= k <= list.len(),
        view.read_assets(list.take(n)) is Err,
    ensures
        view.read_assets(list.take(k)) is Err,
    decreases k - n,
{
    if n < k {
        assert(list.take(n + 1).drop_last() =~= list.take(n));
        lemma_unread(view, list, n + 1, k);
    }
}

/// Whether a manifest can be used, apart from its assets.
fn manifest_is_usable(found: &ManifestFound, deb: &CargoDeb, extras: &ManifestExtras) -> (r: bool)
    ensures
        r == (manifest_error(*found, *deb, *extras) is None),
{
    let package = match &found.package {
        Some(package) => package,
        None => return false,
    };
    let manifest_dir = pop(found.manifest_path.as_str());
    if extras.license.is_err() {
        return false;
    }
    let description = extended_description_file(deb, &package.readme, manifest_dir.as_str());
    if description.is_some() {
        if let Some(Err(_)) = &extras.description_text {
            return false;
        }
    }
    package.authors.len() > 0 || (deb.copyright.is_some() && deb.maintainer.is_some())
}

/// Whether an asset that is an executable, and has to be built, has a name.
fn item_has_name(c: &AssetCommon, path: &String, platform: &Platform) -> (r: bool)
    ensures
        r == (BuildItem { c: c@, path: Some(path@) }).has_name(platform.dll_suffix@),
{
    c.is_built == IsBuilt::No || c.is_dynamic_library(platform) || is_dynamic_library_filename(
        path.as_str(),
        platform,
    ) || !c.is_executable() || file_name(path.as_str()).is_some()
}

impl Config {
    /// Whether a configuration can be made from a manifest, or the reason told why not: the
    /// description was read where it is to be, and the assets, if it comes to them, have file
    /// names where they need them.
    pub fn manifest_is_ready(
        found: &ManifestFound,
        deb: &CargoDeb,
        extras: &ManifestExtras,
        target: &Option<String>,
        selected_profile: &str,
        platform: &Platform,
    ) -> (r: bool)
        ensures
            r == ({
                &&& extras.license is Ok && description_source(*found, *deb) is Some
                    ==> extras.description_text is Some
                &&& manifest_error(*found, *deb, *extras) is None ==> assets_ready(
                    layout_of(*found, *target, selected_profile@, *platform),
                    deb.assets,
                )
            }),
    {
        let manifest_dir = pop(found.manifest_path.as_str());
        if let Some(package) = &found.package {
            let file = extended_description_file(deb, &package.readme, manifest_dir.as_str());
            if extras.license.is_ok() && file.is_some() && extras.description_text.is_none() {
                return false;
            }
        }
        if !manifest_is_usable(found, deb, extras) {
            return true;
        }
        let target_dir = match target {
            Some(target) => join(found.target_dir.as_str(), target.as_str()),
            None => found.target_dir.clone(),
        };
        let layout = BuildLayout {
            manifest_dir: manifest_dir.as_str(),
            target_dir: target_dir.as_str(),
            profile: selected_profile,
            platform,
            targets: &found.targets,
        };
        assert(layout@ == layout_of(*found, *target, selected_profile@, *platform));
        layout.names_are_given(&deb.assets)
    }

    /// Whether the executables that have to be built have names, where it comes to that.
    pub fn programs_are_named(&self, flags: &Vec<String>, platform: &Platform) -> (r: bool)
        ensures
            r == programs_have_names(self.deb.assets, texts(flags@), platform.dll_suffix@),
    {
        let assets = &self.deb.assets;
        let ghost items = build_items(*assets);
        let ghost suffix = platform.dll_suffix@;
        let ghost n = assets.resolved@.len() as int;
        if holds_text(flags, "--workspace") || holds_text(flags, "--all") {
            return true;
        }
        let ghost unresolved = unresolved_views(assets.unresolved@);
        let mut i: usize = 0;
        while i < assets.unresolved.len()
            invariant
                unresolved == unresolved_views(assets.unresolved@),
                *assets == self.deb.assets,
                i <= assets.unresolved@.len(),
                forall|k: int|
                    0 <= k < i ==> (#[trigger] unresolved[k]).c.is_built == IsBuilt::No
                        || !is_pattern(unresolved[k].source_path),
            decreases assets.unresolved@.len() - i,
        {
            let a = &assets.unresolved[i];
            assert(unresolved[i as int] == a@);
            if a.c.is_built != IsBuilt::No && is_glob_pattern(a.source_path.as_str()) {
                return true;
            }
            i += 1;
        }
        assert(!builds_pattern(unresolved));
        assert(!builds_everything(texts(flags@)));
        let mut i: usize = 0;
        while i < assets.resolved.len()
            invariant
                *assets == self.deb.assets,
                items == build_items(*assets),
                suffix == platform.dll_suffix@,
                !builds_pattern(unresolved_views(assets.unresolved@)),
                !builds_everything(texts(flags@)),
                i <= assets.resolved@.len(),
                forall|k: int| 0 <= k < i ==> (#[trigger] items[k]).has_name(suffix),
            decreases assets.resolved@.len() - i,
        {
            let a = &assets.resolved[i];
            assert(items[i as int] == (BuildItem { c: a.c@, path: a.source@.path() }));
            if let Some(path) = a.source.path() {
                if !item_has_name(&a.c, path, platform) {
                    return false;
                }
            }
            i += 1;
        }
        let mut k: usize = 0;
        while k < assets.unresolved.len()
            invariant
                *assets == self.deb.assets,
                items == build_items(*assets),
                suffix == platform.dll_suffix@,
                !builds_pattern(unresolved_views(assets.unresolved@)),
                !builds_everything(texts(flags@)),
                n == assets.resolved@.len(),
                k <= assets.unresolved@.len(),
                forall|j: int| 0 <= j < n + k ==> (#[trigger] items[j]).has_name(suffix),
            decreases assets.unresolved@.len() - k,
        {
            let a = &assets.unresolved[k];
            assert(items[n + k] == (BuildItem { c: a.c@, path: Some(a.source_path@) }));
            if !item_has_name(&a.c, &a.source_path, platform) {
                return false;
            }
            k += 1;
        }
        true
    }
}

impl Package {
    /// Whether the sizes of the assets, and their sum, can be computed with 64 bits.
    pub fn sizes_are_computable(&self, on_disk: &Vec<Option<u64>>) -> (r: bool)
        ensures
            r == sizes_fit(asset_views(self.assets.resolved@), on_disk@),
    {
        let ghost assets = asset_views(self.assets.resolved@);
        if on_disk.len() != self.assets.resolved.len() {
            return false;
        }
        let mut total: u64 = 0;
        let mut i: usize = 0;
        while i < self.assets.resolved.len()
            invariant
                assets == asset_views(self.assets.resolved@),
                on_disk@.len() == assets.len(),
                i <= assets.len(),
                total == installed_size(assets.take(i as int), on_disk@),
                forall|k: int|
                    0 <= k < i ==> (match size_of_source(
                        (#[trigger] assets[k]).source,
                        on_disk@[k],
                    ) {
                        Some(n) => n + 2047 <= u64::MAX,
                        None => true,
                    }),
            decreases assets.len() - i,
        {
            assert(assets[i as int] == self.assets.resolved@[i as int]@);
            let size: u64 = self.assets.resolved[i].source.file_size(on_disk[i]).unwrap_or(0);
            proof {
                lemma_installed_size_grows(assets, on_disk@, i + 1);
                assert(assets.take(i + 1).drop_last() =~= assets.take(i as int));
            }
            if size > u64::MAX - 2047 {
                return false;
            }
            let kb: u64 = (size + 2047) / 1024;
            if kb > u64::MAX - total {
                return false;
            }
            total = total + kb;
            i += 1;
        }
        assert(assets.take(i as int) =~= assets);
        true
    }
}

} // verus!
