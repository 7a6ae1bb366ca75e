//! Where the files of a build are, and which assets a manifest asks for.

use vstd::prelude::*;
use vstd::string::*;
use crate::asset::{
    asset_views, can_place, new_asset, Asset, AssetCommon, AssetSource, AssetView, CommonView, IsBuilt,
    Platform, SourceView, unresolved_views, UnresolvedAsset, UnresolvedView,
};
use crate::error::{CDResult, CargoDebError, ErrorView};
use crate::manifest::{
    holds_text, notice_views, push_notice, target_views, CargoMetadataTarget, Notice, NoticeView, TargetView,
};
use crate::octal::{parse_octal, read_octal};
use crate::path::{
    file_name, join, lemma_name_of, name_of, path_join, path_starts_with, path_strip_prefix, starts_with_path,
    strip_prefix,
};
use crate::text::{opt_text, same_text, strip_suffix, texts, without_suffix};

verus! {

/// What decides on the place of the files of a build.
#[derive(Debug)]
pub struct BuildLayout<'a> {
    /// The directory of the manifest.
    pub manifest_dir: &'a str,
    /// The directory for all that is built.
    pub target_dir: &'a str,
    /// The name of the profile that is built.
    pub profile: &'a str,
    pub platform: &'a Platform,
    pub targets: &'a Vec<CargoMetadataTarget>,
}

/// What decides on the place of the files of a build, with its texts as sequences.
pub struct LayoutView {
    pub manifest_dir: Seq<char>,
    pub target_dir: Seq<char>,
    pub profile: Seq<char>,
    pub dll_prefix: Seq<char>,
    pub dll_suffix: Seq<char>,
    pub exe_suffix: Seq<char>,
    pub targets: Seq<TargetView>,
}

impl<'a> View for BuildLayout<'a> {
    type V = LayoutView;

    open spec fn view(&self) -> LayoutView {
        LayoutView {
            manifest_dir: self.manifest_dir@,
            target_dir: self.target_dir@,
            profile: self.profile@,
            dll_prefix: self.platform.dll_prefix@,
            dll_suffix: self.platform.dll_suffix@,
            exe_suffix: self.platform.exe_suffix@,
            targets: target_views(self.targets@),
        }
    }
}

/// The directory that a profile is built in.
pub open spec fn profile_dir(profile: Seq<char>) -> Seq<char> {
    if profile == "dev"@ {
        "debug"@
    } else {
        profile
    }
}

/// A path in the directory of the build.
pub open spec fn path_in_build(target_dir: Seq<char>, rel: Seq<char>, profile: Seq<char>) -> Seq<
    char,
> {
    path_join(path_join(target_dir, profile_dir(profile)), rel)
}

impl LayoutView {
    /// A path in the directory of the build.
    pub open spec fn in_build(self, rel: Seq<char>) -> Seq<char> {
        path_in_build(self.target_dir, rel, self.profile)
    }

    /// Whether a target is built along with the package: its source is below the manifest.
    pub open spec fn target_is_built(self, t: TargetView) -> IsBuilt {
        if path_starts_with(t.src_path, self.manifest_dir) {
            IsBuilt::SamePackage
        } else {
            IsBuilt::Workspace
        }
    }

    /// Some target of the package, of the given kind, is built into a file of this name.
    pub open spec fn builds_in_package(self, name: Seq<char>, kind: Seq<char>) -> bool {
        exists|i: int|
            0 <= i < self.targets.len() && {
                let t = #[trigger] self.targets[i];
                &&& t.name == without_suffix(name, self.exe_suffix)
                &&& t.kind.contains(kind)
                &&& self.target_is_built(t) == IsBuilt::SamePackage
            }
    }

    /// What has to be built for the file at `rel` in the directory of the build.
    pub open spec fn file_is_built(self, rel: Seq<char>, kind: Seq<char>) -> IsBuilt {
        if self.builds_in_package(name_of(rel)->0, kind) {
            IsBuilt::SamePackage
        } else {
            IsBuilt::Workspace
        }
    }

    /// The source of an asset as seen from the directory of the build, where it is in there.
    /// `target/release` stands for the directory of any profile.
    pub open spec fn build_relative(self, source: Seq<char>) -> Option<Seq<char>> {
        match path_strip_prefix(source, "target/release"@) {
            Some(rel) => Some(rel),
            None => path_strip_prefix(source, "target/"@ + self.profile),
        }
    }

    /// The source of an asset, if it is built, has a file name.
    pub open spec fn has_file_name(self, source: Seq<char>) -> bool {
        self.build_relative(source) matches Some(rel) ==> name_of(rel) is Some
    }

    /// Whether the source of an asset is built, where it is, and whether it is an example.
    pub open spec fn locate(self, source: Seq<char>) -> (IsBuilt, Seq<char>, bool) {
        match self.build_relative(source) {
            Some(rel) => {
                let is_example = path_starts_with(rel, "examples"@);
                let kind = if is_example {
                    "example"@
                } else {
                    "bin"@
                };
                (self.file_is_built(rel, kind), self.in_build(rel), is_example)
            },
            None => (IsBuilt::No, path_join(self.manifest_dir, source), false),
        }
    }

    /// Reads an asset from its entries in the manifest: source path, target path and mode.
    pub open spec fn read_asset(self, entries: Seq<Seq<char>>) -> Result<
        UnresolvedView,
        ErrorView,
    > {
        if entries.len() == 0 {
            Err(ErrorView::Str("missing path (first array entry) for asset in Cargo.toml"@))
        } else if entries.len() == 1 {
            Err(
                ErrorView::Str(
                    "missing target (second array entry) for asset in Cargo.toml. Use something like \"usr/local/bin/\"."@,
                ),
            )
        } else if entries.len() == 2 {
            Err(
                ErrorView::Str(
                    "missing chmod (third array entry) for asset in Cargo.toml. Use an octal string like \"777\"."@,
                ),
            )
        } else {
            let (is_built, source_path, is_example) = self.locate(entries[0]);
            match read_octal(entries[2]) {
                Err(e) => Err(ErrorView::NumParse("unable to parse chmod argument"@, e)),
                Ok(chmod) => Ok(
                    UnresolvedView {
                        source_path,
                        c: CommonView { target_path: entries[1], chmod, is_built, is_example },
                    },
                ),
            }
        }
    }

    /// Reads the assets of a manifest, up to the first that cannot be read.
    pub open spec fn read_assets(self, list: Seq<Seq<Seq<char>>>) -> Result<
        Seq<UnresolvedView>,
        ErrorView,
    >
        decreases list.len(),
    {
        if list.len() == 0 {
            Ok(Seq::empty())
        } else {
            match self.read_assets(list.drop_last()) {
                Err(e) => Err(e),
                Ok(front) => match self.read_asset(list.last()) {
                    Err(e) => Err(e),
                    Ok(a) => Ok(front.push(a)),
                },
            }
        }
    }

    /// What there is to say about the assets of a manifest, up to the first that cannot be
    /// read.
    pub open spec fn asset_notices(self, list: Seq<Seq<Seq<char>>>) -> Seq<NoticeView>
        decreases list.len(),
    {
        if list.len() == 0 {
            Seq::empty()
        } else {
            self.asset_notices(list.drop_last()) + (if self.read_assets(list.drop_last()) is Ok {
                entry_notices(list.last())
            } else {
                Seq::empty()
            })
        }
    }

    /// Each asset that is read has a file name, if it is built.
    pub open spec fn have_file_names(self, list: Seq<Seq<Seq<char>>>) -> bool {
        forall|i: int|
            0 <= i < list.len() && self.read_assets(#[trigger] list.take(i)) is Ok && list[i].len()
                > 0 ==> self.has_file_name(list[i][0])
    }

    /// The asset that a target is packaged as, if it is an executable or a dynamic library.
    pub open spec fn implied_asset(self, t: TargetView) -> Option<AssetView> {
        if t.crate_types.contains("bin"@) && t.kind.contains("bin"@) {
            Some(
                new_asset(
                    SourceView::Path(self.in_build(t.name)),
                    path_join("usr/bin"@, t.name),
                    0o755,
                    self.target_is_built(t),
                    false,
                ),
            )
        } else if t.crate_types.contains("cdylib"@) && t.kind.contains("cdylib"@) {
            Some(
                new_asset(
                    SourceView::Path(self.in_build(self.library_name(t.name))),
                    path_join("usr/lib"@, self.library_name(t.name)),
                    0o644,
                    self.target_is_built(t),
                    false,
                ),
            )
        } else {
            None
        }
    }

    /// The name of the file of a dynamic library.
    pub open spec fn library_name(self, name: Seq<char>) -> Seq<char> {
        self.dll_prefix + name + self.dll_suffix
    }

    /// The asset of a target, if there is one, can be made.
    pub open spec fn can_imply(self, t: TargetView) -> bool {
        if t.crate_types.contains("bin"@) && t.kind.contains("bin"@) {
            can_place(SourceView::Path(self.in_build(t.name)), path_join("usr/bin"@, t.name))
        } else if t.crate_types.contains("cdylib"@) && t.kind.contains("cdylib"@) {
            can_place(
                SourceView::Path(self.in_build(self.library_name(t.name))),
                path_join("usr/lib"@, self.library_name(t.name)),
            )
        } else {
            true
        }
    }

    /// The assets of all targets can be made.
    pub open spec fn can_imply_all(self) -> bool {
        forall|i: int| 0 <= i < self.targets.len() ==> self.can_imply(#[trigger] self.targets[i])
    }

    /// The assets that the first `n` targets are packaged as.
    pub open spec fn implied_assets(self, n: nat) -> Seq<AssetView>
        decreases n,
    {
        if n == 0 {
            Seq::empty()
        } else {
            let front = self.implied_assets((n - 1) as nat);
            match self.implied_asset(self.targets[n - 1]) {
                Some(a) => front.push(a),
                None => front,
            }
        }
    }

    /// The asset that the readme is packaged as.
    pub open spec fn readme_asset(
        self,
        package: Seq<char>,
        readme: Seq<char>,
    ) -> Option<AssetView> {
        let path = path_join(self.manifest_dir, readme);
        match name_of(path) {
            Some(name) => Some(
                new_asset(
                    SourceView::Path(path),
                    path_join(path_join("usr/share/doc"@, package), name),
                    0o644,
                    IsBuilt::No,
                    false,
                ),
            ),
            None => None,
        }
    }

    /// The assets of a package whose manifest names none: what its targets build, and its
    /// readme.
    pub open spec fn default_assets(self, package: Seq<char>, readme: Option<Seq<char>>) -> Result<
        Seq<AssetView>,
        ErrorView,
    > {
        let built = self.implied_assets(self.targets.len());
        match readme {
            None => Ok(built),
            Some(readme) => match self.readme_asset(package, readme) {
                Some(a) => Ok(built.push(a)),
                None => Err(ErrorView::Str("bad README path"@)),
            },
        }
    }
}

/// The warning about an asset from the directory of development builds.
pub open spec fn development_warning(source: Seq<char>) -> Seq<char> {
    "Packaging of development-only binaries is intentionally unsupported in cargo-deb.\n    Please only use `target/release/` directory for built products, not `"@
        + source
        + "`.\n    To add debug information or additional assertions use `[profile.release]` in `Cargo.toml` instead.\n    This will be hard error in a future release of cargo-deb."@
}

/// What there is to say about the entries of an asset.
pub open spec fn entry_notices(entries: Seq<Seq<char>>) -> Seq<NoticeView> {
    if entries.len() > 0 && path_starts_with(entries[0], "target/debug/"@) {
        seq![NoticeView::Warning(development_warning(entries[0]))]
    } else {
        Seq::empty()
    }
}

/// The entries of the assets of a manifest.
pub open spec fn entry_views(list: Seq<Vec<String>>) -> Seq<Seq<Seq<char>>> {
    list.map_values(|l: Vec<String>| texts(l@))
}

/// A path in the directory of the build.
pub fn join_in_build(target_dir: &str, rel_path: &str, profile: &str) -> (r: String)
    ensures
        r@ == path_in_build(target_dir@, rel_path@, profile@),
{
    let profile = if same_text(profile, "dev") {
        "debug"
    } else {
        profile
    };
    let path = join(target_dir, profile);
    join(path.as_str(), rel_path)
}

impl<'a> BuildLayout<'a> {
    /// A path in the directory of the build.
    pub fn path_in_build(&self, rel_path: &str) -> (r: String)
        ensures
            r@ == self@.in_build(rel_path@),
    {
        join_in_build(self.target_dir, rel_path, self.profile)
    }

    pub fn is_built_file_in_package(&self, build_target: &CargoMetadataTarget) -> (r: IsBuilt)
        ensures
            r == self@.target_is_built(build_target@),
    {
        if starts_with_path(build_target.src_path.as_str(), self.manifest_dir) {
            IsBuilt::SamePackage
        } else {
            IsBuilt::Workspace
        }
    }

    pub fn find_is_built_file_in_package(&self, rel_path: &str, expected_kind: &str) -> (r: IsBuilt)
        requires
            name_of(rel_path@) is Some,
        ensures
            r == self@.file_is_built(rel_path@, expected_kind@),
    {
        let source_name = match file_name(rel_path) {
            Some(name) => name,
            None => String::new(),
        };
        let ghost name = name_of(rel_path@)->0;
        let ghost view = self@;
        assert(source_name@ == name);
        let stripped = strip_suffix(source_name.as_str(), self.platform.exe_suffix.as_str());
        let mut i: usize = 0;
        while i < self.targets.len()
            invariant
                view == self@,
                name == name_of(rel_path@)->0,
                i <= self.targets@.len(),
                stripped@ == without_suffix(name, view.exe_suffix),
                forall|k: int|
                    0 <= k < i ==> !{
                        let t = #[trigger] view.targets[k];
                        &&& t.name == without_suffix(name, view.exe_suffix)
                        &&& t.kind.contains(expected_kind@)
                        &&& view.target_is_built(t) == IsBuilt::SamePackage
                    },
            decreases self.targets@.len() - i,
        {
            let t = &self.targets[i];
            assert(view.targets[i as int] == t@);
            if same_text(t.name.as_str(), stripped.as_str()) && holds_text(&t.kind, expected_kind)
                && self.is_built_file_in_package(t) == IsBuilt::SamePackage {
                return IsBuilt::SamePackage;
            }
            i += 1;
        }
        assert(view.targets.len() == self.targets@.len());
        IsBuilt::Workspace
    }

    /// Reads an asset from its entries in the manifest.
    pub fn read_asset(&self, entries: &Vec<String>, listener: &mut Vec<Notice>) -> (r: CDResult<
        UnresolvedAsset,
    >)
        requires
            entries@.len() > 0 ==> self@.has_file_name(entries@[0]@),
        ensures
            match r {
                Ok(a) => self@.read_asset(texts(entries@)) == Ok::<UnresolvedView, ErrorView>(a@),
                Err(e) => self@.read_asset(texts(entries@)) == Err::<UnresolvedView, ErrorView>(e@),
            },
            notice_views(final(listener)@) == notice_views(
                old(listener)@,
            ) + entry_notices(texts(entries@)),
    {
        let ghost before = notice_views(listener@);
        let ghost given = texts(entries@);
        assert(before + Seq::empty() =~= before);
        if entries.len() == 0 {
            return Err(
                CargoDebError::Str("missing path (first array entry) for asset in Cargo.toml"),
            );
        }
        assert(given[0] == entries@[0]@);
        let source_path = entries[0].as_str();
        if starts_with_path(source_path, "target/debug/") {
            let mut m =
                "Packaging of development-only binaries is intentionally unsupported in cargo-deb.\n    Please only use `target/release/` directory for built products, not `".to_owned();
            m.append(source_path);
            m.append(
                "`.\n    To add debug information or additional assertions use `[profile.release]` in `Cargo.toml` instead.\n    This will be hard error in a future release of cargo-deb.",
            );
            push_notice(listener, Notice::Warning(m));
        }
        // target/release is treated as a magic prefix that resolves to any profile
        let rel_path = match strip_prefix(source_path, "target/release") {
            Some(rel) => Some(rel),
            None => {
                let mut profile_target_dir = "target/".to_owned();
                profile_target_dir.append(self.profile);
                strip_prefix(source_path, profile_target_dir.as_str())
            },
        };
        let (is_built, source_path, is_example) = match rel_path {
            Some(rel_path) => {
                let rel_path = rel_path.as_str();
                let is_example = starts_with_path(rel_path, "examples");
                let kind = if is_example {
                    "example"
                } else {
                    "bin"
                };
                (
                    self.find_is_built_file_in_package(rel_path, kind),
                    self.path_in_build(rel_path),
                    is_example,
                )
            },
            None => (IsBuilt::No, join(self.manifest_dir, source_path), false),
        };
        if entries.len() < 2 {
            return Err(
                CargoDebError::Str(
                    "missing target (second array entry) for asset in Cargo.toml. Use something like \"usr/local/bin/\".",
                ),
            );
        }
        assert(given[1] == entries@[1]@);
        let target_path = entries[1].clone();
        if entries.len() < 3 {
            return Err(
                CargoDebError::Str(
                    "missing chmod (third array entry) for asset in Cargo.toml. Use an octal string like \"777\".",
                ),
            );
        }
        assert(given[2] == entries@[2]@);
        let chmod = match parse_octal(entries[2].as_str()) {
            Ok(chmod) => chmod,
            Err(e) => return Err(CargoDebError::NumParse("unable to parse chmod argument", e)),
        };
        Ok(
            UnresolvedAsset {
                source_path,
                c: AssetCommon { target_path, chmod, is_built, is_example },
            },
        )
    }

    /// Reads the assets of a manifest.
    pub fn read_assets(&self, list: &Vec<Vec<String>>, listener: &mut Vec<Notice>) -> (r: CDResult<
        Vec<UnresolvedAsset>,
    >)
        requires
            self@.have_file_names(entry_views(list@)),
        ensures
            match r {
                Ok(v) => self@.read_assets(entry_views(list@)) == Ok::<
                    Seq<UnresolvedView>,
                    ErrorView,
                >(unresolved_views(v@)),
                Err(e) => self@.read_assets(entry_views(list@)) == Err::<
                    Seq<UnresolvedView>,
                    ErrorView,
                >(e@),
            },
            notice_views(final(listener)@) == notice_views(
                old(listener)@,
            ) + self@.asset_notices(entry_views(list@)),
    {
        let ghost before = notice_views(listener@);
        let ghost given = entry_views(list@);
        let ghost view = self@;
        let mut r: Vec<UnresolvedAsset> = Vec::new();
        let mut i: usize = 0;
        assert(before + view.asset_notices(given.take(0)) =~= before);
        assert(unresolved_views(r@) =~= Seq::empty());
        while i < list.len()
            invariant
                view == self@,
                given == entry_views(list@),
                before == notice_views(old(listener)@),
                view.have_file_names(given),
                i <= list@.len(),
                view.read_assets(given.take(i as int)) == Ok::<Seq<UnresolvedView>, ErrorView>(
                    unresolved_views(r@),
                ),
                notice_views(listener@) == before + view.asset_notices(
                    given.take(i as int),
                ),
            decreases list@.len() - i,
        {
            let ghost sofar = unresolved_views(r@);
            let ghost said = notice_views(listener@);
            assert(given[i as int] == texts(list@[i as int]@));
            assert(given.take(i + 1).drop_last() =~= given.take(i as int));
            assert(given.take(i + 1).last() == given[i as int]);
            proof {
                if list@[i as int]@.len() > 0 {
                    assert(given[i as int][0] == list@[i as int]@[0]@);
                }
            }
            let read = self.read_asset(&list[i], listener);
            assert(notice_views(listener@) =~= before + view.asset_notices(
                given.take(i + 1),
            ));
            match read {
                Ok(a) => {
                    r.push(a);
                    assert(unresolved_views(r@) =~= sofar.push(a@));
                },
                Err(e) => {
                    proof {
                        lemma_read_assets_stops(view, given, i + 1);
                    }
                    return Err(e);
                },
            }
            i += 1;
        }
        assert(given.take(i as int) =~= given);
        Ok(r)
    }
}

impl<'a> BuildLayout<'a> {
    /// The asset that a target is packaged as.
    fn implied_asset(&self, t: &CargoMetadataTarget) -> (r: Option<Asset>)
        requires
            self@.can_imply(t@),
        ensures
            (match r {
                Some(a) => Some(a@),
                None => None,
            }) == self@.implied_asset(t@),
    {
        if holds_text(&t.crate_types, "bin") && holds_text(&t.kind, "bin") {
            Some(
                Asset::new(
                    AssetSource::Path(self.path_in_build(t.name.as_str())),
                    join("usr/bin", t.name.as_str()),
                    0o755,
                    self.is_built_file_in_package(t),
                    false,
                ),
            )
        } else if holds_text(&t.crate_types, "cdylib") && holds_text(&t.kind, "cdylib") {
            let mut lib_name = self.platform.dll_prefix.clone();
            lib_name.append(t.name.as_str());
            lib_name.append(self.platform.dll_suffix.as_str());
            Some(
                Asset::new(
                    AssetSource::Path(self.path_in_build(lib_name.as_str())),
                    join("usr/lib", lib_name.as_str()),
                    0o644,
                    self.is_built_file_in_package(t),
                    false,
                ),
            )
        } else {
            None
        }
    }

    /// The assets of a package whose manifest names none.
    pub fn default_assets(
        &self,
        package: &str,
        readme: &Option<String>,
    ) -> (r: CDResult<Vec<Asset>>)
        requires
            self@.can_imply_all(),
        ensures
            match r {
                Ok(v) => self@.default_assets(package@, opt_text(*readme)) == Ok::<
                    Seq<AssetView>,
                    ErrorView,
                >(asset_views(v@)),
                Err(e) => self@.default_assets(package@, opt_text(*readme)) == Err::<
                    Seq<AssetView>,
                    ErrorView,
                >(e@),
            },
    {
        let ghost view = self@;
        let mut implied_assets: Vec<Asset> = Vec::new();
        let mut i: usize = 0;
        assert(asset_views(implied_assets@) =~= Seq::empty());
        while i < self.targets.len()
            invariant
                view == self@,
                view.can_imply_all(),
                i <= self.targets@.len(),
                asset_views(implied_assets@) == view.implied_assets(i as nat),
            decreases self.targets@.len() - i,
        {
            let ghost before = asset_views(implied_assets@);
            assert(view.targets[i as int] == self.targets@[i as int]@);
            if let Some(a) = self.implied_asset(&self.targets[i]) {
                implied_assets.push(a);
                assert(asset_views(implied_assets@) =~= before.push(a@));
            }
            i += 1;
        }
        assert(view.targets.len() == self.targets@.len());
        if let Some(readme_rel_path) = readme {
            let path = join(self.manifest_dir, readme_rel_path.as_str());
            let name = match file_name(path.as_str()) {
                Some(name) => name,
                None => return Err(CargoDebError::Str("bad README path")),
            };
            let doc = join("usr/share/doc", package);
            let target_path = join(doc.as_str(), name.as_str());
            proof {
                lemma_name_of(path@);
            }
            let ghost before = asset_views(implied_assets@);
            let a = Asset::new(AssetSource::Path(path), target_path, 0o644, IsBuilt::No, false);
            implied_assets.push(a);
            assert(asset_views(implied_assets@) =~= before.push(a@));
        }
        Ok(implied_assets)
    }
}

/// A target can be packaged if its name is that of a file: not empty, and without a slash at
/// its end.
pub proof fn law_named_targets_can_be_packaged(view: LayoutView, t: TargetView)
    requires
        t.name.len() > 0,
        t.name.last() != '/',
        view.dll_suffix.len() > 0 ==> view.dll_suffix.last() != '/',
    ensures
        view.can_imply(t),
{
    let lib = view.library_name(t.name);
    if view.dll_suffix.len() > 0 {
        assert(lib.last() == view.dll_suffix.last());
    } else {
        assert(lib.last() == t.name.last());
    }
}

/// `target/release` stands for the directory of the profile that is built, whichever that is:
/// a source below it is looked for there, and has to be built.
pub proof fn law_release_is_any_profile(view: LayoutView, source: Seq<char>)
    requires
        path_starts_with(source, "target/release"@),
    ensures
        view.locate(source).0 != IsBuilt::No,
        view.locate(source).1 == path_join(
            path_join(view.target_dir, profile_dir(view.profile)),
            path_strip_prefix(source, "target/release"@)->0,
        ),
{
}

/// Nothing is read, and nothing said, behind an asset that cannot be read.
proof fn lemma_read_assets_stops(view: LayoutView, list: Seq<Seq<Seq<char>>>, n: int)
    requires
        0 <= n <= list.len(),
        view.read_assets(list.take(n)) is Err,
    ensures
        view.read_assets(list) == view.read_assets(list.take(n)),
        view.asset_notices(list) == view.asset_notices(list.take(n)),
    decreases list.len() - n,
{
    if n == list.len() {
        assert(list.take(n) =~= list);
    } else {
        assert(list.take(n + 1).drop_last() =~= list.take(n));
        lemma_read_assets_stops(view, list, n + 1);
        assert(view.asset_notices(list.take(n)) + Seq::empty() =~= view.asset_notices(
            list.take(n),
        ));
    }
}

} // verus!
