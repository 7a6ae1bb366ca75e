//! The assets that are not named in the manifest: the copyright file, the changelog and systemd
//! units.

use vstd::prelude::*;
use vstd::string::*;
use vstd::utf8::*;
use crate::asset::{
    asset_views, can_place, names_directory, new_asset, source_at, Asset, AssetSource,
    AssetView, DiskStatus, IsBuilt, ProcessedView, SourceView,
};
use crate::config::Config;
use crate::error::{fails_with, Attempt, CDResult, CargoDebError, ErrorView};
use crate::manifest::SystemdUnitsConfig;
use crate::package::copyright_text;
use crate::path::{extension, extension_of, join, path_join, rooted};
use crate::text::{opt_text, same_text};

verus! {

/// Where a changelog is read from.
#[derive(Debug, Clone)]
pub struct ChangelogSource {
    pub path: String,
    /// Whether the file is compressed already, and taken as it is.
    pub compressed: bool,
}

/// What came of reading a changelog and, unless it is compressed already or could not be read,
/// of compressing what was read.
#[derive(Debug)]
pub struct ChangelogRead {
    pub content: Attempt<Vec<u8>>,
    pub gzipped: Option<Attempt<Vec<u8>>>,
}

/// The file is compressed already, by its extension.
pub open spec fn is_compressed(path: Seq<char>) -> bool {
    extension_of(path) == Some("gz"@)
}

/// The contents of the changelog in the package: those of the file where it is compressed
/// already, else what they were compressed to.
pub open spec fn changelog_contents(path: Seq<char>, read: ChangelogRead) -> Attempt<Vec<u8>> {
    match read.content {
        Err(e) => Err(e),
        Ok(content) => if is_compressed(path) {
            Ok(content)
        } else {
            read.gzipped->0
        },
    }
}

/// A search for systemd units.
#[derive(Debug, Clone)]
pub struct UnitSearch {
    /// The directory to search in.
    pub search_path: String,
    /// The package whose units are looked for.
    pub package: String,
    pub unit_name: Option<String>,
}

/// A search for systemd units, with its texts as sequences.
pub struct SearchView {
    pub search_path: Seq<char>,
    pub package: Seq<char>,
    pub unit_name: Option<Seq<char>>,
}

impl View for UnitSearch {
    type V = SearchView;

    open spec fn view(&self) -> SearchView {
        SearchView {
            search_path: self.search_path@,
            package: self.package@,
            unit_name: opt_text(self.unit_name),
        }
    }
}

/// The views of a list of searches for systemd units.
pub open spec fn unit_search_views(list: Seq<UnitSearch>) -> Seq<SearchView> {
    list.map_values(|s: UnitSearch| s@)
}

/// A systemd unit that was found, and the place where it is installed.
#[derive(Debug, Clone)]
pub struct FoundUnit {
    pub source: String,
    pub disk: DiskStatus,
    pub target_path: String,
    pub mode: u32,
}

/// A systemd unit that was found, with its paths as sequences.
pub struct UnitView {
    pub source: Seq<char>,
    pub disk: DiskStatus,
    pub target_path: Seq<char>,
    pub mode: u32,
}

impl View for FoundUnit {
    type V = UnitView;

    open spec fn view(&self) -> UnitView {
        UnitView {
            source: self.source@,
            disk: self.disk,
            target_path: self.target_path@,
            mode: self.mode,
        }
    }
}

/// The views of a list of units.
pub open spec fn unit_views(list: Seq<FoundUnit>) -> Seq<UnitView> {
    list.map_values(|u: FoundUnit| u@)
}

/// The units of several searches, in one list.
pub open spec fn all_units(found: Seq<Vec<FoundUnit>>) -> Seq<UnitView>
    decreases found.len(),
{
    if found.len() == 0 {
        Seq::empty()
    } else {
        all_units(found.drop_last()) + unit_views(found.last()@)
    }
}

/// The directory that a way to install systemd units takes them from.
pub open spec fn units_dir(
    config: SystemdUnitsConfig,
    maintainer_scripts: Option<Seq<char>>,
) -> Option<Seq<char>> {
    match config.unit_scripts {
        Some(dir) => Some(dir@),
        None => maintainer_scripts,
    }
}

/// The searches for the units of the given ways to install them.
pub open spec fn searches_of(
    manifest_dir: Seq<char>,
    package: Seq<char>,
    maintainer_scripts: Option<Seq<char>>,
    configs: Seq<SystemdUnitsConfig>,
) -> Seq<SearchView>
    decreases configs.len(),
{
    if configs.len() == 0 {
        Seq::empty()
    } else {
        let front = searches_of(manifest_dir, package, maintainer_scripts, configs.drop_last());
        match units_dir(configs.last(), maintainer_scripts) {
            Some(dir) => front.push(
                SearchView {
                    search_path: path_join(manifest_dir, dir),
                    package,
                    unit_name: opt_text(configs.last().unit_name),
                },
            ),
            None => front,
        }
    }
}

/// The asset that a unit is made.
pub open spec fn unit_asset(u: UnitView, preserve_symlinks: bool) -> AssetView {
    new_asset(
        source_at(u.source, preserve_symlinks, u.disk),
        u.target_path,
        u.mode,
        IsBuilt::No,
        false,
    )
}

/// The unit can be made an asset.
pub open spec fn can_install(u: UnitView, preserve_symlinks: bool) -> bool {
    can_place(source_at(u.source, preserve_symlinks, u.disk), u.target_path)
}

/// The assets that units are made.
pub open spec fn unit_assets(list: Seq<UnitView>, preserve_symlinks: bool) -> Seq<AssetView> {
    list.map_values(|u: UnitView| unit_asset(u, preserve_symlinks))
}

/// The place of a file of the documentation of a package.
pub open spec fn doc_path(deb_name: Seq<char>, file: Seq<char>) -> Seq<char> {
    path_join(path_join("usr/share/doc"@, deb_name), file)
}

/// The asset for a file of the documentation that was generated.
pub open spec fn generated_asset(
    deb_name: Seq<char>,
    file: Seq<char>,
    bytes: Seq<u8>,
    source_path: Seq<char>,
) -> AssetView {
    AssetView {
        processed_from: Some(
            ProcessedView { original_path: Some(source_path), action: "generated"@ },
        ),
        ..new_asset(
            SourceView::Data(bytes),
            doc_path(deb_name, file),
            0o644,
            IsBuilt::No,
            false,
        )
    }
}

/// The files of the documentation are installed in the directory that is named after the
/// package.
pub proof fn law_doc_path(deb_name: Seq<char>, file: Seq<char>, bytes: Seq<u8>, source: Seq<char>)
    requires
        deb_name.len() > 0,
        !rooted(deb_name),
        !names_directory(deb_name),
        file.len() > 0,
        !rooted(file),
        !names_directory(file),
    ensures
        generated_asset(deb_name, file, bytes, source).c.target_path == "usr/share/doc/"@ + deb_name
            + "/"@ + file,
{
    reveal_strlit("usr/share/doc");
    reveal_strlit("usr/share/doc/");
    reveal_strlit("/");
    assert(path_join("usr/share/doc"@, deb_name) =~= "usr/share/doc/"@ + deb_name);
    assert(doc_path(deb_name, file) =~= "usr/share/doc/"@ + deb_name + "/"@ + file);
}

/// Makes the asset for a file of the documentation.
fn make_generated_asset(
    deb_name: &str,
    file: &str,
    bytes: Vec<u8>,
    source_path: String,
) -> (r: Asset)
    requires
        file@.len() > 0,
        file@.last() != '/',
    ensures
        r@ == generated_asset(deb_name@, file@, bytes@, source_path@),
{
    let target_path = join(join("usr/share/doc", deb_name).as_str(), file);
    let asset = Asset::new(AssetSource::Data(bytes), target_path, 0o644, IsBuilt::No, false);
    asset.processed("generated", Some(source_path))
}

impl Config {
    /// The path that the copyright file is said to come from.
    pub open spec fn copyright_source(self) -> Seq<char> {
        match self.deb.license_file {
            Some(path) => path_join(self.package_manifest_dir@, path@),
            None => "Cargo.toml"@,
        }
    }

    /// The searches for systemd units.
    pub open spec fn unit_searches(self) -> Seq<SearchView> {
        match self.deb.systemd_units {
            Some(configs) => searches_of(
                self.package_manifest_dir@,
                self.deb.name@,
                opt_text(self.deb.maintainer_scripts),
                configs@,
            ),
            None => Seq::empty(),
        }
    }

    /// Assets were added behind those that there were, and nothing else was changed.
    pub open spec fn gained(self, before: Config, added: Seq<AssetView>) -> bool {
        let old_assets = before.deb.assets.resolved@;
        let new_assets = self.deb.assets.resolved@;
        &&& asset_views(new_assets) == asset_views(old_assets) + added
        &&& new_assets.len() >= old_assets.len()
        &&& new_assets.take(old_assets.len() as int) == old_assets
        &&& self.deb.assets.unresolved == before.deb.assets.unresolved
        &&& self == before.with_assets(self.deb.assets)
    }

    /// The license file to read for the copyright file.
    pub fn license_source(&self) -> (r: Option<String>)
        ensures
            opt_text(r) == (match self.deb.license_file {
                Some(path) => Some(path_join(self.package_manifest_dir@, path@)),
                None => None,
            }),
    {
        match &self.deb.license_file {
            Some(path) => Some(self.path_in_package(path.as_str())),
            None => None,
        }
    }

    /// What is to be said where the license file could not be read.
    pub open spec fn license_error(self, e: Seq<char>) -> ErrorView {
        ErrorView::IoFile("unable to read license file"@, e, self.deb.license_file->0@)
    }

    /// The asset for the copyright file, where `license` is what came of reading the license
    /// file.
    pub open spec fn copyright_asset(self, license: Option<Attempt<String>>) -> Result<
        AssetView,
        ErrorView,
    > {
        let text = match license {
            None => Ok(copyright_text(self.deb, None)),
            Some(Ok(file)) => Ok(copyright_text(self.deb, Some(file@))),
            Some(Err(e)) => Err(self.license_error(e@)),
        };
        match text {
            Ok(t) => Ok(
                generated_asset(
                    self.deb.deb_name@,
                    "copyright"@,
                    encode_utf8(t),
                    self.copyright_source(),
                ),
            ),
            Err(e) => Err(e),
        }
    }

    /// Generates the copyright file from the license file, where there is one. `license` is
    /// what came of reading it.
    pub fn generate_copyright_asset(&self, license: Option<Attempt<String>>) -> (r: CDResult<
        (String, Vec<u8>),
    >)
        requires
            license is Some <==> self.deb.license_file is Some,
        ensures
            match license {
                Some(Err(e)) => fails_with(r, self.license_error(e@)),
                Some(Ok(file)) => r matches Ok(p) && p.0@ == self.copyright_source() && p.1@
                    == encode_utf8(copyright_text(self.deb, Some(file@))),
                None => r matches Ok(p) && p.0@ == self.copyright_source() && p.1@ == encode_utf8(
                    copyright_text(self.deb, None),
                ),
            },
    {
        let source_path = match self.license_source() {
            Some(path) => path,
            None => "Cargo.toml".to_owned(),
        };
        let copyright = match (&self.deb.license_file, license) {
            (Some(_), Some(Ok(license_string))) => self.deb.copyright_file(Some(&license_string))?,
            (Some(path), Some(Err(e))) => return Err(
                CargoDebError::IoFile("unable to read license file", e, path.clone()),
            ),
            _ => self.deb.copyright_file(None)?,
        };
        Ok((source_path, copyright))
    }

    /// Adds the copyright file. `license` is what came of reading the license file, where there
    /// is one.
    pub fn add_copyright_asset(&mut self, license: Option<Attempt<String>>) -> (r: CDResult<()>)
        requires
            license is Some <==> old(self).deb.license_file is Some,
        ensures
            match old(self).copyright_asset(license) {
                Ok(a) => r is Ok && final(self).gained(*old(self), seq![a]),
                Err(e) => fails_with(r, e) && *final(self) == *old(self),
            },
    {
        let ghost before = self.deb.assets.resolved@;
        let (source_path, copyright_file) = self.generate_copyright_asset(license)?;
        proof {
            reveal_strlit("copyright");
        }
        let asset = make_generated_asset(
            self.deb.deb_name.as_str(),
            "copyright",
            copyright_file,
            source_path,
        );
        self.deb.assets.resolved.push(asset);
        assert(asset_views(self.deb.assets.resolved@) =~= asset_views(before) + seq![asset@]);
        assert(self.deb.assets.resolved@.take(before.len() as int) =~= before);
        Ok(())
    }

    /// The changelog to read, where there is one.
    pub fn changelog_source(&self) -> (r: Option<ChangelogSource>)
        ensures
            match r {
                Some(s) => {
                    &&& self.deb.changelog is Some
                    &&& s.path@ == self.changelog_path()
                    &&& s.compressed == is_compressed(s.path@)
                },
                None => self.deb.changelog is None,
            },
    {
        match &self.deb.changelog {
            Some(path) => {
                let path = self.path_in_package(path.as_str());
                // allow pre-compressed
                let compressed = match extension(path.as_str()) {
                    Some(e) => same_text(e.as_str(), "gz"),
                    None => false,
                };
                Some(ChangelogSource { path, compressed })
            },
            None => None,
        }
    }

    /// The path of the changelog.
    pub open spec fn changelog_path(self) -> Seq<char> {
        path_join(self.package_manifest_dir@, self.deb.changelog->0@)
    }

    /// What was read fits the changelog: it is there if and only if there is a changelog, and
    /// what is not compressed yet was compressed.
    pub open spec fn changelog_fits(self, changelog: Option<ChangelogRead>) -> bool {
        match changelog {
            Some(read) => self.deb.changelog is Some && (read.content is Ok && !is_compressed(
                self.changelog_path(),
            ) ==> read.gzipped is Some),
            None => self.deb.changelog is None,
        }
    }

    /// The assets for the changelog, of which there may be none, where `changelog` is what came
    /// of reading and compressing it.
    pub open spec fn changelog_assets(self, changelog: Option<ChangelogRead>) -> Result<
        Seq<AssetView>,
        ErrorView,
    > {
        match changelog {
            None => Ok(Seq::empty()),
            Some(read) => match changelog_contents(self.changelog_path(), read) {
                Ok(bytes) => Ok(
                    seq![
                        generated_asset(
                            self.deb.deb_name@,
                            "changelog.Debian.gz"@,
                            bytes@,
                            self.changelog_path(),
                        ),
                    ],
                ),
                Err(e) => Err(
                    ErrorView::IoFile("unable to read changelog file"@, e@, self.changelog_path()),
                ),
            },
        }
    }

    /// The compressed changelog and its path. `changelog` is what came of reading and
    /// compressing it, where there is one.
    pub fn generate_changelog_asset(&self, changelog: Option<ChangelogRead>) -> (r: CDResult<
        Option<(String, Vec<u8>)>,
    >)
        requires
            self.changelog_fits(changelog),
        ensures
            match changelog {
                None => r == Ok::<Option<(String, Vec<u8>)>, CargoDebError>(None),
                Some(read) => match changelog_contents(self.changelog_path(), read) {
                    Ok(bytes) => r matches Ok(Some(p)) && p.0@ == self.changelog_path() && p.1
                        == bytes,
                    Err(e) => fails_with(
                        r,
                        ErrorView::IoFile(
                            "unable to read changelog file"@,
                            e@,
                            self.changelog_path(),
                        ),
                    ),
                },
            },
    {
        match (self.changelog_source(), changelog) {
            (Some(source), Some(read)) => {
                let contents = match (read.content, read.gzipped) {
                    (Err(e), _) => Err(e),
                    // allow pre-compressed
                    (Ok(content), None) => Ok(content),
                    (Ok(content), Some(gzipped)) => if source.compressed {
                        Ok(content)
                    } else {
                        // The input is plaintext, but the debian package should contain gzipped one.
                        gzipped
                    },
                };
                match contents {
                    Ok(changelog) => Ok(Some((source.path, changelog))),
                    Err(e) => Err(
                        CargoDebError::IoFile("unable to read changelog file", e, source.path),
                    ),
                }
            },
            _ => Ok(None),
        }
    }

    /// Adds the changelog. `changelog` is what came of reading and compressing it, where there
    /// is one.
    pub fn add_changelog_asset(&mut self, changelog: Option<ChangelogRead>) -> (r: CDResult<()>)
        requires
            old(self).changelog_fits(changelog),
        ensures
            match old(self).changelog_assets(changelog) {
                Ok(added) => r is Ok && final(self).gained(*old(self), added),
                Err(e) => fails_with(r, e) && *final(self) == *old(self),
            },
    {
        let ghost before = self.deb.assets.resolved@;
        assert(before.take(before.len() as int) =~= before);
        assert(asset_views(before) + Seq::empty() =~= asset_views(before));
        if let Some((source_path, changelog_file)) = self.generate_changelog_asset(changelog)? {
            proof {
                reveal_strlit("changelog.Debian.gz");
            }
            let asset = make_generated_asset(
                self.deb.deb_name.as_str(),
                "changelog.Debian.gz",
                changelog_file,
                source_path,
            );
            self.deb.assets.resolved.push(asset);
            assert(asset_views(self.deb.assets.resolved@) =~= asset_views(before) + seq![asset@]);
            assert(self.deb.assets.resolved@.take(before.len() as int) =~= before);
        }
        Ok(())
    }

    /// The searches to make for systemd units.
    pub fn systemd_searches(&self) -> (r: Vec<UnitSearch>)
        ensures
            unit_search_views(r@) == self.unit_searches(),
    {
        let mut r: Vec<UnitSearch> = Vec::new();
        assert(unit_search_views(r@) =~= Seq::empty());
        if let Some(config_vec) = &self.deb.systemd_units {
            let mut i: usize = 0;
            assert(config_vec@.take(0) =~= Seq::empty());
            while i < config_vec.len()
                invariant
                    i <= config_vec@.len(),
                    unit_search_views(r@) == searches_of(
                        self.package_manifest_dir@,
                        self.deb.name@,
                        opt_text(self.deb.maintainer_scripts),
                        config_vec@.take(i as int),
                    ),
                decreases config_vec@.len() - i,
            {
                let ghost before = unit_search_views(r@);
                let config = &config_vec[i];
                assert(config_vec@.take(i + 1).drop_last() =~= config_vec@.take(i as int));
                assert(config_vec@.take(i + 1).last() == *config);
                let unit_dir = match &config.unit_scripts {
                    Some(dir) => Some(dir),
                    None => match &self.deb.maintainer_scripts {
                        Some(dir) => Some(dir),
                        None => None,
                    },
                };
                if let Some(unit_dir) = unit_dir {
                    let search = UnitSearch {
                        search_path: self.path_in_package(unit_dir.as_str()),
                        package: self.deb.name.clone(),
                        unit_name: match &config.unit_name {
                            Some(name) => Some(name.clone()),
                            None => None,
                        },
                    };
                    r.push(search);
                    assert(unit_search_views(r@) =~= before.push(search@));
                }
                i += 1;
            }
            assert(config_vec@.take(i as int) =~= config_vec@);
        }
        r
    }

    /// Adds the systemd units that were found: `found` holds, for each of the searches to make,
    /// those that it found.
    pub fn add_systemd_assets(&mut self, found: Vec<Vec<FoundUnit>>) -> (r: CDResult<()>)
        requires
            found@.len() == old(self).unit_searches().len(),
            forall|i: int|
                0 <= i < all_units(found@).len() ==> can_install(
                    #[trigger] all_units(found@)[i],
                    old(self).deb.preserve_symlinks,
                ),
        ensures
            r is Ok,
            final(self).gained(
                *old(self),
                unit_assets(all_units(found@), old(self).deb.preserve_symlinks),
            ),
    {
        let preserve_symlinks = self.deb.preserve_symlinks;
        let ghost start = *self;
        let ghost before = self.deb.assets.resolved@;
        let ghost all = all_units(found@);
        assert(before.take(before.len() as int) =~= before);
        assert(asset_views(before) + unit_assets(all_units(found@.take(0)), preserve_symlinks)
            =~= asset_views(before));
        let mut i: usize = 0;
        while i < found.len()
            invariant
                i <= found@.len(),
                all == all_units(found@),
                preserve_symlinks == start.deb.preserve_symlinks,
                forall|k: int|
                    0 <= k < all.len() ==> can_install(#[trigger] all[k], preserve_symlinks),
                self.gained(
                    start,
                    unit_assets(all_units(found@.take(i as int)), preserve_symlinks),
                ),
            decreases found@.len() - i,
        {
            let units = &found[i];
            let ghost sofar = all_units(found@.take(i as int));
            let ghost these = unit_views(units@);
            assert(found@.take(i + 1).drop_last() =~= found@.take(i as int));
            assert(found@.take(i + 1).last() == *units);
            proof {
                lemma_all_units_prefix(found@, i + 1);
            }
            let mut k: usize = 0;
            assert(sofar + these.take(0) =~= sofar);
            while k < units.len()
                invariant
                    k <= units@.len(),
                    these == unit_views(units@),
                    preserve_symlinks == start.deb.preserve_symlinks,
                    forall|j: int|
                        0 <= j < all.len() ==> can_install(#[trigger] all[j], preserve_symlinks),
                    sofar.len() + these.len() <= all.len(),
                    all.take((sofar.len() + these.len()) as int) == sofar + these,
                    self.gained(
                        start,
                        unit_assets(sofar + these.take(k as int), preserve_symlinks),
                    ),
                decreases units@.len() - k,
            {
                let ghost held = self.deb.assets.resolved@;
                let unit = &units[k];
                assert(these[k as int] == unit@);
                assert((sofar + these)[sofar.len() + k] == unit@);
                assert(all[(sofar.len() + k) as int] == all.take(
                    (sofar.len() + these.len()) as int,
                )[(sofar.len() + k) as int]);
                let asset = Asset::new(
                    AssetSource::from_path(unit.source.clone(), preserve_symlinks, unit.disk),
                    unit.target_path.clone(),
                    unit.mode,
                    IsBuilt::No,
                    false,
                );
                self.deb.assets.resolved.push(asset);
                k += 1;
                assert(sofar + these.take(k as int) =~= (sofar + these.take(k - 1)).push(unit@));
                assert(asset_views(self.deb.assets.resolved@) =~= asset_views(held).push(asset@));
                assert(asset_views(self.deb.assets.resolved@) =~= asset_views(
                    start.deb.assets.resolved@,
                ) + unit_assets(sofar + these.take(k as int), preserve_symlinks));
                assert(self.deb.assets.resolved@.take(start.deb.assets.resolved@.len() as int)
                    =~= held.take(start.deb.assets.resolved@.len() as int));
            }
            assert(these.take(k as int) =~= these);
            i += 1;
        }
        assert(found@.take(i as int) =~= found@);
        Ok(())
    }

    /// All assets that are generated, up to what could not be read.
    pub open spec fn generated_assets(
        self,
        license: Option<Attempt<String>>,
        changelog: Option<ChangelogRead>,
        units: Seq<UnitView>,
    ) -> (Seq<AssetView>, Option<ErrorView>) {
        match (self.copyright_asset(license), self.changelog_assets(changelog)) {
            (Err(e), _) => (Seq::empty(), Some(e)),
            (Ok(a), Err(e)) => (seq![a], Some(e)),
            (Ok(a), Ok(list)) => (
                seq![a] + list + unit_assets(units, self.deb.preserve_symlinks),
                None,
            ),
        }
    }

    /// Adds the copyright file, the changelog and systemd units to the assets of a
    /// configuration that was made from a manifest. What comes behind a file that could not be
    /// read is not asked for.
    pub fn add_generated_assets(
        &mut self,
        license: Option<Attempt<String>>,
        changelog: Option<ChangelogRead>,
        found: Vec<Vec<FoundUnit>>,
    ) -> (r: CDResult<()>)
        requires
            license is Some <==> old(self).deb.license_file is Some,
            old(self).copyright_asset(license) is Ok ==> old(self).changelog_fits(changelog),
            old(self).copyright_asset(license) is Ok && old(self).changelog_assets(
                changelog,
            ) is Ok ==> {
                &&& found@.len() == old(self).unit_searches().len()
                &&& forall|i: int|
                    0 <= i < all_units(found@).len() ==> can_install(
                        #[trigger] all_units(found@)[i],
                        old(self).deb.preserve_symlinks,
                    )
            },
        ensures
            ({
                let (added, error) = old(self).generated_assets(
                    license,
                    changelog,
                    all_units(found@),
                );
                &&& (match r {
                    Ok(_) => error is None,
                    Err(e) => error == Some(e@),
                })
                &&& final(self).gained(*old(self), added)
            }),
    {
        let ghost start = *self;
        assert(start.gained(start, Seq::empty())) by {
            let held = start.deb.assets.resolved@;
            assert(held.take(held.len() as int) =~= held);
            assert(asset_views(held) + Seq::empty() =~= asset_views(held));
        }
        self.add_copyright_asset(license)?;
        let ghost first = *self;
        let ghost copyright = seq![start.copyright_asset(license)->Ok_0];
        self.add_changelog_asset(changelog)?;
        let ghost second = *self;
        let ghost log = start.changelog_assets(changelog)->Ok_0;
        proof {
            lemma_gained_twice(start, first, second, copyright, log);
        }
        self.add_systemd_assets(found)?;
        proof {
            lemma_gained_twice(
                start,
                second,
                *self,
                copyright + log,
                unit_assets(all_units(found@), start.deb.preserve_symlinks),
            );
        }
        Ok(())
    }
}

/// What is gained in two steps is gained.
proof fn lemma_gained_twice(
    a: Config,
    b: Config,
    c: Config,
    first: Seq<AssetView>,
    second: Seq<AssetView>,
)
    requires
        b.gained(a, first),
        c.gained(b, second),
    ensures
        c.gained(a, first + second),
{
    let x = a.deb.assets.resolved@;
    let y = b.deb.assets.resolved@;
    let z = c.deb.assets.resolved@;
    assert(z.take(x.len() as int) =~= z.take(y.len() as int).take(x.len() as int));
    assert(asset_views(z) =~= asset_views(x) + (first + second));
}

/// The units of the first searches come first.
proof fn lemma_all_units_prefix(found: Seq<Vec<FoundUnit>>, n: int)
    requires
        0 <= n <= found.len(),
    ensures
        all_units(found.take(n)).len() <= all_units(found).len(),
        all_units(found).take(all_units(found.take(n)).len() as int) == all_units(found.take(n)),
    decreases found.len() - n,
{
    if n == found.len() {
        assert(found.take(n) =~= found);
        assert(all_units(found).take(all_units(found).len() as int) =~= all_units(found));
    } else {
        lemma_all_units_prefix(found, n + 1);
        assert(found.take(n + 1).drop_last() =~= found.take(n));
        let a = all_units(found.take(n));
        let b = all_units(found.take(n + 1));
        assert(all_units(found).take(a.len() as int) =~= b.take(a.len() as int));
        assert(b.take(a.len() as int) =~= a);
    }
}

/// Without a configuration of systemd units nothing is searched for, and so nothing is added.
pub proof fn law_no_systemd_config(config: Config, found: Seq<Vec<FoundUnit>>)
    requires
        config.deb.systemd_units is None,
        found.len() == config.unit_searches().len(),
    ensures
        all_units(found).len() == 0,
{
}

} // verus!
