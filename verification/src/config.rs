//! The configuration of a package and of its build.

use vstd::prelude::*;
use vstd::string::*;
use crate::asset::{asset_views, unresolved_views, AssetView, Assets, Platform, UnresolvedView};
use crate::dependency::{
    all_chosen, all_warnings, answer_views, answers_fit, collect_dependencies,
    dependency_requests, distinct, request_views, requests_of, DependencyAnswer,
    DependencyRequest,
};
use crate::error::{fails_with, Attempt, CDResult, CargoDebError, ErrorView};
use crate::layout::{entry_views, join_in_build, path_in_build, BuildLayout, LayoutView};
use crate::manifest::{
    check_notices, choose_debug_symbols, conffiles, debian_package_name, description_file,
    description_from, extended_description_file, format_conffiles, manifest_check_config,
    manifest_extended_description, notice_views, package_name, setting, symbol_notices, symbols,
    target_views,
    CargoDeb, CargoMetadataTarget, DebugSymbols, ManifestPackage, Notice, NoticeView,
    SystemUnitsSingleOrMultiple, SystemdUnitsConfig,
};
use crate::package::{binary_paths, filename_pattern, Package};
use crate::path::{join, path_join, path_pop, pop};
use crate::text::{ends_with_char, join_texts, joined, opt_text, same_text, texts};

verus! {

#[derive(Debug)]
#[non_exhaustive]
/// Cargo deb configuration read from the manifest and cargo metadata
pub struct Config {
    /// Directory where `Cargo.toml` is located. It's a subdirectory in workspaces.
    pub package_manifest_dir: String,
    /// User-configured output path for *.deb
    pub deb_output_path: Option<String>,
    /// Triple. `None` means current machine architecture.
    pub target: Option<String>,
    /// `CARGO_TARGET_DIR`
    pub target_dir: String,
    /// List of Cargo features to use during build
    pub features: Vec<String>,
    pub default_features: bool,
    /// Should the binary be stripped from debug symbols?
    pub debug_symbols: DebugSymbols,
    pub deb: Package,
}

/// A manifest, and what Cargo tells of its build.
#[derive(Debug)]
pub struct ManifestFound {
    pub targets: Vec<CargoMetadataTarget>,
    pub manifest_path: String,
    pub target_dir: String,
    pub package: Option<ManifestPackage>,
    /// Whether the release profile of the manifest asks for debug symbols.
    pub debug_flag: bool,
    /// Whether that of the manifest of the workspace does, where there is one.
    pub root_debug_flag: Option<bool>,
    pub default_timestamp: u64,
}

/// What is found out about a package besides its manifest.
#[derive(Debug)]
pub struct ManifestExtras {
    /// The version of the package, with its revision.
    pub version: String,
    /// The name that Debian has for the architecture of the target.
    pub architecture: String,
    /// The license file, where there is one, and the number of its lines to skip; or why the
    /// settings for it cannot be used.
    pub license: CDResult<(Option<String>, usize)>,
    /// What came of reading the file with the extended description, where that is to be read.
    pub description_text: Option<Attempt<String>>,
    /// The names of the files next to the manifest.
    pub existing_files: Vec<String>,
}

/// The name of a package, or of its variant.
pub open spec fn variant_name(name: Seq<char>, variant: Option<Seq<char>>) -> Seq<char> {
    match variant {
        Some(v) => name + "-"@ + v,
        None => name,
    }
}

/// The first value that there is, as text.
pub open spec fn text_or(value: Option<String>, default: Seq<char>) -> Seq<char> {
    match value {
        Some(v) => v@,
        None => default,
    }
}

/// The systemd units of a manifest as a list.
pub open spec fn unit_list(units: Option<SystemUnitsSingleOrMultiple>) -> Option<
    Seq<SystemdUnitsConfig>,
> {
    match units {
        None => None,
        Some(SystemUnitsSingleOrMultiple::Single(s)) => Some(seq![s]),
        Some(SystemUnitsSingleOrMultiple::Multi(v)) => Some(v@),
    }
}

/// All but the assets of the package is what the manifest says.
pub open spec fn package_from(
    p: Package,
    m: ManifestPackage,
    deb: CargoDeb,
    extras: ManifestExtras,
    variant: Option<Seq<char>>,
    deb_version: Option<String>,
    default_timestamp: u64,
) -> bool {
    &&& p.default_timestamp == default_timestamp
    &&& p.name@ == variant_name(m.name@, variant)
    &&& p.deb_name@ == text_or(deb.name, package_name(p.name@))
    &&& p.deb_version@ == text_or(deb_version, extras.version@)
    &&& p.license == m.license
    &&& extras.license == Ok::<(Option<String>, usize), CargoDebError>(
        (p.license_file, p.license_file_skip_lines),
    )
    &&& p.copyright@ == text_or(deb.copyright, joined(texts(m.authors@), ", "@))
    &&& p.homepage == m.homepage
    &&& p.documentation == m.documentation
    &&& p.repository == m.repository
    &&& p.description@ == text_or(
        m.description,
        "[generated from Rust crate "@ + p.name@ + "]"@,
    )
    &&& p.maintainer@ == text_or(deb.maintainer, m.authors@[0]@)
    &&& p.depends@ == text_or(deb.depends, "$auto"@)
    &&& p.pre_depends == deb.pre_depends
    &&& p.recommends == deb.recommends
    &&& p.suggests == deb.suggests
    &&& p.enhances == deb.enhances
    &&& p.conflicts == deb.conflicts
    &&& p.breaks == deb.breaks
    &&& p.replaces == deb.replaces
    &&& p.provides == deb.provides
    &&& p.section == deb.section
    &&& p.priority@ == text_or(deb.priority, "optional"@)
    &&& p.architecture == extras.architecture
    &&& opt_text(p.conf_files) == (match deb.conf_files {
        Some(files) => Some(conffiles(texts(files@))),
        None => None,
    })
    &&& p.triggers_file == deb.triggers_file
    &&& p.changelog == deb.changelog
    &&& p.maintainer_scripts == deb.maintainer_scripts
    &&& p.preserve_symlinks == (deb.preserve_symlinks == Some(true))
    &&& (match p.systemd_units {
        Some(v) => Some(v@),
        None => None,
    }) == unit_list(deb.systemd_units)
}

/// The file from which the extended description of a package is to be read.
pub open spec fn description_source(found: ManifestFound, deb: CargoDeb) -> Option<Seq<char>> {
    match found.package {
        Some(m) => description_file(deb, m.readme, path_pop(found.manifest_path@)),
        None => None,
    }
}

/// The extended description of a package.
pub open spec fn description_of(
    found: ManifestFound,
    deb: CargoDeb,
    extras: ManifestExtras,
) -> Result<
    Option<Seq<char>>,
    ErrorView,
> {
    description_from(
        opt_text(deb.extended_description),
        description_source(found, deb),
        extras.description_text,
    )
}

/// Why a manifest cannot be used, apart from its assets.
pub open spec fn manifest_error(
    found: ManifestFound,
    deb: CargoDeb,
    extras: ManifestExtras,
) -> Option<
    ErrorView,
> {
    match (found.package, extras.license, description_of(found, deb, extras)) {
        (None, _, _) => Some(ErrorView::Str("bad package"@)),
        (_, Err(e), _) => Some(e@),
        (_, _, Err(e)) => Some(e),
        (Some(m), _, _) => if m.authors@.len() == 0 && deb.copyright is None {
            Some(ErrorView::Str("The package must have a copyright or authors property"@))
        } else if m.authors@.len() == 0 && deb.maintainer is None {
            Some(ErrorView::Str("The package must have a maintainer or authors property"@))
        } else {
            None
        },
    }
}

/// What there is to say about a manifest, if the settings for its license file can be used.
pub open spec fn package_notices(
    m: ManifestPackage,
    deb: CargoDeb,
    extras: ManifestExtras,
) -> Seq<NoticeView> {
    if extras.license is Ok {
        check_notices(m, deb, texts(extras.existing_files@))
    } else {
        Seq::empty()
    }
}

/// Notices in turn are notices behind one another.
proof fn lemma_notices_in_turn(
    said: Seq<NoticeView>,
    a: Seq<NoticeView>,
    b: Seq<NoticeView>,
    c: Seq<NoticeView>,
)
    ensures
        said + a + b + c == said + (a + b + c),
        said + a == said + (a + Seq::empty() + Seq::empty()),
        said + a + b == said + (a + b + Seq::empty()),
{
    assert(said + a + b + c =~= said + (a + b + c));
    assert(said + a =~= said + (a + Seq::empty() + Seq::empty()));
    assert(said + a + b =~= said + (a + b + Seq::empty()));
}

/// The assets of a manifest can be read without one that lacks a file name.
pub open spec fn assets_ready(layout: LayoutView, assets: Option<Vec<Vec<String>>>) -> bool {
    match assets {
        Some(list) => layout.have_file_names(entry_views(list@)),
        None => layout.can_imply_all(),
    }
}

/// The assets of a package, those still to be found first: what its manifest names, or else
/// what its targets build. A package without assets is not made.
pub open spec fn assets_from(
    layout: LayoutView,
    package: Seq<char>,
    readme: Option<Seq<char>>,
    assets: Option<Vec<Vec<String>>>,
) -> Result<(Seq<UnresolvedView>, Seq<AssetView>), ErrorView> {
    let found = match assets {
        Some(list) => match layout.read_assets(entry_views(list@)) {
            Ok(unresolved) => Ok((unresolved, Seq::<AssetView>::empty())),
            Err(e) => Err(e),
        },
        None => match layout.default_assets(package, readme) {
            Ok(resolved) => Ok((Seq::<UnresolvedView>::empty(), resolved)),
            Err(e) => Err(e),
        },
    };
    match found {
        Ok((unresolved, resolved)) => if unresolved.len() == 0 && resolved.len() == 0 {
            Err(
                ErrorView::Str(
                    "No binaries or cdylibs found. The package is empty. Please specify some assets to package in Cargo.toml"@,
                ),
            )
        } else {
            Ok((unresolved, resolved))
        },
        Err(e) => Err(e),
    }
}

/// What there is to say about the assets of a manifest.
pub open spec fn notices_from(layout: LayoutView, assets: Option<Vec<Vec<String>>>) -> Seq<
    NoticeView,
> {
    match assets {
        Some(list) => layout.asset_notices(entry_views(list@)),
        None => Seq::empty(),
    }
}

/// The assets are those that were found.
pub open spec fn assets_are(
    assets: Assets,
    found: Result<(Seq<UnresolvedView>, Seq<AssetView>), ErrorView>,
) -> bool {
    found == Ok::<(Seq<UnresolvedView>, Seq<AssetView>), ErrorView>(
        (unresolved_views(assets.unresolved@), asset_views(assets.resolved@)),
    )
}

/// A package that is made has some asset.
pub proof fn law_no_empty_package(
    layout: LayoutView,
    package: Seq<char>,
    readme: Option<Seq<char>>,
    given: Option<Vec<Vec<String>>>,
    assets: Assets,
)
    requires
        assets_are(assets, assets_from(layout, package, readme, given)),
    ensures
        assets.unresolved@.len() + assets.resolved@.len() > 0,
{
    assert(unresolved_views(assets.unresolved@).len() == assets.unresolved@.len());
    assert(asset_views(assets.resolved@).len() == assets.resolved@.len());
}

/// The name of the file that a package is written to.
pub open spec fn deb_filename(p: Package) -> Seq<char> {
    p.deb_name@ + "_"@ + p.deb_version@ + "_"@ + p.architecture@ + ".deb"@
}

/// The pattern of the file names of a package is the name of its file, with a star in place of
/// the version.
pub proof fn law_filename_matches_glob(p: Package)
    ensures
        ({
            let glob = filename_pattern(p);
            let n = (p.deb_name@.len() + 1) as int;
            &&& glob[n] == '*'
            &&& deb_filename(p) == glob.take(n) + p.deb_version@ + glob.skip(n + 1)
        }),
{
    reveal_strlit("_*_");
    reveal_strlit("_");
    let glob = filename_pattern(p);
    let n = (p.deb_name@.len() + 1) as int;
    assert(glob.take(n) =~= p.deb_name@ + "_"@);
    assert(glob.skip(n + 1) =~= "_"@ + p.architecture@ + ".deb"@);
    assert(deb_filename(p) =~= glob.take(n) + p.deb_version@ + glob.skip(n + 1));
}

/// The directory of the build, for a target other than the build machine one of its own.
pub open spec fn build_dir(target_dir: Seq<char>, target: Option<String>) -> Seq<char> {
    match target {
        Some(t) => path_join(target_dir, t@),
        None => target_dir,
    }
}

/// What decides on the place of the files of the build of a manifest.
pub open spec fn layout_of(
    found: ManifestFound,
    target: Option<String>,
    profile: Seq<char>,
    platform: Platform,
) -> LayoutView {
    LayoutView {
        manifest_dir: path_pop(found.manifest_path@),
        target_dir: build_dir(found.target_dir@, target),
        profile,
        dll_prefix: platform.dll_prefix@,
        dll_suffix: platform.dll_suffix@,
        exe_suffix: platform.exe_suffix@,
        targets: target_views(found.targets@),
    }
}

/// Debug symbols are asked for in what is built.
pub open spec fn debug_enabled(found: ManifestFound, profile: Seq<char>) -> bool {
    profile == "release"@ && (found.debug_flag || found.root_debug_flag == Some(true))
}

impl Config {
    /// What decides on the place of the files of the build.
    pub open spec fn layout(
        self,
        profile: Seq<char>,
        platform: Platform,
        targets: Seq<CargoMetadataTarget>,
    ) -> LayoutView {
        LayoutView {
            manifest_dir: self.package_manifest_dir@,
            target_dir: self.target_dir@,
            profile,
            dll_prefix: platform.dll_prefix@,
            dll_suffix: platform.dll_suffix@,
            exe_suffix: platform.exe_suffix@,
            targets: target_views(targets),
        }
    }

    /// The configuration with other assets.
    pub open spec fn with_assets(self, assets: Assets) -> Config {
        Config { deb: Package { assets, ..self.deb }, ..self }
    }

    /// Makes a new config from `Cargo.toml` and what was found out besides.
    ///
    /// `deb` is the section of the manifest about the package, that of the variant where one
    /// is asked for. `None` target means the host machine's architecture.
    ///
    /// The copyright file, the changelog and systemd units come with
    /// [`Config::add_generated_assets`], once the files that they are made from were read.
    pub fn from_manifest(
        found: ManifestFound,
        deb: CargoDeb,
        extras: ManifestExtras,
        deb_output_path: Option<String>,
        target: Option<String>,
        variant: Option<&str>,
        deb_version: Option<String>,
        listener: &mut Vec<Notice>,
        selected_profile: &str,
        separate_debug_symbols: Option<bool>,
        compress_debug_symbols: Option<bool>,
        platform: &Platform,
    ) -> (r: CDResult<Self>)
        requires
            extras.license is Ok && description_source(found, deb) is Some
                ==> extras.description_text is Some,
            manifest_error(found, deb, extras) is None ==> assets_ready(
                layout_of(found, target, selected_profile@, *platform),
                deb.assets,
            ),
        ensures
            ({
                let layout = layout_of(found, target, selected_profile@, *platform);
                let name = match variant {
                    Some(v) => Some(v@),
                    None => None,
                };
                let m = found.package->0;
                let assets = assets_from(
                    layout,
                    variant_name(m.name@, name),
                    opt_text(m.readme),
                    deb.assets,
                );
                match r {
                    Err(e) => match manifest_error(found, deb, extras) {
                        Some(f) => e@ == f,
                        None => assets == Err::<(Seq<UnresolvedView>, Seq<AssetView>), ErrorView>(
                            e@,
                        ),
                    },
                    Ok(c) => {
                        &&& manifest_error(found, deb, extras) is None
                        &&& c.package_manifest_dir@ == path_pop(found.manifest_path@)
                        &&& c.deb_output_path == deb_output_path
                        &&& c.target == target
                        &&& c.target_dir@ == build_dir(found.target_dir@, target)
                        &&& texts(c.features@) == (match deb.features {
                            Some(features) => texts(features@),
                            None => Seq::empty(),
                        })
                        &&& c.default_features == (deb.default_features != Some(false))
                        &&& c.debug_symbols == symbols(
                            setting(separate_debug_symbols, deb.separate_debug_symbols),
                            setting(compress_debug_symbols, deb.compress_debug_symbols),
                            debug_enabled(found, selected_profile@),
                        )
                        &&& package_from(
                            c.deb,
                            m,
                            deb,
                            extras,
                            name,
                            deb_version,
                            found.default_timestamp,
                        )
                        &&& description_of(found, deb, extras) == Ok::<
                            Option<Seq<char>>,
                            ErrorView,
                        >(opt_text(c.deb.extended_description))
                        &&& assets_are(c.deb.assets, assets)
                    },
                }
            }),
            notice_views(final(listener)@) == notice_views(old(listener)@) + (
            match found.package {
                None => Seq::empty(),
                Some(m) => symbol_notices(
                    setting(separate_debug_symbols, deb.separate_debug_symbols),
                    setting(compress_debug_symbols, deb.compress_debug_symbols),
                    debug_enabled(found, selected_profile@),
                ) + package_notices(m, deb, extras) + (if manifest_error(
                    found,
                    deb,
                    extras,
                ) is None {
                    notices_from(
                        layout_of(found, target, selected_profile@, *platform),
                        deb.assets,
                    )
                } else {
                    Seq::empty()
                }),
            }),
    {
        let ghost said = notice_views(listener@);
        assert(said + Seq::empty() =~= said);
        let package_manifest_dir = pop(found.manifest_path.as_str());
        // Cargo cross-compiles to a dir
        let target_dir = match &target {
            Some(target) => join(found.target_dir.as_str(), target.as_str()),
            None => found.target_dir.clone(),
        };
        let debug_enabled = if same_text(selected_profile, "release") {
            found.debug_flag || found.root_debug_flag.unwrap_or(false)
        } else {
            false
        };
        let package = match found.package {
            Some(package) => package,
            None => return Err(CargoDebError::Str("bad package")),
        };
        // If we build against a variant change the package name
        let mut name = package.name.clone();
        if let Some(variant) = variant {
            // Use dash as underscore is not allowed in package names
            name.append("-");
            name.append(variant);
        }
        let debug_symbols = choose_debug_symbols(
            separate_debug_symbols,
            compress_debug_symbols,
            &deb,
            debug_enabled,
            listener,
        );
        proof {
            lemma_notices_in_turn(
                said,
                symbol_notices(
                    setting(separate_debug_symbols, deb.separate_debug_symbols),
                    setting(compress_debug_symbols, deb.compress_debug_symbols),
                    debug_enabled,
                ),
                package_notices(package, deb, extras),
                notices_from(
                    layout_of(found, target, selected_profile@, *platform),
                    deb.assets,
                ),
            );
        }
        let (license_file, license_file_skip_lines) = match extras.license {
            Ok(license) => license,
            Err(e) => return Err(e),
        };
        manifest_check_config(&package, &deb, &extras.existing_files, listener);
        let extended_description_file = extended_description_file(
            &deb,
            &package.readme,
            package_manifest_dir.as_str(),
        );
        let extended_description = manifest_extended_description(
            deb.extended_description,
            extended_description_file,
            extras.description_text,
        )?;
        let deb_name = match deb.name {
            Some(deb_name) => deb_name,
            None => debian_package_name(name.as_str()),
        };
        let copyright = match deb.copyright {
            Some(copyright) => copyright,
            None => {
                if package.authors.len() == 0 {
                    return Err(
                        CargoDebError::Str("The package must have a copyright or authors property"),
                    );
                }
                join_texts(&package.authors, ", ")
            },
        };
        let description = match package.description {
            Some(description) => description,
            None => {
                let mut description = "[generated from Rust crate ".to_owned();
                description.append(name.as_str());
                description.append("]");
                description
            },
        };
        let maintainer = match deb.maintainer {
            Some(maintainer) => maintainer,
            None => {
                if package.authors.len() == 0 {
                    return Err(
                        CargoDebError::Str(
                            "The package must have a maintainer or authors property",
                        ),
                    );
                }
                package.authors[0].clone()
            },
        };
        let mut config = Self {
            package_manifest_dir,
            deb_output_path,
            target,
            target_dir,
            deb: Package {
                default_timestamp: found.default_timestamp,
                name,
                deb_name,
                deb_version: match deb_version {
                    Some(deb_version) => deb_version,
                    None => extras.version,
                },
                license: package.license,
                license_file,
                license_file_skip_lines,
                copyright,
                homepage: package.homepage,
                documentation: package.documentation,
                repository: package.repository,
                description,
                extended_description,
                maintainer,
                depends: match deb.depends {
                    Some(depends) => depends,
                    None => "$auto".to_owned(),
                },
                pre_depends: deb.pre_depends,
                recommends: deb.recommends,
                suggests: deb.suggests,
                enhances: deb.enhances,
                conflicts: deb.conflicts,
                breaks: deb.breaks,
                replaces: deb.replaces,
                provides: deb.provides,
                section: deb.section,
                priority: match deb.priority {
                    Some(priority) => priority,
                    None => "optional".to_owned(),
                },
                architecture: extras.architecture,
                conf_files: match deb.conf_files {
                    Some(files) => Some(format_conffiles(&files)),
                    None => None,
                },
                assets: Assets::new(),
                triggers_file: deb.triggers_file,
                changelog: deb.changelog,
                maintainer_scripts: deb.maintainer_scripts,
                preserve_symlinks: deb.preserve_symlinks.unwrap_or(false),
                systemd_units: match deb.systemd_units {
                    None => None,
                    Some(SystemUnitsSingleOrMultiple::Single(s)) => {
                        let mut v: Vec<SystemdUnitsConfig> = Vec::new();
                        v.push(s);
                        assert(v@ =~= seq![s]);
                        Some(v)
                    },
                    Some(SystemUnitsSingleOrMultiple::Multi(v)) => Some(v),
                },
            },
            features: match deb.features {
                Some(features) => features,
                None => Vec::new(),
            },
            default_features: deb.default_features.unwrap_or(true),
            debug_symbols,
        };
        assert(deb.features is None ==> texts(config.features@) =~= Seq::empty());
        let readme = package.readme;
        config.take_assets(
            &readme,
            &deb.assets,
            &found.targets,
            selected_profile,
            platform,
            listener,
        )?;
        Ok(config)
    }

    /// Finds the assets that the manifest names, or else those that the build makes.
    pub fn take_assets(
        &mut self,
        readme: &Option<String>,
        assets: &Option<Vec<Vec<String>>>,
        build_targets: &Vec<CargoMetadataTarget>,
        profile: &str,
        platform: &Platform,
        listener: &mut Vec<Notice>,
    ) -> (r: CDResult<()>)
        requires
            assets_ready(old(self).layout(profile@, *platform, build_targets@), *assets),
        ensures
            ({
                let layout = old(self).layout(profile@, *platform, build_targets@);
                let found = assets_from(layout, old(self).deb.name@, opt_text(*readme), *assets);
                &&& match r {
                    Ok(_) => {
                        &&& assets_are(final(self).deb.assets, found)
                        &&& *final(self) == old(self).with_assets(final(self).deb.assets)
                    },
                    Err(e) => {
                        &&& found == Err::<(Seq<UnresolvedView>, Seq<AssetView>), ErrorView>(e@)
                        &&& *final(self) == *old(self)
                    },
                }
                &&& notice_views(final(listener)@) == notice_views(old(listener)@) + notices_from(
                    layout,
                    *assets,
                )
            }),
    {
        let ghost said = notice_views(listener@);
        assert(said + Seq::empty() =~= said);
        let layout = BuildLayout {
            manifest_dir: self.package_manifest_dir.as_str(),
            target_dir: self.target_dir.as_str(),
            profile,
            platform,
            targets: build_targets,
        };
        assert(layout@ == self.layout(profile@, *platform, build_targets@));
        let assets = match assets {
            // Treat all explicit assets as unresolved until after the build step
            Some(list) => match layout.read_assets(list, listener) {
                Ok(unresolved_assets) => Assets::with_unresolved_assets(unresolved_assets),
                Err(e) => return Err(e),
            },
            None => match layout.default_assets(self.deb.name.as_str(), readme) {
                Ok(implied_assets) => Assets::with_resolved_assets(implied_assets),
                Err(e) => return Err(e),
            },
        };
        assert(unresolved_views(assets.unresolved@).len() == assets.unresolved@.len());
        assert(asset_views(assets.resolved@).len() == assets.resolved@.len());
        assert(assets.unresolved@.len() == 0 ==> unresolved_views(assets.unresolved@)
            =~= Seq::empty());
        assert(assets.resolved@.len() == 0 ==> asset_views(assets.resolved@) =~= Seq::empty());
        if assets.is_empty() {
            return Err(
                CargoDebError::Str(
                    "No binaries or cdylibs found. The package is empty. Please specify some assets to package in Cargo.toml",
                ),
            );
        }
        self.deb.assets = assets;
        Ok(())
    }

    /// Tells what is to be found out for the dependencies of the package.
    pub fn dependency_requests(&self) -> (r: Vec<DependencyRequest>)
        ensures
            request_views(r@) == requests_of(self.deb.depends@),
    {
        dependency_requests(self.deb.depends.as_str())
    }

    /// Puts the dependencies of the package together from what was found out for them.
    pub fn get_dependencies(
        &self,
        answers: &Vec<DependencyAnswer>,
        platform: &Platform,
        listener: &mut Vec<Notice>,
    ) -> (r: CDResult<String>)
        requires
            answers_fit(
                requests_of(self.deb.depends@),
                answer_views(answers@),
                binary_paths(asset_views(self.deb.assets.resolved@), platform.dll_suffix@).len(),
            ),
        ensures
            match all_chosen(requests_of(self.deb.depends@), answer_views(answers@)) {
                Ok(list) => r matches Ok(deps) && deps@ == joined(distinct(list), ", "@),
                Err(e) => fails_with(r, e),
            },
            notice_views(final(listener)@) == notice_views(old(listener)@) + all_warnings(
                requests_of(self.deb.depends@),
                answer_views(answers@),
                binary_paths(asset_views(self.deb.assets.resolved@), platform.dll_suffix@),
            ),
    {
        let binaries = self.deb.binaries_to_resolve(platform);
        assert(texts(binaries@).len() == binaries@.len());
        collect_dependencies(self.deb.depends.as_str(), answers, &binaries, listener)
    }

    pub fn path_in_build(&self, rel_path: &str, profile: &str) -> (r: String)
        ensures
            r@ == path_in_build(self.target_dir@, rel_path@, profile@),
    {
        join_in_build(self.target_dir.as_str(), rel_path, profile)
    }

    pub fn path_in_package(&self, rel_path: &str) -> (r: String)
        ensures
            r@ == path_join(self.package_manifest_dir@, rel_path@),
    {
        join(self.package_manifest_dir.as_str(), rel_path)
    }

    /// Store intermediate files here
    pub fn deb_temp_dir(&self) -> (r: String)
        ensures
            r@ == path_join(path_join(self.target_dir@, "debian"@), self.deb.name@),
    {
        join(self.default_deb_output_dir().as_str(), self.deb.name.as_str())
    }

    /// Save final .deb here. `is_dir` tells whether the output path that the user gave is that
    /// of a directory.
    pub fn deb_output_path(&self, is_dir: bool) -> (r: String)
        ensures
            r@ == ({
                let filename = deb_filename(self.deb);
                match self.deb_output_path {
                    Some(path) => if is_dir || (path@.len() > 0 && path@.last() == '/') {
                        path_join(path@, filename)
                    } else {
                        path@
                    },
                    None => path_join(path_join(self.target_dir@, "debian"@), filename),
                }
            }),
    {
        let mut filename = self.deb.deb_name.clone();
        filename.append("_");
        filename.append(self.deb.deb_version.as_str());
        filename.append("_");
        filename.append(self.deb.architecture.as_str());
        filename.append(".deb");
        match &self.deb_output_path {
            Some(path) => if ends_with_char(path.as_str(), '/') || is_dir {
                join(path.as_str(), filename.as_str())
            } else {
                path.clone()
            },
            None => join(self.default_deb_output_dir().as_str(), filename.as_str()),
        }
    }

    pub fn default_deb_output_dir(&self) -> (r: String)
        ensures
            r@ == path_join(self.target_dir@, "debian"@),
    {
        join(self.target_dir.as_str(), "debian")
    }
}

} // verus!
