//! What a manifest makes of a package, field by field, and what is said about it.

use vstd::prelude::*;
use vstd::string::*;
use crate::asset::{asset_views, unresolved_views, Platform};
use crate::config::{Config, ManifestExtras, ManifestFound};
use crate::error::{Attempt, CDResult, CargoDebError, ErrorView};
use crate::layout::{entry_views, LayoutView};
use crate::manifest::{
    check_notices, choose_debug_symbols, conffiles, extended_description_file, first_existing,
    manifest_check_config, manifest_extended_description, notice_views, package_name,
    readme_candidates, readme_names, readme_notices, target_views, version_revision, CargoDeb,
    CargoMetadataTarget, DebugSymbols, ManifestPackage, Notice, NoticeView, Options,
    SystemUnitsSingleOrMultiple, SystemdUnitsConfig,
};
use crate::package::Package;
use crate::path::{extension_of, path_join, path_pop};
use crate::text::{joined, opt_text, texts};

verus! {

/// The settings of a package that the manifest gives are those of the package.
pub open spec fn takes_over(p: Package, m: ManifestPackage, deb: CargoDeb) -> bool {
    &&& p.license == m.license
    &&& p.homepage == m.homepage
    &&& p.documentation == m.documentation
    &&& p.repository == m.repository
    &&& p.pre_depends == deb.pre_depends
    &&& p.recommends == deb.recommends
    &&& p.suggests == deb.suggests
    &&& p.enhances == deb.enhances
    &&& p.conflicts == deb.conflicts
    &&& p.breaks == deb.breaks
    &&& p.replaces == deb.replaces
    &&& p.provides == deb.provides
    &&& p.section == deb.section
    &&& p.triggers_file == deb.triggers_file
    &&& p.changelog == deb.changelog
    &&& p.maintainer_scripts == deb.maintainer_scripts
    &&& deb.copyright matches Some(v) ==> p.copyright@ == v@
    &&& deb.maintainer matches Some(v) ==> p.maintainer@ == v@
    &&& deb.depends matches Some(v) ==> p.depends@ == v@
    &&& deb.priority matches Some(v) ==> p.priority@ == v@
    &&& deb.name matches Some(v) ==> p.deb_name@ == v@
    &&& m.description matches Some(v) ==> p.description@ == v@
}

/// What the manifest leaves open is filled in.
pub open spec fn fills_in(p: Package, m: ManifestPackage, deb: CargoDeb) -> bool {
    &&& deb.copyright is None ==> p.copyright@ == joined(texts(m.authors@), ", "@)
    &&& deb.maintainer is None ==> m.authors@.len() > 0 && p.maintainer@ == m.authors@[0]@
    &&& deb.depends is None ==> p.depends@ == "$auto"@
    &&& deb.priority is None ==> p.priority@ == "optional"@
    &&& deb.name is None ==> p.deb_name@ == package_name(p.name@)
    &&& m.description is None ==> p.description@ == "[generated from Rust crate "@ + p.name@ + "]"@
    &&& deb.conf_files is None ==> p.conf_files is None
    &&& deb.conf_files matches Some(files) ==> opt_text(p.conf_files) == Some(
        conffiles(texts(files@)),
    )
    &&& p.preserve_symlinks <==> deb.preserve_symlinks is Some && deb.preserve_symlinks->0
    &&& deb.systemd_units is None <==> p.systemd_units is None
    &&& deb.systemd_units matches Some(SystemUnitsSingleOrMultiple::Single(s))
        ==> p.systemd_units->0@ == seq![s]
    &&& deb.systemd_units matches Some(SystemUnitsSingleOrMultiple::Multi(v))
        ==> p.systemd_units->0@ == v@
}

/// The package that a manifest makes: what the manifest says is taken over, the rest has
/// defaults, and what was asked for on top of the manifest goes first. What Cargo builds for
/// another target lies in a directory of its own.
pub proof fn law_package_of_manifest(
    found: ManifestFound,
    deb: CargoDeb,
    extras: ManifestExtras,
    output: Option<String>,
    target: Option<String>,
    variant: Option<&str>,
    version: Option<String>,
    listener: &mut Vec<Notice>,
    profile: &str,
    separate: Option<bool>,
    compress: Option<bool>,
    platform: &Platform,
    c: Config,
)
    requires
        call_ensures(
            Config::from_manifest,
            (
                found,
                deb,
                extras,
                output,
                target,
                variant,
                version,
                listener,
                profile,
                separate,
                compress,
                platform,
            ),
            Ok::<Config, CargoDebError>(c),
        ),
    ensures
        found.package is Some,
        takes_over(c.deb, found.package->0, deb),
        fills_in(c.deb, found.package->0, deb),
        variant is None ==> c.deb.name@ == found.package->0.name@,
        variant matches Some(v) ==> c.deb.name@ == found.package->0.name@ + "-"@ + v@,
        version is None ==> c.deb.deb_version@ == extras.version@,
        version matches Some(v) ==> c.deb.deb_version@ == v@,
        extras.license == Ok::<(Option<String>, usize), CargoDebError>(
            (c.deb.license_file, c.deb.license_file_skip_lines),
        ),
        c.deb.architecture == extras.architecture,
        c.deb.default_timestamp == found.default_timestamp,
        c.package_manifest_dir@ == path_pop(found.manifest_path@),
        c.deb_output_path == output,
        c.target == target,
        target is None ==> c.target_dir@ == found.target_dir@,
        target matches Some(t) ==> c.target_dir@ == path_join(found.target_dir@, t@),
        deb.features is None ==> c.features@.len() == 0,
        deb.features matches Some(f) ==> texts(c.features@) == texts(f@),
        !c.default_features <==> deb.default_features is Some && !deb.default_features->0,
        c.deb.assets.unresolved@.len() + c.deb.assets.resolved@.len() > 0,
{
    assert(texts(c.features@).len() == c.features@.len());
    assert(unresolved_views(c.deb.assets.unresolved@).len() == c.deb.assets.unresolved@.len());
    assert(asset_views(c.deb.assets.resolved@).len() == c.deb.assets.resolved@.len());
}

/// A switch is on where it was asked for, or else where the manifest sets it.
pub open spec fn switched_on(asked: Option<bool>, configured: Option<bool>) -> bool {
    ||| asked == Some(true)
    ||| asked is None && configured == Some(true)
}

/// What is done with debug symbols: they are moved out where that is switched on, compressed
/// where that is too, else kept where the build makes them, else stripped.
pub open spec fn symbols_done(
    done: DebugSymbols,
    separate: bool,
    compress: bool,
    enabled: bool,
) -> bool {
    &&& done == (DebugSymbols::Separate { compress: true }) <==> separate && compress
    &&& done == (DebugSymbols::Separate { compress: false }) <==> separate && !compress
    &&& done == DebugSymbols::Keep <==> !separate && enabled
    &&& done == DebugSymbols::Strip <==> !separate && !enabled
}

/// What is said about debug symbols: that they are stripped though nobody asked for it, or that
/// they are not compressed though somebody did.
pub open spec fn said_of_symbols(separate: bool, compress: bool, enabled: bool) -> Seq<NoticeView> {
    if separate && !enabled {
        seq![NoticeView::Log("separate-debug-symbols implies strip"@)]
    } else if compress && !separate && enabled {
        seq![NoticeView::Log("separate-debug-symbols required to compress"@)]
    } else {
        Seq::empty()
    }
}

/// What is decided, and said, about debug symbols.
pub proof fn law_debug_symbols(
    separate: Option<bool>,
    compress: Option<bool>,
    deb: &CargoDeb,
    enabled: bool,
    listener: &mut Vec<Notice>,
    done: DebugSymbols,
)
    requires
        call_ensures(choose_debug_symbols, (separate, compress, deb, enabled, listener), done),
    ensures
        symbols_done(
            done,
            switched_on(separate, deb.separate_debug_symbols),
            switched_on(compress, deb.compress_debug_symbols),
            enabled,
        ),
        notice_views(final(listener)@) == notice_views(old(listener)@) + said_of_symbols(
            switched_on(separate, deb.separate_debug_symbols),
            switched_on(compress, deb.compress_debug_symbols),
            enabled,
        ),
{
}

/// The build makes debug symbols: the release profile does, where the manifest, or that of the
/// workspace, asks for them.
pub open spec fn makes_symbols(found: ManifestFound, profile: Seq<char>) -> bool {
    &&& profile == "release"@
    &&& found.debug_flag || (found.root_debug_flag is Some && found.root_debug_flag->0)
}

/// What is done with the debug symbols of the package of a manifest.
pub proof fn law_symbols_of_manifest(
    found: ManifestFound,
    deb: CargoDeb,
    extras: ManifestExtras,
    output: Option<String>,
    target: Option<String>,
    variant: Option<&str>,
    version: Option<String>,
    listener: &mut Vec<Notice>,
    profile: &str,
    separate: Option<bool>,
    compress: Option<bool>,
    platform: &Platform,
    c: Config,
)
    requires
        call_ensures(
            Config::from_manifest,
            (
                found,
                deb,
                extras,
                output,
                target,
                variant,
                version,
                listener,
                profile,
                separate,
                compress,
                platform,
            ),
            Ok::<Config, CargoDebError>(c),
        ),
    ensures
        symbols_done(
            c.debug_symbols,
            switched_on(separate, deb.separate_debug_symbols),
            switched_on(compress, deb.compress_debug_symbols),
            makes_symbols(found, profile@),
        ),
{
}

/// An extended description is the one that is given, else the text that was read from the file
/// for it; where there is neither, there is none.
pub proof fn law_description_of_manifest(
    found: ManifestFound,
    deb: CargoDeb,
    extras: ManifestExtras,
    output: Option<String>,
    target: Option<String>,
    variant: Option<&str>,
    version: Option<String>,
    listener: &mut Vec<Notice>,
    profile: &str,
    separate: Option<bool>,
    compress: Option<bool>,
    platform: &Platform,
    c: Config,
)
    requires
        call_ensures(
            Config::from_manifest,
            (
                found,
                deb,
                extras,
                output,
                target,
                variant,
                version,
                listener,
                profile,
                separate,
                compress,
                platform,
            ),
            Ok::<Config, CargoDebError>(c),
        ),
    ensures
        deb.extended_description matches Some(d) ==> opt_text(c.deb.extended_description) == Some(d@),
        deb.extended_description is None && deb.extended_description_file is None
            && found.package->0.readme is None ==> c.deb.extended_description is None,
        deb.extended_description is None && (deb.extended_description_file is Some
            || found.package->0.readme is Some) ==> (extras.description_text matches Some(read)
            ==> {
            &&& read is Ok
            &&& opt_text(c.deb.extended_description) == Some(read->Ok_0@)
        }),
{
}

/// The file with the extended description is not looked for where the description is given.
/// Elsewhere it is the one that is named, and the readme next to the manifest where none is.
pub proof fn law_description_file(
    deb: &CargoDeb,
    readme: &Option<String>,
    manifest_dir: &str,
    r: Option<String>,
)
    requires
        call_ensures(extended_description_file, (deb, readme, manifest_dir), r),
    ensures
        deb.extended_description is Some ==> r is None,
        deb.extended_description is None ==> {
            &&& deb.extended_description_file matches Some(f) ==> opt_text(r) == Some(f@)
            &&& deb.extended_description_file is None && readme is None ==> r is None
            &&& deb.extended_description_file is None && readme is Some ==> opt_text(r) == Some(
                path_join(manifest_dir@, readme->0@),
            )
        },
{
}

/// The extended description is the one that is given, whatever was read. Else it is what was
/// read, and a file that cannot be read is told with its path.
pub proof fn law_description_text(
    given: Option<String>,
    file: Option<String>,
    read: Option<Attempt<String>>,
    r: CDResult<Option<String>>,
)
    requires
        call_ensures(manifest_extended_description, (given, file, read), r),
        given is None && file is Some ==> read is Some,
    ensures
        given matches Some(d) ==> r is Ok && opt_text(r->Ok_0) == Some(d@),
        given is None && file is None ==> r is Ok && r->Ok_0 is None,
        given is None && file is Some ==> {
            &&& read->0 matches Ok(text) ==> r is Ok && opt_text(r->Ok_0) == Some(text@)
            &&& read->0 matches Err(e) ==> r is Err && r->Err_0@ == ErrorView::IoFile(
                "unable to read extended description from file"@,
                e@,
                file->0@,
            )
        },
{
}

/// The revision that is asked for goes before that of the manifest.
pub proof fn law_revision(asked: Option<String>, deb: &CargoDeb, r: Option<String>)
    requires
        call_ensures(version_revision, (asked, deb), r),
    ensures
        asked is Some ==> r == asked,
        asked is None ==> r == deb.revision,
{
}

/// What decides on the place of the files of a build.
pub open spec fn places_of(
    found: ManifestFound,
    target_dir: Seq<char>,
    profile: Seq<char>,
    platform: Platform,
) -> LayoutView {
    LayoutView {
        manifest_dir: path_pop(found.manifest_path@),
        target_dir,
        profile,
        dll_prefix: platform.dll_prefix@,
        dll_suffix: platform.dll_suffix@,
        exe_suffix: platform.exe_suffix@,
        targets: target_views(found.targets@),
    }
}

/// The assets of the package are those that the manifest names, all of them still to be found,
/// or, where it names none, those that its targets build and its readme.
pub proof fn law_assets_of_manifest(
    found: ManifestFound,
    deb: CargoDeb,
    extras: ManifestExtras,
    output: Option<String>,
    target: Option<String>,
    variant: Option<&str>,
    version: Option<String>,
    listener: &mut Vec<Notice>,
    profile: &str,
    separate: Option<bool>,
    compress: Option<bool>,
    platform: &Platform,
    c: Config,
)
    requires
        call_ensures(
            Config::from_manifest,
            (
                found,
                deb,
                extras,
                output,
                target,
                variant,
                version,
                listener,
                profile,
                separate,
                compress,
                platform,
            ),
            Ok::<Config, CargoDebError>(c),
        ),
    ensures
        ({
            let places = places_of(found, c.target_dir@, profile@, *platform);
            &&& deb.assets matches Some(list) ==> {
                &&& places.read_assets(entry_views(list@)) is Ok
                &&& places.read_assets(entry_views(list@))->Ok_0 == unresolved_views(
                    c.deb.assets.unresolved@,
                )
                &&& c.deb.assets.resolved@.len() == 0
            }
            &&& deb.assets is None ==> {
                let readme = opt_text(found.package->0.readme);
                &&& places.default_assets(c.deb.name@, readme) is Ok
                &&& places.default_assets(c.deb.name@, readme)->Ok_0 == asset_views(
                    c.deb.assets.resolved@,
                )
                &&& c.deb.assets.unresolved@.len() == 0
            }
        }),
{
    assert(unresolved_views(c.deb.assets.unresolved@).len() == c.deb.assets.unresolved@.len());
    assert(asset_views(c.deb.assets.resolved@).len() == c.deb.assets.resolved@.len());
}

/// The file for the extended description could not be read.
pub open spec fn description_unread(
    found: ManifestFound,
    deb: CargoDeb,
    extras: ManifestExtras,
) -> bool {
    &&& deb.extended_description is None
    &&& deb.extended_description_file is Some || found.package->0.readme is Some
    &&& extras.description_text is Some
    &&& extras.description_text->0 is Err
}

/// Why no package is made, the first reason being told: there is no package, the settings for
/// its license file cannot be used, its extended description cannot be read, nobody is named who
/// wrote it or maintains it, or its assets cannot be found.
pub proof fn law_manifest_is_refused(
    found: ManifestFound,
    deb: CargoDeb,
    extras: ManifestExtras,
    output: Option<String>,
    target: Option<String>,
    variant: Option<&str>,
    version: Option<String>,
    listener: &mut Vec<Notice>,
    profile: &str,
    separate: Option<bool>,
    compress: Option<bool>,
    platform: &Platform,
    e: CargoDebError,
)
    requires
        call_ensures(
            Config::from_manifest,
            (
                found,
                deb,
                extras,
                output,
                target,
                variant,
                version,
                listener,
                profile,
                separate,
                compress,
                platform,
            ),
            Err::<Config, CargoDebError>(e),
        ),
    ensures
        found.package is None ==> e@ == ErrorView::Str("bad package"@),
        found.package matches Some(m) ==> {
            let anonymous = m.authors@.len() == 0;
            &&& extras.license matches Err(f) ==> e@ == f@
            &&& extras.license is Ok && description_unread(found, deb, extras) ==> e@
                == ErrorView::IoFile(
                "unable to read extended description from file"@,
                extras.description_text->0->Err_0@,
                match deb.extended_description_file {
                    Some(f) => f@,
                    None => path_join(path_pop(found.manifest_path@), m.readme->0@),
                },
            )
            &&& extras.license is Ok && !description_unread(found, deb, extras) ==> {
                &&& anonymous && deb.copyright is None ==> e@ == ErrorView::Str(
                    "The package must have a copyright or authors property"@,
                )
                &&& anonymous && deb.copyright is Some && deb.maintainer is None ==> e@
                    == ErrorView::Str("The package must have a maintainer or authors property"@)
                &&& !anonymous || (deb.copyright is Some && deb.maintainer is Some)
                    ==> assets_refused(found, deb, target, variant, profile@, *platform, e@)
            }
        },
{
}

/// The assets of a package cannot be found: one of those that the manifest names cannot be read,
/// the readme has no name, or there are none.
pub open spec fn assets_refused(
    found: ManifestFound,
    deb: CargoDeb,
    target: Option<String>,
    variant: Option<&str>,
    profile: Seq<char>,
    platform: Platform,
    e: ErrorView,
) -> bool {
    let target_dir = match target {
        Some(t) => path_join(found.target_dir@, t@),
        None => found.target_dir@,
    };
    let places = places_of(found, target_dir, profile, platform);
    let name = match variant {
        Some(v) => found.package->0.name@ + "-"@ + v@,
        None => found.package->0.name@,
    };
    let nothing = ErrorView::Str(
        "No binaries or cdylibs found. The package is empty. Please specify some assets to package in Cargo.toml"@,
    );
    match deb.assets {
        Some(list) => match places.read_assets(entry_views(list@)) {
            Err(f) => e == f,
            Ok(assets) => assets.len() == 0 && e == nothing,
        },
        None => match places.default_assets(name, opt_text(found.package->0.readme)) {
            Err(f) => e == f,
            Ok(assets) => assets.len() == 0 && e == nothing,
        },
    }
}

/// A package is made only where there is no reason not to.
pub proof fn law_manifest_is_accepted(
    found: ManifestFound,
    deb: CargoDeb,
    extras: ManifestExtras,
    output: Option<String>,
    target: Option<String>,
    variant: Option<&str>,
    version: Option<String>,
    listener: &mut Vec<Notice>,
    profile: &str,
    separate: Option<bool>,
    compress: Option<bool>,
    platform: &Platform,
    c: Config,
)
    requires
        call_ensures(
            Config::from_manifest,
            (
                found,
                deb,
                extras,
                output,
                target,
                variant,
                version,
                listener,
                profile,
                separate,
                compress,
                platform,
            ),
            Ok::<Config, CargoDebError>(c),
        ),
    ensures
        found.package is Some,
        extras.license is Ok,
        !description_unread(found, deb, extras),
        found.package->0.authors@.len() > 0 || (deb.copyright is Some && deb.maintainer is Some),
{
}

/// The name is the first of those for a readme that a file next to the manifest has.
pub open spec fn is_readme_there(name: Seq<char>, existing: Seq<Seq<char>>) -> bool {
    &&& existing.contains(name)
    &&& {
        ||| name == "README.md"@
        ||| name == "README.markdown"@ && !existing.contains("README.md"@)
        ||| name == "README.txt"@ && !existing.contains("README.md"@) && !existing.contains(
            "README.markdown"@,
        )
        ||| name == "README"@ && !existing.contains("README.md"@) && !existing.contains(
            "README.markdown"@,
        ) && !existing.contains("README.txt"@)
    }
}

/// What is said about the readme of a manifest: that markdown is used as the extended
/// description, or that a readme is there which the manifest does not name.
pub open spec fn said_of_readme(
    said: Seq<NoticeView>,
    m: ManifestPackage,
    deb: CargoDeb,
    existing: Seq<Seq<char>>,
) -> bool {
    &&& m.readme matches Some(readme) ==> {
        let shown = deb.extended_description is None && deb.extended_description_file is None && (
        extension_of(readme@) == Some("md"@) || extension_of(readme@) == Some("markdown"@));
        &&& !shown ==> said == Seq::<NoticeView>::empty()
        &&& shown ==> said == seq![
            NoticeView::Info(
                "extended-description field missing. Using "@ + readme@
                    + ", but markdown may not render well."@,
            ),
        ]
    }
    &&& m.readme is None ==> {
        &&& (forall|name: Seq<char>| !#[trigger] is_readme_there(name, existing)) ==> said
            == Seq::<NoticeView>::empty()
        &&& forall|name: Seq<char>| #[trigger]
            is_readme_there(name, existing) ==> said == seq![
                NoticeView::Warning(
                    name + " file exists, but is not specified in `readme` Cargo.toml field"@,
                ),
            ]
    }
}

/// A warning, where there is a reason for it.
pub open spec fn warned(text: Seq<char>, reason: bool) -> Seq<NoticeView> {
    if reason {
        seq![NoticeView::Warning(text)]
    } else {
        Seq::empty()
    }
}

/// The notices go on from those before: with the warning that the description is missing, the
/// one that the license is, each where it is so, and what is said about the readme.
pub open spec fn said_of_manifest(
    said: Seq<NoticeView>,
    m: ManifestPackage,
    deb: CargoDeb,
    existing: Seq<Seq<char>>,
) -> bool {
    exists|readme: Seq<NoticeView>| #[trigger]
        said_of_readme(readme, m, deb, existing) && said == warned(
            "description field is missing in Cargo.toml"@,
            m.description is None,
        ) + warned(
            "license field is missing in Cargo.toml"@,
            m.license is None && !m.has_license_file,
        ) + readme
}

/// What is said about a manifest.
proof fn lemma_said_of_manifest(m: ManifestPackage, deb: CargoDeb, existing: Seq<Seq<char>>)
    ensures
        said_of_manifest(check_notices(m, deb, existing), m, deb, existing),
{
    let readme = readme_notices(m, deb, existing);
    let names = readme_names();
    reveal_with_fuel(first_existing, 5);
    reveal_strlit("README.md");
    reveal_strlit("README.markdown");
    reveal_strlit("README.txt");
    reveal_strlit("README");
    assert("README.md"@.len() == 9);
    assert("README.markdown"@.len() == 15);
    assert("README.txt"@.len() == 10);
    assert("README"@.len() == 6);
    assert(names[0] == "README.md"@);
    assert(names[1] == "README.markdown"@);
    assert(names[2] == "README.txt"@);
    assert(names[3] == "README"@);
    if let Some(name) = first_existing(names, existing, 0) {
        assert(is_readme_there(name, existing));
    }
    assert(said_of_readme(readme, m, deb, existing));
}

/// What the check of a manifest says.
pub proof fn law_check_of_manifest(
    m: &ManifestPackage,
    deb: &CargoDeb,
    existing: &Vec<String>,
    listener: &mut Vec<Notice>,
)
    requires
        call_ensures(manifest_check_config, (m, deb, existing, listener), ()),
    ensures
        notice_views(old(listener)@).is_prefix_of(notice_views(final(listener)@)),
        said_of_manifest(
            notice_views(final(listener)@).skip(notice_views(old(listener)@).len() as int),
            *m,
            *deb,
            texts(existing@),
        ),
{
    let before = notice_views(old(listener)@);
    let said = check_notices(*m, *deb, texts(existing@));
    lemma_said_of_manifest(*m, *deb, texts(existing@));
    assert((before + said).skip(before.len() as int) =~= said);
    assert((before + said).subrange(0, before.len() as int) =~= before);
}

/// What is said while a package is made of a manifest: nothing without a package; else what
/// there is to say of debug symbols, of the manifest, if the settings for its license file can be
/// used, and of the assets that it names, if it comes to them.
pub proof fn law_notices_of_manifest(
    found: ManifestFound,
    deb: CargoDeb,
    extras: ManifestExtras,
    output: Option<String>,
    target: Option<String>,
    variant: Option<&str>,
    version: Option<String>,
    listener: &mut Vec<Notice>,
    profile: &str,
    separate: Option<bool>,
    compress: Option<bool>,
    platform: &Platform,
    r: CDResult<Config>,
    target_dir: Seq<char>,
)
    requires
        call_ensures(
            Config::from_manifest,
            (
                found,
                deb,
                extras,
                output,
                target,
                variant,
                version,
                listener,
                profile,
                separate,
                compress,
                platform,
            ),
            r,
        ),
        target is None ==> target_dir == found.target_dir@,
        target matches Some(t) ==> target_dir == path_join(found.target_dir@, t@),
    ensures
        ({
            let before = notice_views(old(listener)@);
            let after = notice_views(final(listener)@);
            let places = places_of(found, target_dir, profile@, *platform);
            let m = found.package->0;
            let reached = extras.license is Ok && !description_unread(found, deb, extras) && (
            m.authors@.len() > 0 || (deb.copyright is Some && deb.maintainer is Some));
            let symbols = said_of_symbols(
                switched_on(separate, deb.separate_debug_symbols),
                switched_on(compress, deb.compress_debug_symbols),
                makes_symbols(found, profile@),
            );
            let assets = if reached && deb.assets is Some {
                places.asset_notices(entry_views(deb.assets->0@))
            } else {
                Seq::empty()
            };
            &&& found.package is None ==> after == before
            &&& found.package is Some && extras.license is Err ==> after == before + symbols
            &&& found.package is Some && extras.license is Ok ==> exists|checked: Seq<NoticeView>|
                #[trigger] said_of_manifest(checked, m, deb, texts(extras.existing_files@))
                    && after == before + symbols + checked + assets
        }),
{
    let before = notice_views(old(listener)@);
    assert(before + Seq::empty() =~= before);
    if found.package is Some {
        let m = found.package->0;
        let existing = texts(extras.existing_files@);
        lemma_said_of_manifest(m, deb, existing);
        let checked = check_notices(m, deb, existing);
        let symbols = said_of_symbols(
            switched_on(separate, deb.separate_debug_symbols),
            switched_on(compress, deb.compress_debug_symbols),
            makes_symbols(found, profile@),
        );
        let after = notice_views(final(listener)@);
        let places = places_of(found, target_dir, profile@, *platform);
        let listed = if deb.assets is Some {
            places.asset_notices(entry_views(deb.assets->0@))
        } else {
            Seq::empty()
        };
        assert(before + (symbols + Seq::empty() + Seq::empty()) =~= before + symbols);
        assert(before + (symbols + checked + Seq::empty()) =~= before + symbols + checked
            + Seq::empty());
        assert(before + (symbols + checked + listed) =~= before + symbols + checked + listed);
    }
}

/// Where a file of the build is: below the directory of the build, that for the profile, which
/// is named `debug` for the profile `dev`.
pub proof fn law_path_in_build(c: &Config, rel: &str, profile: &str, r: String)
    requires
        call_ensures(Config::path_in_build, (c, rel, profile), r),
    ensures
        profile@ == "dev"@ ==> r@ == path_join(path_join(c.target_dir@, "debug"@), rel@),
        profile@ != "dev"@ ==> r@ == path_join(path_join(c.target_dir@, profile@), rel@),
{
}

/// The package is written to the directory `debian` of the build, under its name, version and
/// architecture, or into the directory that the user gave, or else to just the path that the user
/// gave.
pub proof fn law_output_path(c: &Config, is_dir: bool, r: String)
    requires
        call_ensures(Config::deb_output_path, (c, is_dir), r),
    ensures
        ({
            let name = c.deb.deb_name@ + seq!['_'] + c.deb.deb_version@ + seq!['_']
                + c.deb.architecture@ + seq!['.', 'd', 'e', 'b'];
            &&& c.deb_output_path is None ==> r@ == path_join(
                path_join(c.target_dir@, "debian"@),
                name,
            )
            &&& c.deb_output_path matches Some(p) ==> {
                let into = is_dir || (p@.len() > 0 && p@.last() == '/');
                &&& into ==> r@ == path_join(p@, name)
                &&& !into ==> r@ == p@
            }
        }),
{
    reveal_strlit("_");
    reveal_strlit(".deb");
    assert("_"@ =~= seq!['_']);
    assert(".deb"@ =~= seq!['.', 'd', 'e', 'b']);
}

/// Intermediate files are stored in a directory of the package, below the one that packages are
/// written to.
pub proof fn law_temp_dir(c: &Config, out: String, temp: String)
    requires
        call_ensures(Config::default_deb_output_dir, (c,), out),
        call_ensures(Config::deb_temp_dir, (c,), temp),
    ensures
        out@ == path_join(c.target_dir@, "debian"@),
        temp@ == path_join(out@, c.deb.name@),
{
}

/// A path in the package is seen from its manifest.
pub proof fn law_path_in_package(c: &Config, rel: &str, r: String)
    requires
        call_ensures(Config::path_in_package, (c, rel), r),
    ensures
        r@ == path_join(c.package_manifest_dir@, rel@),
{
}

/// Assets that are found take the place of those before, and nothing else changes; where none
/// are found, nothing changes at all.
pub proof fn law_take_assets(
    c: &mut Config,
    readme: &Option<String>,
    assets: &Option<Vec<Vec<String>>>,
    targets: &Vec<CargoMetadataTarget>,
    profile: &str,
    platform: &Platform,
    listener: &mut Vec<Notice>,
    r: CDResult<()>,
)
    requires
        call_ensures(
            Config::take_assets,
            (c, readme, assets, targets, profile, platform, listener),
            r,
        ),
    ensures
        r is Err ==> *final(c) == *old(c),
        r is Ok ==> {
            &&& *final(c) == (Config {
                deb: Package { assets: final(c).deb.assets, ..old(c).deb },
                ..*old(c)
            })
            &&& assets is Some ==> final(c).deb.assets.resolved@.len() == 0
                && final(c).deb.assets.unresolved@.len() == assets->0@.len()
            &&& assets is None ==> final(c).deb.assets.unresolved@.len() == 0
        },
        r is Ok ==> final(c).deb.assets.resolved@.len() + final(c).deb.assets.unresolved@.len() > 0,
        assets is None ==> notice_views(final(listener)@) == notice_views(old(listener)@),
{
    let before = notice_views(old(listener)@);
    assert(before + Seq::empty() =~= before);
    let list = final(c).deb.assets;
    assert(unresolved_views(list.unresolved@).len() == list.unresolved@.len());
    assert(asset_views(list.resolved@).len() == list.resolved@.len());
    if assets is Some && r is Ok {
        let layout = old(c).layout(profile@, *platform, targets@);
        lemma_one_asset_per_entry(layout, entry_views(assets->0@));
        assert(entry_views(assets->0@).len() == assets->0@.len());
    }
}

/// Each entry is read as one asset.
proof fn lemma_one_asset_per_entry(layout: LayoutView, list: Seq<Seq<Seq<char>>>)
    ensures
        layout.read_assets(list) matches Ok(read) ==> read.len() == list.len(),
    decreases list.len(),
{
    if list.len() > 0 {
        lemma_one_asset_per_entry(layout, list.drop_last());
    }
}

/// Units are enabled, started, restarted after an upgrade and stopped for one, unless the
/// manifest switches that off.
pub proof fn law_unit_options(config: &SystemdUnitsConfig, o: Options)
    requires
        call_ensures(<Options as From<&SystemdUnitsConfig>>::from, (config,), o),
    ensures
        o.no_enable <==> config.enable == Some(false),
        o.no_start <==> config.start == Some(false),
        !o.restart_after_upgrade <==> config.restart_after_upgrade == Some(false),
        o.no_stop_on_upgrade <==> config.stop_on_upgrade == Some(false),
{
}

/// A readme is looked for under four names, in this order.
pub proof fn law_readme_candidates(r: Vec<String>)
    requires
        call_ensures(readme_candidates, (), r),
    ensures
        texts(r@) == seq!["README.md"@, "README.markdown"@, "README.txt"@, "README"@],
{
}

} // verus!
