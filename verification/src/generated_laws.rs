//! What is added to the assets of a package besides what its manifest names: its copyright file,
//! its changelog and systemd units.

use vstd::prelude::*;
use vstd::string::*;
use vstd::utf8::*;
use crate::asset::{asset_views, AssetView, Assets, IsBuilt, SourceView};
use crate::config::Config;
use crate::error::{Attempt, CDResult, ErrorView};
use crate::generated::{
    all_units, generated_asset, searches_of, unit_asset, unit_assets, unit_search_views, unit_views,
    ChangelogRead, ChangelogSource, FoundUnit, SearchView, UnitSearch, UnitView,
};
use crate::manifest::SystemdUnitsConfig;
use crate::package::{copyright_text, Package};
use crate::path::{extension_of, law_strip_root, name_of, path_join, without_root};
use crate::resolve_laws::installed_at;
use crate::text::opt_text;

verus! {

/// Nothing but the assets that are resolved is other than before, and those that there were
/// still stand in front.
pub open spec fn only_adds(after: Config, before: Config) -> bool {
    let n = before.deb.assets.resolved@.len() as int;
    &&& after == (Config {
        deb: Package {
            assets: Assets {
                unresolved: before.deb.assets.unresolved,
                resolved: after.deb.assets.resolved,
            },
            ..before.deb
        },
        ..before
    })
    &&& after.deb.assets.resolved@.len() >= n
    &&& after.deb.assets.resolved@.take(n) == before.deb.assets.resolved@
}

/// How many assets were added.
pub open spec fn added_count(after: Config, before: Config) -> int {
    after.deb.assets.resolved@.len() - before.deb.assets.resolved@.len()
}

/// One of the assets that were added.
pub open spec fn added_asset(after: Config, before: Config, k: int) -> AssetView {
    after.deb.assets.resolved@[before.deb.assets.resolved@.len() + k]@
}

/// The asset is a generated file of the documentation of the package: a file that all may read,
/// which was not built, with the bytes, and the path that it was generated from.
pub open spec fn is_documentation(
    a: AssetView,
    p: Package,
    file: Seq<char>,
    bytes: Seq<u8>,
    from: Seq<char>,
) -> bool {
    &&& a.source == SourceView::Data(bytes)
    &&& a.c.target_path == without_root(
        path_join(path_join("usr/share/doc"@, p.deb_name@), file),
    )
    &&& a.c.chmod == 0o644
    &&& a.c.is_built == IsBuilt::No
    &&& !a.c.is_example
    &&& a.processed_from is Some
    &&& a.processed_from->0.original_path == Some(from)
    &&& a.processed_from->0.action == "generated"@
}

/// A file of the documentation is one.
proof fn lemma_documentation(p: Package, file: Seq<char>, bytes: Seq<u8>, from: Seq<char>)
    requires
        file.len() > 0,
        file.last() != '/',
    ensures
        is_documentation(
            generated_asset(p.deb_name@, file, bytes, from),
            p,
            file,
            bytes,
            from,
        ),
{
    let dir = path_join("usr/share/doc"@, p.deb_name@);
    assert(path_join(dir, file).last() == file.last());
}

/// The assets that were added, one by one.
proof fn lemma_added(after: Config, before: Config, added: Seq<AssetView>)
    requires
        after.gained(before, added),
    ensures
        only_adds(after, before),
        added_count(after, before) == added.len(),
        forall|k: int| 0 <= k < added.len() ==> #[trigger] added_asset(after, before, k) == added[k],
{
    let all = asset_views(after.deb.assets.resolved@);
    let held = asset_views(before.deb.assets.resolved@);
    assert(all.len() == held.len() + added.len());
    assert forall|k: int| 0 <= k < added.len() implies #[trigger] added_asset(after, before, k)
        == added[k] by {
        assert(all[held.len() + k] == added[k]);
    }
}

/// The path that the copyright file comes from: the license file, or else the manifest.
pub open spec fn copyright_origin(c: Config) -> Seq<char> {
    match c.deb.license_file {
        Some(file) => path_join(c.package_manifest_dir@, file@),
        None => "Cargo.toml"@,
    }
}

/// What was read of the license file, where it could be read.
pub open spec fn license_read(license: Option<Attempt<String>>) -> Option<Seq<char>> {
    match license {
        Some(Ok(text)) => Some(text@),
        _ => None,
    }
}

/// The asset is the copyright file of the package.
pub open spec fn is_copyright(a: AssetView, c: Config, license: Option<Attempt<String>>) -> bool {
    is_documentation(
        a,
        c.deb,
        "copyright"@,
        encode_utf8(copyright_text(c.deb, license_read(license))),
        copyright_origin(c),
    )
}

/// What a license file that could not be read is answered.
pub open spec fn license_unread(c: Config, e: Seq<char>) -> ErrorView {
    ErrorView::IoFile("unable to read license file"@, e, c.deb.license_file->0@)
}

/// One asset is added for the copyright, unless the license file cannot be read: then that is
/// told, and nothing changes.
pub proof fn law_copyright_is_added(
    c: &mut Config,
    license: Option<Attempt<String>>,
    r: CDResult<()>,
)
    requires
        call_ensures(Config::add_copyright_asset, (c, license), r),
        license is Some <==> old(c).deb.license_file is Some,
    ensures
        license matches Some(Err(e)) ==> {
            &&& r is Err
            &&& r->Err_0@ == license_unread(*old(c), e@)
            &&& *final(c) == *old(c)
        },
        !(license matches Some(Err(_))) ==> {
            &&& r is Ok
            &&& only_adds(*final(c), *old(c))
            &&& added_count(*final(c), *old(c)) == 1
            &&& is_copyright(added_asset(*final(c), *old(c), 0), *old(c), license)
        },
{
    if !(license matches Some(Err(_))) {
        reveal_strlit("copyright");
        let bytes = encode_utf8(copyright_text(old(c).deb, license_read(license)));
        let origin = copyright_origin(*old(c));
        let a = generated_asset(old(c).deb.deb_name@, "copyright"@, bytes, origin);
        lemma_documentation(old(c).deb, "copyright"@, bytes, origin);
        lemma_added(*final(c), *old(c), seq![a]);
    }
}

/// The bytes of the copyright file and the path that it comes from.
pub proof fn law_copyright_is_generated(
    c: &Config,
    license: Option<Attempt<String>>,
    r: CDResult<(String, Vec<u8>)>,
)
    requires
        call_ensures(Config::generate_copyright_asset, (c, license), r),
        license is Some <==> c.deb.license_file is Some,
    ensures
        license matches Some(Err(e)) ==> r is Err && r->Err_0@ == license_unread(*c, e@),
        !(license matches Some(Err(_))) ==> {
            &&& r is Ok
            &&& r->Ok_0.0@ == copyright_origin(*c)
            &&& r->Ok_0.1@ == encode_utf8(copyright_text(c.deb, license_read(license)))
        },
{
}

/// The license file is seen from the manifest.
pub proof fn law_license_source(c: &Config, r: Option<String>)
    requires
        call_ensures(Config::license_source, (c,), r),
    ensures
        r is Some <==> c.deb.license_file is Some,
        r is Some ==> r->0@ == copyright_origin(*c),
{
}

/// The path of the changelog, seen from the manifest.
pub open spec fn changelog_origin(c: Config) -> Seq<char> {
    path_join(c.package_manifest_dir@, c.deb.changelog->0@)
}

/// The bytes of the changelog in the package: those of the file, if its name ends in `.gz`, else
/// those that it was compressed to.
pub open spec fn changelog_bytes(c: Config, read: ChangelogRead) -> Attempt<Vec<u8>> {
    if read.content is Err || extension_of(changelog_origin(c)) == Some("gz"@) {
        read.content
    } else {
        read.gzipped->0
    }
}

/// What a changelog that could not be read, or compressed, is answered.
pub open spec fn changelog_unread(c: Config, e: Seq<char>) -> ErrorView {
    ErrorView::IoFile("unable to read changelog file"@, e, changelog_origin(c))
}

/// The asset is the changelog of the package.
pub open spec fn is_changelog(a: AssetView, c: Config, read: ChangelogRead) -> bool {
    is_documentation(
        a,
        c.deb,
        "changelog.Debian.gz"@,
        changelog_bytes(c, read)->Ok_0@,
        changelog_origin(c),
    )
}

/// One asset is added for the changelog, where there is one, unless it cannot be read or
/// compressed: then that is told, and nothing changes.
pub proof fn law_changelog_is_added(
    c: &mut Config,
    changelog: Option<ChangelogRead>,
    r: CDResult<()>,
)
    requires
        call_ensures(Config::add_changelog_asset, (c, changelog), r),
        old(c).changelog_fits(changelog),
    ensures
        changelog is None ==> {
            &&& r is Ok
            &&& only_adds(*final(c), *old(c))
            &&& added_count(*final(c), *old(c)) == 0
        },
        changelog matches Some(read) ==> {
            &&& changelog_bytes(*old(c), read) matches Err(e) ==> {
                &&& r is Err
                &&& r->Err_0@ == changelog_unread(*old(c), e@)
                &&& *final(c) == *old(c)
            }
            &&& changelog_bytes(*old(c), read) is Ok ==> {
                &&& r is Ok
                &&& only_adds(*final(c), *old(c))
                &&& added_count(*final(c), *old(c)) == 1
                &&& is_changelog(added_asset(*final(c), *old(c), 0), *old(c), read)
            }
        },
{
    reveal_strlit("changelog.Debian.gz");
    match changelog {
        None => {
            lemma_added(*final(c), *old(c), Seq::empty());
        },
        Some(read) => {
            if changelog_bytes(*old(c), read) is Ok {
                let bytes = changelog_bytes(*old(c), read)->Ok_0@;
                let origin = changelog_origin(*old(c));
                let a = generated_asset(old(c).deb.deb_name@, "changelog.Debian.gz"@, bytes, origin);
                lemma_documentation(old(c).deb, "changelog.Debian.gz"@, bytes, origin);
                lemma_added(*final(c), *old(c), seq![a]);
            }
        },
    }
}

/// The changelog is seen from the manifest, and is taken as it is if its name ends in `.gz`.
pub proof fn law_changelog_source(c: &Config, r: Option<ChangelogSource>)
    requires
        call_ensures(Config::changelog_source, (c,), r),
    ensures
        r is Some <==> c.deb.changelog is Some,
        r matches Some(s) ==> {
            &&& s.path@ == changelog_origin(*c)
            &&& s.compressed <==> extension_of(s.path@) == Some("gz"@)
        },
{
}

/// The bytes of the changelog and the path that it comes from.
pub proof fn law_changelog_is_generated(
    c: &Config,
    changelog: Option<ChangelogRead>,
    r: CDResult<Option<(String, Vec<u8>)>>,
)
    requires
        call_ensures(Config::generate_changelog_asset, (c, changelog), r),
        c.changelog_fits(changelog),
    ensures
        changelog is None ==> r is Ok && r->Ok_0 is None,
        changelog matches Some(read) ==> {
            &&& changelog_bytes(*c, read) matches Err(e) ==> r is Err && r->Err_0@
                == changelog_unread(*c, e@)
            &&& changelog_bytes(*c, read) matches Ok(bytes) ==> {
                &&& r is Ok
                &&& r->Ok_0 matches Some(p) && p.0@ == changelog_origin(*c) && p.1@ == bytes@
            }
        },
{
}

/// The asset is made of the unit: a link that is to be kept, or leads nowhere, stays a link. Mode
/// and place are those of the unit, which is not built.
pub open spec fn is_unit(a: AssetView, u: UnitView, preserve_symlinks: bool) -> bool {
    &&& a.source == (if u.disk.is_symlink && (preserve_symlinks || !u.disk.exists) {
        SourceView::Symlink(u.source)
    } else {
        SourceView::Path(u.source)
    })
    &&& a.processed_from is None
    &&& a.c.target_path == installed_at(u.target_path, u.source)
    &&& a.c.chmod == u.mode
    &&& a.c.is_built == IsBuilt::No
    &&& !a.c.is_example
}

/// What is made of a unit is.
proof fn lemma_unit(u: UnitView, preserve_symlinks: bool)
    ensures
        is_unit(unit_asset(u, preserve_symlinks), u, preserve_symlinks),
{
    let full = if u.target_path.len() > 0 && u.target_path.last() == '/' {
        path_join(u.target_path, name_of(u.source)->0)
    } else {
        u.target_path
    };
    law_strip_root(full);
}

/// The units of one more search stand behind those of the others, in the order in which they
/// were found.
pub proof fn law_units_next(found: Seq<Vec<FoundUnit>>, more: Vec<FoundUnit>)
    ensures
        all_units(Seq::empty()) == Seq::<UnitView>::empty(),
        all_units(found.push(more)).len() == all_units(found).len() + more@.len(),
        forall|i: int|
            0 <= i < all_units(found).len() ==> #[trigger] all_units(found.push(more))[i]
                == all_units(found)[i],
        forall|k: int|
            0 <= k < more@.len() ==> {
                let u = #[trigger] all_units(found.push(more))[all_units(found).len() + k];
                &&& u.source == more@[k].source@
                &&& u.disk == more@[k].disk
                &&& u.target_path == more@[k].target_path@
                &&& u.mode == more@[k].mode
            },
{
    assert(found.push(more).drop_last() =~= found);
    assert(unit_views(more@).len() == more@.len());
}

/// One asset is added for each unit that was found, in the order of the searches.
pub proof fn law_units_are_added(c: &mut Config, found: Vec<Vec<FoundUnit>>, r: CDResult<()>)
    requires
        call_ensures(Config::add_systemd_assets, (c, found), r),
    ensures
        r is Ok,
        only_adds(*final(c), *old(c)),
        added_count(*final(c), *old(c)) == all_units(found@).len(),
        forall|k: int|
            0 <= k < all_units(found@).len() ==> is_unit(
                #[trigger] added_asset(*final(c), *old(c), k),
                all_units(found@)[k],
                old(c).deb.preserve_symlinks,
            ),
{
    let keep = old(c).deb.preserve_symlinks;
    let added = unit_assets(all_units(found@), keep);
    lemma_added(*final(c), *old(c), added);
    assert forall|k: int| 0 <= k < all_units(found@).len() implies is_unit(
        #[trigger] added_asset(*final(c), *old(c), k),
        all_units(found@)[k],
        keep,
    ) by {
        lemma_unit(all_units(found@)[k], keep);
        assert(added[k] == unit_asset(all_units(found@)[k], keep));
    }
}

/// One more way to install units adds one search behind the others: in its own directory, or
/// else in that of the maintainer scripts, seen from the manifest, for the package and the unit
/// that it names. Without a directory nothing is searched for.
pub proof fn law_searches_next(
    manifest_dir: Seq<char>,
    package: Seq<char>,
    scripts: Option<Seq<char>>,
    configs: Seq<SystemdUnitsConfig>,
    more: SystemdUnitsConfig,
)
    ensures
        searches_of(manifest_dir, package, scripts, Seq::empty()) == Seq::<SearchView>::empty(),
        ({
            let before = searches_of(manifest_dir, package, scripts, configs);
            let after = searches_of(manifest_dir, package, scripts, configs.push(more));
            let dir = if more.unit_scripts is Some {
                more.unit_scripts->0@
            } else {
                scripts->0
            };
            &&& more.unit_scripts is None && scripts is None ==> after == before
            &&& more.unit_scripts is Some || scripts is Some ==> {
                &&& after.len() == before.len() + 1
                &&& after.drop_last() == before
                &&& after.last().search_path == path_join(manifest_dir, dir)
                &&& after.last().package == package
                &&& after.last().unit_name == opt_text(more.unit_name)
            }
        }),
{
    assert(configs.push(more).drop_last() =~= configs);
    let before = searches_of(manifest_dir, package, scripts, configs);
    let after = searches_of(manifest_dir, package, scripts, configs.push(more));
    if more.unit_scripts is Some || scripts is Some {
        assert(after.drop_last() =~= before);
    }
}

/// The searches are made for the package, below its manifest, and none without a configuration.
pub proof fn law_searches(c: &Config, r: Vec<UnitSearch>)
    requires
        call_ensures(Config::systemd_searches, (c,), r),
    ensures
        c.deb.systemd_units is None ==> r@.len() == 0,
        c.deb.systemd_units matches Some(configs) ==> unit_search_views(r@) == searches_of(
            c.package_manifest_dir@,
            c.deb.name@,
            opt_text(c.deb.maintainer_scripts),
            configs@,
        ),
{
    assert(unit_search_views(r@).len() == r@.len());
}

/// All that is generated is added in one go: the copyright file, then the changelog, where there
/// is one, then the units. What cannot be read ends this, and stays told; what was added before
/// it stays.
pub proof fn law_generated_are_added(
    c: &mut Config,
    license: Option<Attempt<String>>,
    changelog: Option<ChangelogRead>,
    found: Vec<Vec<FoundUnit>>,
    r: CDResult<()>,
)
    requires
        call_ensures(Config::add_generated_assets, (c, license, changelog, found), r),
        license is Some <==> old(c).deb.license_file is Some,
        !(license matches Some(Err(_))) ==> old(c).changelog_fits(changelog),
    ensures
        ({
            let before = *old(c);
            let after = *final(c);
            let n = added_count(after, before);
            let logged: int = if changelog is Some {
                1
            } else {
                0
            };
            &&& only_adds(after, before)
            &&& license matches Some(Err(e)) ==> r is Err && r->Err_0@ == license_unread(
                before,
                e@,
            ) && n == 0
            &&& !(license matches Some(Err(_))) ==> {
                &&& n >= 1
                &&& is_copyright(added_asset(after, before, 0), before, license)
                &&& changelog matches Some(read) ==> {
                    &&& changelog_bytes(before, read) matches Err(e) ==> r is Err && r->Err_0@
                        == changelog_unread(before, e@) && n == 1
                    &&& changelog_bytes(before, read) is Ok ==> n >= 2 && is_changelog(
                        added_asset(after, before, 1),
                        before,
                        read,
                    )
                }
                &&& changelog is None || changelog_bytes(before, changelog->0) is Ok ==> {
                    &&& r is Ok
                    &&& n == 1 + logged + all_units(found@).len()
                    &&& forall|k: int|
                        1 + logged <= k < n ==> is_unit(
                            #[trigger] added_asset(after, before, k),
                            all_units(found@)[k - 1 - logged],
                            before.deb.preserve_symlinks,
                        )
                }
            }
        }),
{
    let before = *old(c);
    let after = *final(c);
    let keep = before.deb.preserve_symlinks;
    let units = all_units(found@);
    let (added, error) = before.generated_assets(license, changelog, units);
    lemma_added(after, before, added);
    reveal_strlit("copyright");
    reveal_strlit("changelog.Debian.gz");
    if !(license matches Some(Err(_))) {
        let bytes = encode_utf8(copyright_text(before.deb, license_read(license)));
        lemma_documentation(before.deb, "copyright"@, bytes, copyright_origin(before));
        assert(added_asset(after, before, 0) == added[0]);
        if let Some(read) = changelog {
            if changelog_bytes(before, read) is Ok {
                let log = changelog_bytes(before, read)->Ok_0@;
                lemma_documentation(
                    before.deb,
                    "changelog.Debian.gz"@,
                    log,
                    changelog_origin(before),
                );
                assert(added_asset(after, before, 1) == added[1]);
            }
        }
        let logged: int = if changelog is Some {
            1
        } else {
            0
        };
        if changelog is None || changelog_bytes(before, changelog->0) is Ok {
            assert forall|k: int| 1 + logged <= k < added.len() implies is_unit(
                #[trigger] added_asset(after, before, k),
                units[k - 1 - logged],
                keep,
            ) by {
                lemma_unit(units[k - 1 - logged], keep);
                assert(added[k] == unit_assets(units, keep)[k - 1 - logged]);
            }
        }
    }
}

} // verus!
